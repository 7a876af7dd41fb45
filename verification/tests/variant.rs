use kobold_data_shim::expand::{expand_copybook, CopyBooks};
use kobold_data_shim::decode::{Copybook, Encoding};
use kobold_data_shim::variant::{variant_route, VariantSpec, VariantType};

fn cb(src: &str) -> Copybook {
    expand_copybook(src, &CopyBooks::none()).unwrap()
}

const HEADER: &str = "01 H-REC.\n  05 H-TYPE PIC X.\n  05 H-DATE PIC 9(8).";
const DETAIL: &str = "01 D-REC.\n  05 D-TYPE PIC X.\n  05 D-ACCT PIC X(4).\n  05 D-AMT PIC 9(4).";
const TRAILER: &str = "01 T-REC.\n  05 T-TYPE PIC X.\n  05 T-COUNT PIC 9(8).";

#[test]
fn routes_each_record_type_and_refuses_unmatched() {
    let (h, d, t) = (cb(HEADER), cb(DETAIL), cb(TRAILER));
    let types = [
        VariantType { name: "header", discriminator_value: b"H", copybook: &h },
        VariantType { name: "detail", discriminator_value: b"D", copybook: &d },
        VariantType { name: "trailer", discriminator_value: b"T", copybook: &t },
    ];
    let spec = VariantSpec { discriminator_offset: 0, discriminator_length: 1, types: &types };
    let recs: Vec<&[u8]> = vec![
        b"H20240101", // header
        b"DACCT0042", // detail: D + ACCT "ACCT" + 0042
        b"DACCT0099", // detail
        b"X12345678", // unmatched discriminator 'X'
        b"T00000003", // trailer count 3
    ];
    let r = variant_route(&recs, &spec, Encoding::Ascii).unwrap();
    assert_eq!(r.routed, 4);
    assert_eq!(r.unmatched, 1);
    // the unmatched record is refused, not decoded
    assert!(r.manifest_json.contains("\"matched\":false,\"record_type\":null"));
    // by-type counts: 1 header, 2 detail, 1 trailer
    assert!(r.manifest_json.contains("\"header\":1"));
    assert!(r.manifest_json.contains("\"detail\":2"));
    assert!(r.manifest_json.contains("\"trailer\":1"));
    // a detail record decoded its amount under the detail layout
    assert!(r.manifest_json.contains("\"D-AMT\":\"42\"") || r.manifest_json.contains("\"D-AMT\":\"0042\""));
}

#[test]
fn discriminator_can_be_multi_byte_and_offset() {
    // discriminator at offset 2, length 2
    let c = cb("01 R.\n  05 PAD PIC X(2).\n  05 K PIC X(2).\n  05 V PIC 9(3).");
    let types = [VariantType { name: "ah", discriminator_value: b"AH", copybook: &c }];
    let s = VariantSpec { discriminator_offset: 2, discriminator_length: 2, types: &types };
    let recs: Vec<&[u8]> = vec![b"xxAH123", b"xxZZ999"];
    let r = variant_route(&recs, &s, Encoding::Ascii).unwrap();
    assert_eq!(r.routed, 1);
    assert_eq!(r.unmatched, 1);
}

#[test]
fn short_record_has_an_empty_discriminator() {
    let c = cb("01 R.\n  05 K PIC X(2).");
    let types = [VariantType { name: "k", discriminator_value: b"", copybook: &c }];
    let s = VariantSpec { discriminator_offset: 4, discriminator_length: 2, types: &types };
    let recs: Vec<&[u8]> = vec![b"ab"];
    let r = variant_route(&recs, &s, Encoding::Ascii).unwrap();
    // the empty discriminator of a too-short record selects the type declared with an empty value
    assert_eq!(r.routed, 1);
    assert!(r.manifest_json.contains("\"discriminator\":{\"offset\":4,\"length\":2,\"value\":\"\",\"hex\":\"\"}"));
    assert!(r.casefile_json.starts_with("{\"schema\":\"kobold-variant-routing-forensic-casefile-v1\""));
}
