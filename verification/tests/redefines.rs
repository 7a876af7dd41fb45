use kobold_data_shim::decode::{Copybook, Encoding};
use kobold_data_shim::redefines::{redefines_manifest, RedefinesDiscriminator};
use kobold_data_shim::expand::{expand_copybook, CopyBooks};

fn cb(src: &str) -> Copybook {
    expand_copybook(src, &CopyBooks::none()).unwrap()
}


const CB: &str = "       01 REC.\n           05 REC-TYPE PIC X.\n           05 SHARED PIC X(12).\n           05 ACCOUNT-VIEW REDEFINES SHARED.\n               10 ACCT-ID PIC 9(6).\n               10 ACCT-BR PIC 9(6).\n           05 LOAN-VIEW REDEFINES SHARED.\n               10 LOAN-ID PIC 9(4).\n               10 LOAN-TERM PIC 9(8).\n";
const REC: &[u8] = b"A123456789012";

#[test]
fn overlapping_views_decoded_active_view_false_by_default() {
    let m = redefines_manifest(&cb(CB), REC, Encoding::Ascii, None).unwrap();
    assert_eq!(m.region_count, 1);
    assert!(
        m.active_view.is_none(),
        "no discriminator -> no active view"
    );
    // one storage region (offset 1, length 12) with the base + both overlay views
    assert!(m.manifest_json.contains("\"offset\":1,\"length\":12"));
    assert!(m.manifest_json.contains("\"view_id\":\"SHARED\""));
    assert!(m.manifest_json.contains("\"view_id\":\"ACCOUNT-VIEW\""));
    assert!(m.manifest_json.contains("\"view_id\":\"LOAN-VIEW\""));
    // each view decodes independently over the same bytes
    assert!(
        m.manifest_json.contains("\"ACCT-ID\":\"123456\"")
            && m.manifest_json.contains("\"ACCT-BR\":\"789012\"")
    );
    assert!(
        m.manifest_json.contains("\"LOAN-ID\":\"1234\"")
            && m.manifest_json.contains("\"LOAN-TERM\":\"56789012\"")
    );
    // active_view refused + business meaning refused
    assert!(m
        .manifest_json
        .contains("\"active_view\":{\"claimed\":false"));
    assert!(m.casefile_json.contains("\"business_meaning\":false"));
    assert!(m
        .casefile_json
        .contains("NEG.REDEFINES.ACTIVE_VIEW_NOT_INFERRED"));
}

#[test]
fn region_raw_hash_present_and_deterministic() {
    let m1 = redefines_manifest(&cb(CB), REC, Encoding::Ascii, None).unwrap();
    let m2 = redefines_manifest(&cb(CB), REC, Encoding::Ascii, None).unwrap();
    assert_eq!(m1.manifest_json, m2.manifest_json, "deterministic");
    // every storage region carries one raw_sha256 of the SHARED bytes (same hash backs all views)
    assert_eq!(m1.manifest_json.matches("\"raw_sha256\":").count(), 1);
    assert!(m1.manifest_json.contains("\"record_sha256\":"));
}

#[test]
fn declared_discriminator_admits_active_view() {
    let disc = RedefinesDiscriminator {
        field: "REC-TYPE",
        mapping: &[("A", "ACCOUNT-VIEW"), ("L", "LOAN-VIEW")],
    };
    let m = redefines_manifest(&cb(CB), REC, Encoding::Ascii, Some(&disc)).unwrap();
    assert_eq!(m.active_view.as_deref(), Some("ACCOUNT-VIEW"));
    assert!(m
        .manifest_json
        .contains("\"active_view\":{\"claimed\":true,\"view_id\":\"ACCOUNT-VIEW\""));
    assert!(m.manifest_json.contains("declared_by"));
    // the active view is flagged is_active:true; the others remain layout-valid byte views
    assert!(m.manifest_json.contains("\"view_id\":\"ACCOUNT-VIEW\",\"redefines\":\"SHARED\",\"layout_valid\":true,\"is_active\":true"));
}

#[test]
fn unknown_discriminator_keeps_active_view_false() {
    let disc = RedefinesDiscriminator {
        field: "REC-TYPE",
        mapping: &[("X", "ACCOUNT-VIEW")],
    };
    let m =
        redefines_manifest(&cb(CB), b"Z123456789012", Encoding::Ascii, Some(&disc)).unwrap();
    assert!(
        m.active_view.is_none(),
        "unknown discriminator value -> no active view"
    );
    assert!(m
        .manifest_json
        .contains("\"active_view\":{\"claimed\":false"));
}

#[test]
fn region_bounds_and_members_are_exact() {
    let m = redefines_manifest(&cb(CB), REC, Encoding::Ascii, None).unwrap();
    assert!(m.manifest_json.contains("{\"storage_region\":{\"offset\":1,\"length\":12,\"raw_sha256\":"));
    assert!(m.manifest_json.contains("\"view_id\":\"SHARED\",\"redefines\":null,\"layout_valid\":true,\"is_active\":false,\"fields\":[{\"name\":\"SHARED\",\"offset\":1,\"length\":12}],\"decoded\":{\"SHARED\":\"123456789012\"}}"));
    assert!(m.manifest_json.contains("\"fields\":[{\"name\":\"LOAN-ID\",\"offset\":1,\"length\":4},{\"name\":\"LOAN-TERM\",\"offset\":5,\"length\":8}]"));
    assert!(m.casefile_json.contains("\"active_view_truth\":false"));
    let none = redefines_manifest(&cb("       01 R.\n           05 A PIC X.\n"), b"Q", Encoding::Ascii, None).unwrap();
    assert_eq!(none.region_count, 0);
    assert!(none.manifest_json.contains("\"regions\":[]"));
}
