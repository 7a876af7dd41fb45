use kobold_data_shim::expand::{expand_copybook, CopyBooks};
use kobold_data_shim::batch_control::batch_control;
use kobold_data_shim::decode::{Copybook, Encoding};

fn cb(src: &str) -> Copybook {
    expand_copybook(src, &CopyBooks::none()).unwrap()
}

const DETAIL: &str = "01 D-REC.\n  05 D-TYPE PIC X.\n  05 D-AMT PIC 9(4)V99.";
const TRAILER: &str = "01 T-REC.\n  05 T-TYPE PIC X.\n  05 T-COUNT PIC 9(3).\n  05 T-TOTAL PIC 9(6)V99.";

// detail amounts: 100.00 + 50.50 + 25.25 = 175.75
fn details() -> Vec<&'static [u8]> {
    vec![b"D010000", b"D005050", b"D002525"]
}

#[test]
fn matching_count_and_total() {
    // trailer: count 3, total 000175.75
    let trailer = b"T00300017575";
    let r = batch_control(&details(), &cb(DETAIL), "D-AMT", trailer, &cb(TRAILER), "T-COUNT", "T-TOTAL", Encoding::Ascii)
        .unwrap();
    assert!(r.count_match, "count should match: {}", r.manifest_json);
    assert!(r.total_match, "total should match: {}", r.manifest_json);
}

#[test]
fn mismatched_count_and_total_are_evidence() {
    // trailer declares count 2 (!=3) and total 000175.74 (!=175.75)
    let trailer = b"T00200017574";
    let r = batch_control(&details(), &cb(DETAIL), "D-AMT", trailer, &cb(TRAILER), "T-COUNT", "T-TOTAL", Encoding::Ascii)
        .unwrap();
    assert!(!r.count_match);
    assert!(!r.total_match);
    // reconciliation_truth is false when either side disagrees
    assert!(r.casefile_json.contains("\"reconciliation_truth\":false"));
}

#[test]
fn observed_total_is_rendered_at_the_largest_scale() {
    let trailer = b"T00300017575";
    let r = batch_control(&details(), &cb(DETAIL), "D-AMT", trailer, &cb(TRAILER), "T-COUNT", "T-TOTAL", Encoding::Ascii)
        .unwrap();
    assert!(r.manifest_json.contains("\"observed\":\"175.75\""), "{}", r.manifest_json);
    assert!(r.manifest_json.contains("\"count\":{\"declared\":\"3\",\"observed\":3,\"match\":true}"), "{}", r.manifest_json);
    assert!(r.casefile_json.contains("\"reconciliation_truth\":true"));
    assert!(r.casefile_json.ends_with("]}\n"));
}

#[test]
fn missing_trailer_fields_never_match() {
    let trailer = b"T00300017575";
    let r = batch_control(&details(), &cb(DETAIL), "D-AMT", trailer, &cb(TRAILER), "NO-COUNT", "NO-TOTAL", Encoding::Ascii)
        .unwrap();
    assert!(!r.count_match);
    assert!(!r.total_match);
}

#[test]
fn no_details_sum_to_zero() {
    let trailer = b"T00000000000";
    let r = batch_control(&[], &cb(DETAIL), "D-AMT", trailer, &cb(TRAILER), "T-COUNT", "T-TOTAL", Encoding::Ascii).unwrap();
    assert!(r.count_match);
    assert!(r.total_match, "{}", r.manifest_json);
    assert!(r.manifest_json.contains("\"observed\":\"0\""), "{}", r.manifest_json);
}
