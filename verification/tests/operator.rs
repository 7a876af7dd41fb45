use kobold_data_shim::expand::{expand_copybook, CopyBooks};
use kobold_data_shim::decode::{Copybook, Encoding};
use kobold_data_shim::operator::{control_totals, decode_records_json, explain_field, DirtyMode};

fn cb(src: &str) -> Copybook {
    expand_copybook(src, &CopyBooks::none()).unwrap()
}

#[test]
fn json_key_collision_is_refused() {
    // Two elementary fields named CODE would clobber each other in flat JSON — refuse, never silently.
    let c = "       01 R.\n           05 CODE PIC X.\n           05 G.\n               10 CODE PIC X.\n";
    let data = b"AB";
    let err = explain_field(&cb(c), data, "CODE", Encoding::Ascii).unwrap_err();
    assert!(err.to_string().contains("collision"), "got: {}", err.to_string());
}

#[test]
fn dirty_data_evidence_vs_strict() {
    // A COMP-3 field whose final nibble is not a valid sign (corrupt legacy byte).
    let c = cb("       01 R.\n           05 AMT PIC S9(3)V99 COMP-3.\n");
    let good = [0x12u8, 0x34, 0x5C]; // 123.45 (+)
    let bad = [0x12u8, 0x34, 0x51]; // last nibble 1 = not a sign → invalid
    // Evidence mode: clean record lists nothing; dirty record preserved + listed.
    let je = decode_records_json(&c, &good, 3, Encoding::Ascii, DirtyMode::Evidence).unwrap();
    assert!(je.contains("\"invalid_fields\":[]"));
    let jd = decode_records_json(&c, &bad, 3, Encoding::Ascii, DirtyMode::Evidence).unwrap();
    assert!(jd.contains("\"invalid_fields\":[\"AMT\"]"), "got: {jd}");
    assert!(jd.contains("\"AMT\":"), "evidence mode must still preserve the field, not drop it");
    // Strict mode: the dirty record is a hard error (no coercion).
    let err = decode_records_json(&c, &bad, 3, Encoding::Ascii, DirtyMode::Strict).unwrap_err();
    assert!(err.to_string().contains("dirty data"), "got: {}", err.to_string());
}

const ACCT: &str = "       01 ACCT.\n           05 ACCT-ID PIC X(4).\n           05 STATUS-CODE PIC X.\n              88 ACTIVE VALUE 'A'.\n              88 CLOSED VALUE 'C'.\n           05 BALANCE PIC S9(7)V99 COMP-3.\n";

fn acct_data() -> Vec<u8> {
    let mut d = Vec::new();
    d.extend_from_slice(b"A001A");
    d.extend_from_slice(&[0x54, 0x59, 0x31, 0x85, 0x5c]);
    d.extend_from_slice(b"A002C");
    d.extend_from_slice(&[0x00, 0x00, 0x00, 0x10, 0x0d]);
    d
}

#[test]
fn explain_field_reports_provenance_courts_and_non_claims() {
    let data = acct_data();
    let json = explain_field(&cb(ACCT), &data[..10], "BALANCE", Encoding::Ascii).unwrap();
    assert!(json.contains("\"pic\":\"S9(7)V99\""), "got: {json}");
    assert!(json.contains("\"usage\":\"COMP-3\""));
    assert!(json.contains("COMP-3 MOVE (GNURUST.2)"));
    assert!(json.contains("\"decoded_value\":\"5459318.55\""));
    assert!(json.contains("\"valid\":true"));
    assert!(json.contains("\"record_sha256\""));
    assert!(json.contains("no business-truth claim"));
    assert!(json.contains("stale_copybook_risk"));
}

#[test]
fn explain_field_lists_dependent_conditions() {
    let data = acct_data();
    let json = explain_field(&cb(ACCT), &data[..10], "STATUS-CODE", Encoding::Ascii).unwrap();
    assert!(json.contains("\"ACTIVE\":true"), "got: {json}");
    assert!(json.contains("LEVEL-88 (GNURUST.11)"));
}

#[test]
fn explain_unknown_field_is_an_error() {
    let data = acct_data();
    assert!(explain_field(&cb(ACCT), &data[..10], "NO-SUCH", Encoding::Ascii).is_err());
}

#[test]
fn control_totals_count_sum_and_conditions() {
    let data = acct_data();
    let json = control_totals(&cb(ACCT), &data, 10, Encoding::Ascii).unwrap();
    assert!(json.contains("\"record_count\":2"), "got: {json}");
    assert!(json.contains("\"BALANCE\":"));
    assert!(json.contains("\"ACTIVE\":"));
    assert!(json.contains("\"invalid_field_count\":0"));
    assert!(json.contains("\"unsupported_field_count\":0"));
}
