use kobold_data_shim::expand::{expand_copybook, CopyBooks};
use gnucobol_rs::{build_field, eval_88, set_88_true, CondLit, CondValue, Condition, Usage};
use kobold_data_shim::decode::{decode_record_encoded, Copybook, Encoding};
use kobold_data_shim::recon::{reconcile, reconcile_encoded, reconcile_encoded_parallel, SHIM_VERSION};

fn cb(src: &str) -> Copybook {
    expand_copybook(src, &CopyBooks::none()).unwrap()
}

const ACCT: &str = "       01 ACCT.\n           05 ACCT-ID PIC X(4).\n           05 STATUS-CODE PIC X.\n              88 ACTIVE VALUE 'A'.\n              88 CLOSED VALUE 'C'.\n           05 BAL PIC S9(5)V99 COMP-3.\n";

fn acct_data() -> Vec<u8> {
    let mut d = Vec::new();
    d.extend_from_slice(b"A001A");
    d.extend_from_slice(&[0x00, 0x12, 0x34, 0x5c]);
    d.extend_from_slice(b"A002C");
    d.extend_from_slice(&[0x00, 0x00, 0x10, 0x0d]);
    d
}

#[test]
fn numeric_display_under_cp500_fails_closed() {
    let c = cb("       01 R.\n           05 AMT PIC 9(4).\n");
    let rec = decode_record_encoded(&c, b"\xF1\xF2\xF3\xF4", Encoding::Cp500).unwrap();
    let amt = rec.fields.iter().find(|f| f.name == "AMT").unwrap();
    assert_eq!(amt.category, "unsupported");
}

#[test]
fn condition_set_round_trips() {
    let cases: Vec<(&str, bool, Vec<CondValue>)> = vec![
        ("X(3)", false, vec![CondValue::Lit(CondLit::Alpha("A".into()))]),
        ("9", false, vec![CondValue::Range(CondLit::Num("1".into()), CondLit::Num("3".into()))]),
        ("S9(3)", true, vec![CondValue::Range(CondLit::Num("1".into()), CondLit::Num("5".into()))]),
    ];
    for (pic, comp3, values) in cases {
        let usage = if comp3 { Usage::Comp3 } else { Usage::Display };
        let pf = build_field(pic, usage, false, false).unwrap();
        let cond = Condition { name: "C".into(), values, false_value: None };
        let bytes = set_88_true(&pf.attr, pf.size, &cond).unwrap();
        assert_eq!(eval_88(&pf.attr, &bytes, &cond), Ok(true), "round-trip failed for {pic}");
    }
}

#[test]
fn reconcile_is_byte_stable_and_counts_records() {
    let c = cb(ACCT);
    let data = acct_data();
    let r1 = reconcile("acct", &c, &data, 9, "0.8.57").unwrap();
    let r2 = reconcile("acct", &c, &data, 9, "0.8.57").unwrap();
    assert_eq!(r1.jsonl, r2.jsonl);
    assert_eq!(r1.audit_json, r2.audit_json);
    assert_eq!(r1.record_count, 2);
    assert_eq!(r1.unsupported_count, 0);
    assert_eq!(r1.jsonl.lines().count(), 2);
    let first = r1.jsonl.lines().next().unwrap();
    assert!(first.starts_with("{\"record_index\":0,\"fields\":{"));
    assert!(first.contains("\"ACCT-ID\":\"A001\""));
    assert!(first.contains("\"BAL\":\"123.45\""));
    assert!(first.contains("\"conditions\":{\"ACTIVE\":true,\"CLOSED\":false}"));
    assert!(first.contains("\"audit\":{\"raw_offset\":0,\"raw_len\":9,\"record_sha256\":"));
    let second = r1.jsonl.lines().nth(1).unwrap();
    assert!(second.contains("\"raw_offset\":9"));
    assert!(second.contains("\"BAL\":\"-1.00\""));
    assert!(second.contains("\"CLOSED\":true"));
    assert!(r1.audit_json.starts_with("{\"schema\":\"kobold-recon-receipt-v1\",\"fixture\":\"acct\","));
    assert!(r1.audit_json.contains("\"record_count\":2,\"field_count\":3,\"condition_count\":2,\"unsupported_count\":0"));
    assert!(r1.audit_json.contains(&format!("\"kobold_data_shim_version\":\"{SHIM_VERSION}\"")));
    assert!(r1.audit_json.contains("\"gnucobol_rs_version\":\"0.8.57\""));
    assert!(r1.audit_json.ends_with("\"byte_stable_replay\":true}\n"));
    assert!(!r1.audit_json.contains("binary_byteorder"));
    assert_eq!(r1.unsupported_json, "{\"unsupported\":[],\"unsupported_count\":0}\n");
}

#[test]
fn scalar_and_parallel_reconcile_are_byte_identical() {
    let c = cb(ACCT);
    let mut data = Vec::new();
    for _ in 0..50 {
        data.extend(acct_data());
    }
    let s = reconcile_encoded("acct", &c, &data, 9, "x", Encoding::Ascii).unwrap();
    let p = reconcile_encoded_parallel("acct", &c, &data, 9, "x", Encoding::Ascii).unwrap();
    assert_eq!(s.jsonl, p.jsonl);
    assert_eq!(s.audit_json, p.audit_json);
    assert_eq!(s.unsupported_json, p.unsupported_json);
    assert_eq!(s.record_count, 100);
    assert_eq!(p.record_count, 100);
}

#[test]
fn reconcile_refuses_zero_record_len_and_notes_binary_and_cp500() {
    let c = cb(ACCT);
    assert!(reconcile("x", &c, &acct_data(), 0, "v").is_err());
    let b = cb("       01 R.\n           05 N PIC 9(4) COMP.\n");
    let r = reconcile_encoded("b", &b, &[0, 1], 2, "v", Encoding::Cp500).unwrap();
    assert!(r.audit_json.contains("\"binary_byteorder\":"));
    assert!(r.audit_json.contains("\"record_default\":\"cp500\""));
}

#[test]
fn unsupported_fields_and_partial_record_are_ledgered() {
    let c = cb("       01 R.\n           05 A PIC X(2).\n           05 B PIC 9(4).\n");
    let r = reconcile("p", &c, b"ABCD12XY", 6, "v").unwrap();
    assert_eq!(r.record_count, 2);
    assert_eq!(r.unsupported_count, 1);
    assert!(r.unsupported_json.starts_with("{\"unsupported\":[],\"unsupported_count\":1}"));
}

#[test]
fn cp500_receipt_records_numeric_display_as_failing_closed() {
    let c = cb("       01 R.\n           05 AMT PIC 9(4).\n");
    let r = reconcile_encoded("cp500-note", &c, b"\xF1\xF2\xF3\xF4", 4, "0.8.57", Encoding::Cp500).unwrap();
    assert!(r.audit_json.contains("\"numeric_display\":{\"zoned_sign\":\"unsupported\",\"fail_closed\":true"));
    assert_eq!(r.record_count, 1);
    assert!(r.jsonl.starts_with("{\"record_index\":0,"));
    assert!(r.jsonl.contains("\"raw_offset\":0,\"raw_len\":4"));
    assert_eq!(r.unsupported_count, 1);
}
