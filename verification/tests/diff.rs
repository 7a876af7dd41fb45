
use kobold_data_shim::diff::{diff_artifacts, DiffInput, DiffReport, DiffTarget, OracleStatus};

const CMP: &[&str] = &[
    "field_values",
    "audit_hashes",
    "finding_ids",
    "control_totals",
];
fn target(status: OracleStatus) -> DiffTarget<'static> {
    DiffTarget {
        target_kind: "declared_expected_artifact",
        oracle_status: status,
        source: "test-golden",
        allowed_comparisons: CMP,
    }
}
fn input(fields: &[(&str, &str)]) -> DiffInput {
    DiffInput {
        fields: fields
            .iter()
            .map(|(k, v)| (k.to_string(), v.to_string()))
            .collect(),
        finding_ids: vec![],
        control_totals: vec![],
        output_hash: Some("h0".into()),
    }
}
fn has(r: &DiffReport, rule: &str) -> bool {
    r.findings.iter().any(|(x, _)| x == rule)
}

#[test]
fn identical_passes_but_marks_target_not_oracle() {
    let a = input(&[("AMOUNT", "100.00"), ("STATUS", "A")]);
    let e = input(&[("AMOUNT", "100.00"), ("STATUS", "A")]);
    let r = diff_artifacts(&a, &e, &target(OracleStatus::NotOracle));
    assert!(r.matched, "exact structural match");
    assert!(r
        .report_json
        .contains("\"verdict\":\"equal_to_declared_target\""));
    // a non-oracle match must NOT be smuggled into truth
    assert!(has(&r, "KOBOLD-DIFF-TARGET-NOT-ORACLE"));
    assert!(r.report_json.contains("\"oracle_authority_claimed\":false"));
    assert!(
        r.report_json.contains("\"business_truth\":false")
            && r.report_json.contains("\"ledger_truth\":false")
    );
    assert!(r.report_json.contains("NEG.DIFF.MATCH_NOT_BUSINESS_TRUTH"));
}

#[test]
fn field_mismatch_missing_extra() {
    let a = input(&[("AMOUNT", "150.00"), ("EXTRA", "x")]); // AMOUNT changed, EXTRA added, STATUS missing
    let e = input(&[("AMOUNT", "100.00"), ("STATUS", "A")]);
    let r = diff_artifacts(&a, &e, &target(OracleStatus::NotOracle));
    assert!(!r.matched);
    assert!(has(&r, "KOBOLD-DIFF-FIELD-MISMATCH"));
    assert!(has(&r, "KOBOLD-DIFF-MISSING-FIELD"));
    assert!(has(&r, "KOBOLD-DIFF-EXTRA-FIELD"));
    assert!(r.sarif_json.contains("KOBOLD-DIFF-FIELD-MISMATCH"));
}

#[test]
fn finding_set_and_control_total_and_hash_drift() {
    let a = DiffInput {
        finding_ids: vec!["KOBOLD-BANK-CONTROL-MISMATCH".into()],
        control_totals: vec![("debit".into(), "360.50".into())],
        output_hash: Some("HASH-A".into()),
        ..Default::default()
    };
    let e = DiffInput {
        finding_ids: vec![],
        control_totals: vec![("debit".into(), "999.99".into())],
        output_hash: Some("HASH-E".into()),
        ..Default::default()
    };
    let r = diff_artifacts(&a, &e, &target(OracleStatus::DeclaredBaseline));
    assert!(has(&r, "KOBOLD-DIFF-FINDING-SET-MISMATCH"));
    assert!(has(&r, "KOBOLD-DIFF-CONTROL-TOTAL-MISMATCH"));
    assert!(has(&r, "KOBOLD-DIFF-HASH-MISMATCH"));
    assert!(!r.matched);
}

#[test]
fn admitted_oracle_match_claims_oracle_authority_no_refusal_note() {
    let a = input(&[("AMOUNT", "100.00")]);
    let e = input(&[("AMOUNT", "100.00")]);
    let r = diff_artifacts(&a, &e, &target(OracleStatus::AdmittedOracle));
    assert!(r.matched);
    assert!(!has(&r, "KOBOLD-DIFF-TARGET-NOT-ORACLE")); // permitted -> no refusal note
    assert!(r.report_json.contains("\"oracle_authority_claimed\":true"));
}

#[test]
fn deterministic_report() {
    let a = input(&[("B", "2"), ("A", "1")]);
    let e = input(&[("A", "1"), ("B", "9")]);
    let r1 = diff_artifacts(&a, &e, &target(OracleStatus::NotOracle));
    let r2 = diff_artifacts(&a, &e, &target(OracleStatus::NotOracle));
    assert_eq!(r1.report_json, r2.report_json);
    assert_eq!(r1.sarif_json, r2.sarif_json);
}

#[test]
fn allowed_comparisons_gate_which_dimensions_run() {
    // only field_values allowed -> a hash drift is NOT reported
    let t = DiffTarget {
        target_kind: "x",
        oracle_status: OracleStatus::NotOracle,
        source: "previous-run",
        allowed_comparisons: &["field_values"],
    };
    let mut a = input(&[("X", "1")]);
    a.output_hash = Some("HA".into());
    let mut e = input(&[("X", "1")]);
    e.output_hash = Some("HB".into());
    let r = diff_artifacts(&a, &e, &t);
    assert!(
        !has(&r, "KOBOLD-DIFF-HASH-MISMATCH"),
        "hash not in allowed_comparisons -> not checked"
    );
    assert!(r.matched);
}

#[test]
fn findings_are_sorted_and_messages_are_exact() {
    let a = input(&[("B", "2"), ("A", "1")]);
    let e = input(&[("A", "1"), ("B", "9"), ("C", "3")]);
    let r = diff_artifacts(&a, &e, &target(OracleStatus::NotOracle));
    let got: Vec<(&str, &str)> = r.findings.iter().map(|(x, m)| (x.as_str(), m.as_str())).collect();
    assert_eq!(
        got,
        vec![
            ("KOBOLD-DIFF-FIELD-MISMATCH", "field \"B\": actual \"2\" != expected \"9\""),
            ("KOBOLD-DIFF-MISSING-FIELD", "field \"C\" present in expected, absent in actual"),
        ]
    );
    assert!(r.sarif_json.contains("\"level\":\"error\""));
    assert!(r.casefile_json.starts_with("{\"schema\":\"kobold-diff-forensic-casefile-v1\",\"court\":\"KOBOLD.DIFF.1\""));
    assert_eq!(
        r.casefile_json.replacen("kobold-diff-forensic-casefile-v1", "kobold-diff-report-v1", 1),
        r.report_json
    );
}

#[test]
fn control_total_and_set_messages_render_like_debug() {
    let a = DiffInput {
        finding_ids: vec!["B".into(), "A".into(), "B".into()],
        control_totals: vec![("credit".into(), "1".into())],
        output_hash: None,
        ..Default::default()
    };
    let e = DiffInput {
        finding_ids: vec!["A".into()],
        control_totals: vec![("debit".into(), "2".into())],
        output_hash: Some("H".into()),
        ..Default::default()
    };
    let r = diff_artifacts(&a, &e, &target(OracleStatus::NotOracle));
    let msg = |rule: &str| r.findings.iter().filter(|(x, _)| x == rule).map(|(_, m)| m.clone()).collect::<Vec<_>>();
    assert_eq!(msg("KOBOLD-DIFF-FINDING-SET-MISMATCH"), vec!["finding-id set differs: actual {\"A\", \"B\"} != expected {\"A\"}".to_string()]);
    assert_eq!(
        msg("KOBOLD-DIFF-CONTROL-TOTAL-MISMATCH"),
        vec![
            "control total \"credit\" present in actual, not in expected".to_string(),
            "control total \"debit\": actual None != expected \"2\"".to_string(),
        ]
    );
    assert_eq!(msg("KOBOLD-DIFF-HASH-MISMATCH"), vec!["audit output hash differs: actual None != expected Some(\"H\")".to_string()]);
    assert!(!r.matched);
}

#[test]
fn self_diff_with_a_repeated_key_reads_the_earlier_entry_as_a_mismatch() {
    let a = DiffInput {
        fields: vec![("X".into(), "1".into()), ("X".into(), "2".into())],
        finding_ids: vec![],
        control_totals: vec![],
        output_hash: None,
    };
    let t = DiffTarget {
        target_kind: "self",
        oracle_status: OracleStatus::NotOracle,
        source: "same artifact",
        allowed_comparisons: &["field_values"],
    };
    let r = diff_artifacts(&a, &a, &t);
    assert!(!r.matched);
    assert!(r.findings.iter().any(|(rule, _)| rule == "KOBOLD-DIFF-FIELD-MISMATCH"));
}

#[test]
fn finding_ids_compare_as_sets() {
    let mk = |ids: &[&str]| DiffInput {
        fields: vec![],
        finding_ids: ids.iter().map(|s| s.to_string()).collect(),
        control_totals: vec![],
        output_hash: None,
    };
    let t = DiffTarget {
        target_kind: "ids",
        oracle_status: OracleStatus::AdmittedOracle,
        source: "declared",
        allowed_comparisons: &["finding_ids"],
    };
    let r = diff_artifacts(&mk(&["B", "A", "B"]), &mk(&["A", "B"]), &t);
    assert!(r.matched, "same ids in another order and with repeats: {:?}", r.findings);
    let r = diff_artifacts(&mk(&["B", "A"]), &mk(&["A", "C"]), &t);
    assert!(!r.matched);
    assert_eq!(r.findings.len(), 1);
    assert_eq!(
        r.findings[0].1,
        "finding-id set differs: actual {\"A\", \"B\"} != expected {\"A\", \"C\"}"
    );
}

#[test]
fn a_dimension_that_is_not_allowed_is_never_compared() {
    let only_fields: &'static [&'static str] = &["field_values"];
    let t = DiffTarget {
        target_kind: "declared_expected_artifact",
        oracle_status: OracleStatus::AdmittedOracle,
        source: "test-golden",
        allowed_comparisons: only_fields,
    };
    let a = input(&[("AMOUNT", "100.00")]);
    let mut e = input(&[("AMOUNT", "100.00")]);
    e.output_hash = Some("other".into());
    e.finding_ids = vec!["KOBOLD-X".into()];
    e.control_totals = vec![("COUNT".into(), "1".into())];
    let r = diff_artifacts(&a, &e, &t);
    assert!(r.matched);
    assert!(r.findings.is_empty());
    let r2 = diff_artifacts(&a, &e, &target(OracleStatus::AdmittedOracle));
    assert!(!r2.matched);
    assert!(has(&r2, "KOBOLD-DIFF-HASH-MISMATCH"));
    assert!(has(&r2, "KOBOLD-DIFF-FINDING-SET-MISMATCH"));
    assert!(has(&r2, "KOBOLD-DIFF-CONTROL-TOTAL-MISMATCH"));
}
