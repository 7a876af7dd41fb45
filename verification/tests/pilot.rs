
use kobold_data_shim::pilot::{leaked_artifact, pilot_packet, PilotArtifact, PilotInputs};

fn arts() -> Vec<PilotArtifact<'static>> {
    vec![
        PilotArtifact {
            name: "extract_profile",
            court: "KOBOLD.EXTRACT.PROFILE.1",
            content: "{\"schema\":\"kobold-extract-provenance-v1\"}",
        },
        PilotArtifact {
            name: "redaction_policy",
            court: "KOBOLD.PRIVACY.REDACTION.1",
            content: "{\"rules\":[\"NAME\"]}",
        },
        PilotArtifact {
            name: "bank_reconcile",
            court: "KOBOLD.BANK.RECONCILE.1",
            content: "{\"verdict\":\"matched\"}",
        },
        PilotArtifact {
            name: "diff",
            court: "KOBOLD.DIFF.1",
            content: "{\"oracle_status\":\"not_oracle\"}",
        },
        PilotArtifact {
            name: "tooling_export",
            court: "KOBOLD.TOOLING.EXPORT.1",
            content: "{\"fields\":[]}",
        },
        PilotArtifact {
            name: "scale_receipt",
            court: "KOBOLD.SCALE.1",
            content: "{\"records\":1000000}",
        },
    ]
}
fn inputs<'a>(a: &'a [PilotArtifact<'a>], notes: &'a str) -> PilotInputs<'a> {
    PilotInputs {
        pilot_id: "pilot-2026-001",
        business_date: "2026-06-08",
        source_system: "DDA",
        copybook: "01 REC.\n  05 ACCT PIC 9(6).\n",
        operator_review_notes: notes,
        artifacts: a,
    }
}

#[test]
fn packet_binds_artifacts_and_hashes_review_notes() {
    let a = arts();
    let secret = "operator notes: account 123456 looked off; escalated to ops lead";
    let p = pilot_packet(&inputs(&a, secret));
    assert!(
        p.findings.is_empty(),
        "all required artifacts present: {:?}",
        p.findings
    );
    // derived view, no new truth
    assert!(
        p.packet_json.contains("\"derived_view\":true")
            && p.packet_json.contains("\"creates_new_truth\":false")
    );
    // every artifact pinned by sha256 under its court
    assert!(p.packet_json.contains(
        "\"name\":\"extract_profile\",\"court\":\"KOBOLD.EXTRACT.PROFILE.1\",\"sha256\":"
    ));
    assert!(
        p.packet_json.contains("\"name\":\"bank_reconcile\"")
            && p.packet_json.contains("\"name\":\"diff\"")
    );
    // review notes are HASHED, never embedded -> the cleartext must not appear
    assert!(p.packet_json.contains("\"review_notes_embedded\":false"));
    assert!(
        !p.packet_json.contains("123456") && !p.packet_md.contains("123456"),
        "review notes must not leak"
    );
    assert!(p.packet_json.contains("\"complete\":true"));
    assert!(
        p.packet_json.contains("NEG.PILOT.NOT_CERTIFICATION")
            && p.packet_json.contains("NEG.PILOT.NO_NEW_TRUTH")
    );
}

#[test]
fn changed_artifact_changes_the_packet() {
    let a1 = arts();
    let p1 = pilot_packet(&inputs(&a1, "ok"));
    let mut a2 = arts();
    a2[2].content = "{\"verdict\":\"mismatch\"}"; // a different bank_reconcile report
    let p2 = pilot_packet(&inputs(&a2, "ok"));
    assert_ne!(
        p1.packet_json, p2.packet_json,
        "a changed source artifact must change the packet"
    );
}

#[test]
fn missing_required_artifact_is_flagged() {
    let a = vec![PilotArtifact {
        name: "diff",
        court: "KOBOLD.DIFF.1",
        content: "{}",
    }]; // no extract/redaction/bank
    let p = pilot_packet(&inputs(&a, "x"));
    assert!(
        p.findings
            .iter()
            .filter(|(r, _)| r == "KOBOLD-PILOT-MISSING-REQUIRED")
            .count()
            == 3
    );
    assert!(p.packet_json.contains("\"complete\":false"));
}

#[test]
fn missing_finding_and_markdown_are_exact() {
    let a = vec![PilotArtifact { name: "extract_profile", court: "K", content: "{}" }];
    let p = pilot_packet(&inputs(&a, "n"));
    assert_eq!(p.findings.len(), 2);
    assert_eq!(p.findings[0].1, "required pilot artifact \"redaction_policy\" absent \u{2014} the packet is incomplete");
    assert!(p.packet_md.starts_with("# Pilot evidence packet \u{2014} pilot-2026-001\n\n> [!IMPORTANT]\n"));
    assert!(p.packet_md.contains("- artifacts: **1**  \u{b7}  complete: **false**"));
    assert!(p.packet_md.contains("| `extract_profile` | `K` | `"));
    assert!(p.packet_md.ends_with("- [ ] truth boundaries acknowledged: this packet is pilot evidence, not ledger/settlement/business truth\n\n"));
    assert_eq!(p.packet_json.matches("\"name\":").count(), 1);
}

#[test]
fn a_cleartext_value_in_any_artifact_is_found_first_by_position() {
    let arts = [("a.json", "{\"id\":\"TOK-1\"}"), ("b.json", "ACCT0001 here"), ("c.json", "and ACCT0001")];
    assert_eq!(leaked_artifact(&arts, "ACCT0001"), Some(1));
    assert_eq!(leaked_artifact(&arts[..1], "ACCT0001"), None);
    assert_eq!(leaked_artifact(&[], "ACCT0001"), None);
}
