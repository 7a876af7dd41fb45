use kobold_data_shim::decode::{Copybook, Encoding};
use kobold_data_shim::privacy::{redact_record, DefaultAction, FieldRule, RedactionAction, RedactionPolicy};
use kobold_data_shim::expand::{expand_copybook, CopyBooks};

fn cb(src: &str) -> Copybook {
    expand_copybook(src, &CopyBooks::none()).unwrap()
}


const CB: &str = "       01 R.\n           05 ACCOUNT-ID PIC 9(6).\n           05 CUSTOMER PIC X(4).\n           05 AMOUNT PIC 9(3).\n";
const REC: &[u8] = b"004217ANNA250"; // ACCOUNT-ID 004217, CUSTOMER ANNA, AMOUNT 250

#[test]
fn redacts_value_keeps_hashes_and_provenance() {
    let rules = [
        FieldRule {
            field: "ACCOUNT-ID",
            action: RedactionAction::RedactValueKeepHash,
        },
        FieldRule {
            field: "CUSTOMER",
            action: RedactionAction::TokenizeDeterministic,
        },
        FieldRule {
            field: "AMOUNT",
            action: RedactionAction::Allow,
        },
    ];
    let p = RedactionPolicy {
        rules: &rules,
        default_action: DefaultAction::AllowUnlisted,
        token_scope: "casefile",
    };
    let r = redact_record(&cb(CB), REC, &p, Encoding::Ascii).unwrap();
    // ACCOUNT-ID value withheld, hashes + offset preserved
    assert!(r.json.contains("\"ACCOUNT-ID\":{\"value\":\"[REDACTED]\""));
    assert!(r.json.contains("\"value_sha256\":") && r.json.contains("\"raw_sha256\":"));
    assert!(r.json.contains("\"offset\":0,\"size\":6"));
    // the cleartext account id must NOT appear
    assert!(
        !r.json.contains("\"value\":\"4217\""),
        "redacted value must not leak"
    );
    // CUSTOMER tokenized (deterministic), not the cleartext
    assert!(r.json.contains("\"CUSTOMER\":{\"value\":\"TOK-") && !r.json.contains("ANNA"));
    // AMOUNT allowed (cleartext) + redacted:false
    assert!(
        r.json.contains("\"AMOUNT\":{\"value\":\"250\"") && r.json.contains("\"redacted\":false")
    );
    // non-claims present
    assert!(
        r.json.contains("NEG.REDACTION.NOT_ANONYMIZATION")
            && r.json.contains("\"public_output_claim\":false")
    );
}

#[test]
fn deterministic_token_is_stable_but_not_reversible() {
    let rules = [FieldRule {
        field: "CUSTOMER",
        action: RedactionAction::TokenizeDeterministic,
    }];
    let p = RedactionPolicy {
        rules: &rules,
        default_action: DefaultAction::AllowUnlisted,
        token_scope: "batch-1",
    };
    let a = redact_record(&cb(CB), REC, &p, Encoding::Ascii).unwrap();
    let b = redact_record(&cb(CB), REC, &p, Encoding::Ascii).unwrap();
    // same value+scope -> same token
    let tok = |s: &str| {
        s.split("\"CUSTOMER\":{\"value\":\"")
            .nth(1)
            .unwrap()
            .split('"')
            .next()
            .unwrap()
            .to_string()
    };
    assert_eq!(tok(&a.json), tok(&b.json));
    assert!(tok(&a.json).starts_with("TOK-"));
    // different scope -> different token (not an identity)
    let p2 = RedactionPolicy {
        rules: &rules,
        default_action: DefaultAction::AllowUnlisted,
        token_scope: "batch-2",
    };
    let c = redact_record(&cb(CB), REC, &p2, Encoding::Ascii).unwrap();
    assert_ne!(tok(&a.json), tok(&c.json));
}

#[test]
fn unlisted_field_fails_closed_under_deny_policy() {
    // strict: only AMOUNT declared -> ACCOUNT-ID + CUSTOMER are unlisted -> withheld + findings
    let rules = [FieldRule {
        field: "AMOUNT",
        action: RedactionAction::Allow,
    }];
    let p = RedactionPolicy {
        rules: &rules,
        default_action: DefaultAction::DenyUnlisted,
        token_scope: "x",
    };
    let r = redact_record(&cb(CB), REC, &p, Encoding::Ascii).unwrap();
    assert!(r
        .findings
        .iter()
        .any(|(rule, m)| rule == "KOBOLD-PRIVACY-UNLISTED-FIELD" && m.contains("ACCOUNT-ID")));
    assert!(r.json.contains("\"ACCOUNT-ID\":{\"value\":\"[REDACTED]\""));
    assert!(
        !r.json.contains("ANNA"),
        "unlisted CUSTOMER withheld under deny policy"
    );
}

#[test]
fn redaction_entries_are_exact_for_each_action() {
    let rules = [
        FieldRule { field: "ACCOUNT-ID", action: RedactionAction::RedactValueAndRawKeepHashes },
        FieldRule { field: "AMOUNT", action: RedactionAction::Allow },
    ];
    let p = RedactionPolicy { rules: &rules, default_action: DefaultAction::DenyUnlisted, token_scope: "s" };
    let r = redact_record(&cb(CB), REC, &p, Encoding::Ascii).unwrap();
    assert!(r.json.contains("\"ACCOUNT-ID\":{\"value\":\"[REDACTED]\",\"raw_hex\":\"[REDACTED]\",\"redacted\":true,\"action\":\"redact_value_and_raw_keep_hashes\",\"offset\":0,\"size\":6,"));
    assert!(r.json.contains("\"AMOUNT\":{\"value\":\"250\",\"raw_hex\":\"323530\",\"redacted\":false,\"action\":\"allow\",\"offset\":10,\"size\":3,"));
    assert!(r.json.contains("\"CUSTOMER\":{\"value\":\"[REDACTED]\",\"raw_hex\":\"414e4e41\",\"redacted\":true,\"action\":\"redact_value_keep_hash\""));
    assert_eq!(r.findings.len(), 1);
    assert_eq!(r.findings[0].1, "field \"CUSTOMER\" has no declared rule under a deny-unlisted policy (withheld, fail closed)");
    assert!(r.json.starts_with("{\"schema\":\"kobold-redaction-policy-v1\",\"court\":\"KOBOLD.PRIVACY.REDACTION.1\",\"mode\":\"evidence_preserving\""));
}
