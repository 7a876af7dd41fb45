//! Declared, evidence-preserving redaction.
//!
//! Selected decoded values may be withheld or tokenized in generated evidence while raw-byte
//! hashes, field provenance, offsets, court identity and audit structure stay preserved, so the
//! evidence remains auditable. No claim is made of anonymization, regulatory compliance,
//! reversibility, or safe public release.
use crate::date_profile::{all_lower_hex, lemma_fields_raw_hex, unhex, unhex_spec};
use crate::decode::{
    decode_record_encoded, decode_record_spec, field_view, fields_view, shim_error_view, Copybook, DecodedField,
    Encoding, FieldView, ShimError, ShimErrorView,
};
use crate::sha256::{sha256_hex, spec_sha256_hex};
use crate::text::{
    bool_text, dec_nat, debug_str, js, lemma_strs_push, push_bool, push_joined, push_js, push_lit, push_usize,
    spec_debug_str, str_eq, strs_view,
};
use vstd::prelude::*;

verus! {

/// What to do with a declared field's value in generated evidence.
#[derive(Debug, Clone, Copy, PartialEq, Eq, Structural)]
pub enum RedactionAction {
    /// Pass the value through (the operator declares it non-sensitive).
    Allow,
    /// Hide the value; keep its hash and the raw bytes' hash and hex.
    RedactValueKeepHash,
    /// Hide the value and the raw hex; keep both hashes.
    RedactValueAndRawKeepHashes,
    /// Replace the value with a deterministic token, stable within the declared scope. A token is
    /// never claimed reversible.
    TokenizeDeterministic,
}

/// What to do with a field that has no declared rule.
#[derive(Debug, Clone, Copy, PartialEq, Eq, Structural)]
pub enum DefaultAction {
    /// An unlisted field fails closed: its value is withheld and a finding is raised.
    DenyUnlisted,
    /// An unlisted field passes through.
    AllowUnlisted,
}

/// A declared per-field rule.
pub struct FieldRule<'a> {
    pub field: &'a str,
    pub action: RedactionAction,
}

/// A declared redaction policy. It never claims that an output is safe for public release.
pub struct RedactionPolicy<'a> {
    pub rules: &'a [FieldRule<'a>],
    pub default_action: DefaultAction,
    /// The scope of deterministic tokens: the same value in the same scope gives the same token.
    pub token_scope: &'a str,
}

/// The redacted evidence of one record.
pub struct RedactionResult {
    pub json: String,
    pub findings: Vec<(String, String)>,
}

pub struct PolicyView {
    pub rules: Seq<(Seq<char>, RedactionAction)>,
    pub default_action: DefaultAction,
    pub token_scope: Seq<char>,
}

pub open spec fn policy_view(p: RedactionPolicy) -> PolicyView {
    PolicyView {
        rules: p.rules@.map_values(|r: FieldRule| (r.field@, r.action)),
        default_action: p.default_action,
        token_scope: p.token_scope@,
    }
}

pub open spec fn action_text(a: RedactionAction) -> Seq<char> {
    match a {
        RedactionAction::Allow => "allow"@,
        RedactionAction::RedactValueKeepHash => "redact_value_keep_hash"@,
        RedactionAction::RedactValueAndRawKeepHashes => "redact_value_and_raw_keep_hashes"@,
        RedactionAction::TokenizeDeterministic => "tokenize_deterministic"@,
    }
}

pub fn action_str(a: RedactionAction) -> (r: &'static str)
    ensures
        r@ == action_text(a),
{
    match a {
        RedactionAction::Allow => "allow",
        RedactionAction::RedactValueKeepHash => "redact_value_keep_hash",
        RedactionAction::RedactValueAndRawKeepHashes => "redact_value_and_raw_keep_hashes",
        RedactionAction::TokenizeDeterministic => "tokenize_deterministic",
    }
}

/// The action of the first rule declared for `name`.
pub open spec fn rule_for(rules: Seq<(Seq<char>, RedactionAction)>, name: Seq<char>) -> Option<RedactionAction>
    decreases rules.len(),
{
    if rules.len() == 0 {
        None
    } else if rules[0].0 == name {
        Some(rules[0].1)
    } else {
        rule_for(rules.drop_first(), name)
    }
}

/// The action applied to a field: its declared rule, else the default (deny withholds the value).
pub open spec fn action_for(p: PolicyView, name: Seq<char>) -> RedactionAction {
    match rule_for(p.rules, name) {
        Some(a) => a,
        None => if p.default_action == DefaultAction::DenyUnlisted {
            RedactionAction::RedactValueKeepHash
        } else {
            RedactionAction::Allow
        },
    }
}

pub open spec fn bytes_of(s: Seq<char>) -> Seq<u8> {
    vstd::utf8::encode_utf8(s)
}

/// The deterministic token of a value: `TOK-` and the first 12 hex digits of the hash of
/// `scope:value`.
pub open spec fn token_of(scope: Seq<char>, value: Seq<char>) -> Seq<char> {
    "TOK-"@ + spec_sha256_hex(bytes_of(scope + ":"@ + value)).take(12)
}

/// The members every field entry carries: what was done, where the bytes lie, and the hashes.
pub open spec fn common_part(a: RedactionAction, f: FieldView) -> Seq<char> {
    "\"redacted\":"@ + bool_text(a != RedactionAction::Allow) + ",\"action\":"@ + js(action_text(a)) + ",\"offset\":"@ + dec_nat(
        f.offset as nat,
    ) + ",\"size\":"@ + dec_nat(f.size as nat) + ",\"value_sha256\":"@ + js(spec_sha256_hex(bytes_of(f.value)))
        + ",\"raw_sha256\":"@ + js(spec_sha256_hex(unhex_spec(f.raw_hex))) + ",\"court\":\"KOBOLD.PRIVACY.REDACTION.1\""@
}

/// A field's entry under its action: the value only when allowed, the raw hex unless both are
/// withheld, a token in place of a tokenized value.
pub open spec fn field_body(a: RedactionAction, f: FieldView, scope: Seq<char>) -> Seq<char> {
    match a {
        RedactionAction::Allow => "\"value\":"@ + js(f.value) + ",\"raw_hex\":"@ + js(f.raw_hex) + ","@ + common_part(a, f),
        RedactionAction::RedactValueKeepHash => "\"value\":\"[REDACTED]\",\"raw_hex\":"@ + js(f.raw_hex) + ","@ + common_part(a, f),
        RedactionAction::RedactValueAndRawKeepHashes => "\"value\":\"[REDACTED]\",\"raw_hex\":\"[REDACTED]\","@ + common_part(a, f),
        RedactionAction::TokenizeDeterministic => "\"value\":"@ + js(token_of(scope, f.value)) + ",\"token\":true,"@ + common_part(a, f),
    }
}

pub open spec fn redact_entry(p: PolicyView, f: FieldView) -> Seq<char> {
    js(f.name) + ":{"@ + field_body(action_for(p, f.name), f, p.token_scope) + "}"@
}

/// The entries and findings of the first `n` fields (groups carry no value and are skipped).
pub open spec fn redact_fold(p: PolicyView, fs: Seq<FieldView>, n: nat) -> (Seq<Seq<char>>, Seq<(Seq<char>, Seq<char>)>)
    decreases n,
{
    if n == 0 || n > fs.len() {
        (seq![], seq![])
    } else {
        let (es, fds) = redact_fold(p, fs, (n - 1) as nat);
        let f = fs[n - 1];
        if f.category == "group"@ {
            (es, fds)
        } else {
            let fds2 = if rule_for(p.rules, f.name) is None && p.default_action == DefaultAction::DenyUnlisted {
                fds.push(
                    (
                        "KOBOLD-PRIVACY-UNLISTED-FIELD"@,
                        "field "@ + spec_debug_str(f.name)
                            + " has no declared rule under a deny-unlisted policy (withheld, fail closed)"@,
                    ),
                )
            } else {
                fds
            };
            (es.push(redact_entry(p, f)), fds2)
        }
    }
}

pub const PRIVACY_NON_CLAIMS: &'static str = "},\"non_claims\":[\"NEG.PRIVACY.NO_REAL_CUSTOMER_DATA_PUBLIC\",\"NEG.REDACTION.NOT_ANONYMIZATION\",\"NEG.REDACTION.NOT_REGULATORY_COMPLIANCE\",\"NEG.REDACTION.HASH_NOT_BUSINESS_VALUE\",\"NEG.REDACTION.TOKEN_NOT_IDENTITY\",\"NEG.REDACTION.REVERSIBILITY_NOT_CLAIMED\",\"NEG.REDACTION.UNLISTED_SENSITIVE_FIELD\"]}\n";

pub struct RedactionView {
    pub json: Seq<char>,
    pub findings: Seq<(Seq<char>, Seq<char>)>,
}

pub open spec fn pairs_view(v: Seq<(String, String)>) -> Seq<(Seq<char>, Seq<char>)> {
    v.map_values(|p: (String, String)| (p.0@, p.1@))
}

pub open spec fn redaction_view(r: RedactionResult) -> RedactionView {
    RedactionView { json: r.json@, findings: pairs_view(r.findings@) }
}

pub open spec fn redact_body(p: PolicyView, fs: Seq<FieldView>, record: Seq<u8>) -> RedactionView {
    let (es, fds) = redact_fold(p, fs, fs.len());
    RedactionView {
        json: "{\"schema\":\"kobold-redaction-policy-v1\",\"court\":\"KOBOLD.PRIVACY.REDACTION.1\",\"mode\":\"evidence_preserving\",\"public_output_claim\":false,\"record_sha256\":"@
            + js(spec_sha256_hex(record)) + ",\"fields\":{"@ + crate::text::join_comma(es) + PRIVACY_NON_CLAIMS@,
        findings: fds,
    }
}

/// What [`redact_record`] returns.
pub open spec fn redact_spec(cb: Copybook, record: Seq<u8>, p: PolicyView, enc: Encoding) -> Result<RedactionView, ShimErrorView> {
    match decode_record_spec(cb, record, enc) {
        Err(e) => Err(e),
        Ok(rv) => Ok(redact_body(p, rv.fields, record)),
    }
}


/// A withheld value enters a field's entry only through its hash (and, tokenized, its token):
/// two fields at the same place with the same raw bytes, whose values hash and tokenize alike,
/// get the same entry under any action but `Allow`, whatever the values are. Under
/// `RedactValueAndRawKeepHashes` the raw hex, too, enters only through its hash.
pub proof fn lemma_withheld_value_enters_only_by_hash(a: RedactionAction, f: FieldView, g: FieldView, scope: Seq<char>)
    requires
        a != RedactionAction::Allow,
        f.offset == g.offset,
        f.size == g.size,
        a == RedactionAction::RedactValueAndRawKeepHashes ==> spec_sha256_hex(unhex_spec(f.raw_hex)) == spec_sha256_hex(
            unhex_spec(g.raw_hex),
        ),
        a != RedactionAction::RedactValueAndRawKeepHashes ==> f.raw_hex == g.raw_hex,
        spec_sha256_hex(bytes_of(f.value)) == spec_sha256_hex(bytes_of(g.value)),
        token_of(scope, f.value) == token_of(scope, g.value),
    ensures
        field_body(a, f, scope) == field_body(a, g, scope),
{
}

fn rule_index(rules: &[FieldRule], name: &str) -> (r: Option<usize>)
    ensures
        match r {
            Some(i) => i < rules@.len() && rule_for(rules@.map_values(|r: FieldRule| (r.field@, r.action)), name@) == Some(rules@[i as int].action),
            None => rule_for(rules@.map_values(|r: FieldRule| (r.field@, r.action)), name@) is None,
        },
{
    let ghost rv = rules@.map_values(|r: FieldRule| (r.field@, r.action));
    let mut i: usize = 0;
    assert(rv.skip(0) =~= rv);
    while i < rules.len()
        invariant
            i <= rules@.len(),
            rv == rules@.map_values(|r: FieldRule| (r.field@, r.action)),
            rule_for(rv, name@) == rule_for(rv.skip(i as int), name@),
        decreases rules@.len() - i,
    {
        assert(rv.skip(i as int)[0] == rv[i as int]);
        assert(rv.skip(i as int).drop_first() =~= rv.skip(i + 1));
        if str_eq(rules[i].field, name) {
            return Some(i);
        }
        i += 1;
    }
    assert(rv.skip(i as int).len() == 0);
    None
}

#[verifier::rlimit(30)]
fn entry_exec(policy: &RedactionPolicy, f: &DecodedField, action: RedactionAction) -> (r: String)
    requires
        all_lower_hex(f.raw_hex@),
    ensures
        r@ == js(f.name@) + ":{"@ + field_body(action, field_view(*f), policy.token_scope@) + "}"@,
{
    let value_sha = sha256_hex(f.value.as_str().as_bytes());
    let raw = unhex(&f.raw_hex);
    let raw_sha = sha256_hex(raw.as_slice());
    let mut common = String::new();
    push_lit(&mut common, "\"redacted\":");
    push_bool(&mut common, action != RedactionAction::Allow);
    push_lit(&mut common, ",\"action\":");
    push_js(&mut common, action_str(action));
    push_lit(&mut common, ",\"offset\":");
    push_usize(&mut common, f.offset);
    push_lit(&mut common, ",\"size\":");
    push_usize(&mut common, f.size);
    push_lit(&mut common, ",\"value_sha256\":");
    push_js(&mut common, value_sha.as_str());
    push_lit(&mut common, ",\"raw_sha256\":");
    push_js(&mut common, raw_sha.as_str());
    push_lit(&mut common, ",\"court\":\"KOBOLD.PRIVACY.REDACTION.1\"");
    assert(common@ =~= common_part(action, field_view(*f)));
    let mut o = String::new();
    push_js(&mut o, f.name.as_str());
    push_lit(&mut o, ":{");
    match action {
        RedactionAction::Allow => {
            push_lit(&mut o, "\"value\":");
            push_js(&mut o, f.value.as_str());
            push_lit(&mut o, ",\"raw_hex\":");
            push_js(&mut o, f.raw_hex.as_str());
            push_lit(&mut o, ",");
        },
        RedactionAction::RedactValueKeepHash => {
            push_lit(&mut o, "\"value\":\"[REDACTED]\",\"raw_hex\":");
            push_js(&mut o, f.raw_hex.as_str());
            push_lit(&mut o, ",");
        },
        RedactionAction::RedactValueAndRawKeepHashes => {
            push_lit(&mut o, "\"value\":\"[REDACTED]\",\"raw_hex\":\"[REDACTED]\",");
        },
        RedactionAction::TokenizeDeterministic => {
            let mut keyed = String::new();
            keyed.append(policy.token_scope);
            push_lit(&mut keyed, ":");
            keyed.append(f.value.as_str());
            let h = sha256_hex(keyed.as_str().as_bytes());
            let hv = crate::text::chars_of(h.as_str());
            let mut tok = String::new();
            push_lit(&mut tok, "TOK-");
            crate::text::push_range(&mut tok, &hv, 0, 12);
            assert(hv@.subrange(0, 12) =~= h@.take(12));
            assert(keyed@ =~= policy.token_scope@ + ":"@ + f.value@);
            assert(tok@ == token_of(policy.token_scope@, f.value@));
            push_lit(&mut o, "\"value\":");
            push_js(&mut o, tok.as_str());
            push_lit(&mut o, ",\"token\":true,");
        },
    }
    o.append(common.as_str());
    push_lit(&mut o, "}");
    assert(o@ =~= js(f.name@) + ":{"@ + field_body(action, field_view(*f), policy.token_scope@) + "}"@);
    o
}

/// Produce evidence-preserving redacted JSON for one record under a declared policy: hashes,
/// offsets and court identity are always kept; declared values are withheld or tokenized, and an
/// unlisted field under a deny policy is withheld with a finding.
#[verifier::rlimit(40)]
pub fn redact_record(cb: &Copybook, record: &[u8], policy: &RedactionPolicy, encoding: Encoding) -> (r: Result<RedactionResult, ShimError>)
    ensures
        match r {
            Ok(v) => redact_spec(*cb, record@, policy_view(*policy), encoding) == Ok::<RedactionView, ShimErrorView>(redaction_view(v)),
            Err(e) => redact_spec(*cb, record@, policy_view(*policy), encoding) == Err::<RedactionView, ShimErrorView>(shim_error_view(e)),
        },
{
    let rec = decode_record_encoded(cb, record, encoding)?;
    let ghost pv = policy_view(*policy);
    let ghost fv = fields_view(rec.fields@);
    proof {
        let p = crate::decode::program_spec(*cb)->Ok_0;
        lemma_fields_raw_hex(p, record@, encoding);
    }
    let mut entries: Vec<String> = Vec::new();
    let mut findings: Vec<(String, String)> = Vec::new();
    let mut i: usize = 0;
    while i < rec.fields.len()
        invariant
            i <= rec.fields@.len(),
            pv == policy_view(*policy),
            fv == fields_view(rec.fields@),
            forall|k: int| 0 <= k < fv.len() ==> all_lower_hex(#[trigger] fv[k].raw_hex),
            (strs_view(entries@), pairs_view(findings@)) == redact_fold(pv, fv, i as nat),
        decreases rec.fields@.len() - i,
    {
        let f = &rec.fields[i];
        assert(fv[i as int] == field_view(*f));
        if !str_eq(f.category, "group") {
            let ri = rule_index(policy.rules, f.name.as_str());
            let action = match ri {
                Some(k) => policy.rules[k].action,
                None => if policy.default_action == DefaultAction::DenyUnlisted {
                    RedactionAction::RedactValueKeepHash
                } else {
                    RedactionAction::Allow
                },
            };
            if ri.is_none() && policy.default_action == DefaultAction::DenyUnlisted {
                let mut m = String::new();
                push_lit(&mut m, "field ");
                let d = debug_str(f.name.as_str());
                m.append(d.as_str());
                push_lit(&mut m, " has no declared rule under a deny-unlisted policy (withheld, fail closed)");
                let ghost before = findings@;
                findings.push((String::from_str("KOBOLD-PRIVACY-UNLISTED-FIELD"), m));
                assert(pairs_view(findings@) =~= pairs_view(before).push(("KOBOLD-PRIVACY-UNLISTED-FIELD"@, m@)));
            }
            assert(fv[i as int].raw_hex == f.raw_hex@);
            let e = entry_exec(policy, f, action);
            proof {
                lemma_strs_push(entries@, e);
            }
            entries.push(e);
        }
        i += 1;
    }
    let rec_sha = sha256_hex(record);
    let mut json = String::new();
    push_lit(
        &mut json,
        "{\"schema\":\"kobold-redaction-policy-v1\",\"court\":\"KOBOLD.PRIVACY.REDACTION.1\",\"mode\":\"evidence_preserving\",\"public_output_claim\":false,\"record_sha256\":",
    );
    push_js(&mut json, rec_sha.as_str());
    push_lit(&mut json, ",\"fields\":{");
    push_joined(&mut json, &entries);
    push_lit(&mut json, PRIVACY_NON_CLAIMS);
    Ok(RedactionResult { json, findings })
}

/// A field's entry in the redaction record: none for a group, else its entry under its action.
pub open spec fn entry_of(p: PolicyView, f: FieldView) -> Option<Seq<char>> {
    if f.category == "group"@ {
        None
    } else {
        Some(redact_entry(p, f))
    }
}

/// A field's finding: only a non-group field with no declared rule under a deny-unlisted policy.
pub open spec fn unlisted_of(p: PolicyView, f: FieldView) -> Option<(Seq<char>, Seq<char>)> {
    if f.category != "group"@ && rule_for(p.rules, f.name) is None && p.default_action == DefaultAction::DenyUnlisted {
        Some(
            (
                "KOBOLD-PRIVACY-UNLISTED-FIELD"@,
                "field "@ + spec_debug_str(f.name) + " has no declared rule under a deny-unlisted policy (withheld, fail closed)"@,
            ),
        )
    } else {
        None
    }
}

proof fn lemma_redact_fold_closed(p: PolicyView, fs: Seq<FieldView>, n: nat)
    requires
        n <= fs.len(),
    ensures
        redact_fold(p, fs, n).0 == fs.take(n as int).filter_map(|f: FieldView| entry_of(p, f)),
        redact_fold(p, fs, n).1 == fs.take(n as int).filter_map(|f: FieldView| unlisted_of(p, f)),
    decreases n,
{
    let e = |f: FieldView| entry_of(p, f);
    let u = |f: FieldView| unlisted_of(p, f);
    if n == 0 {
        assert(fs.take(0) =~= Seq::<FieldView>::empty());
    } else {
        lemma_redact_fold_closed(p, fs, (n - 1) as nat);
        let t = fs.take(n as int);
        assert(t.drop_last() =~= fs.take(n - 1));
        assert(t.last() == fs[n - 1]);
        let pe = fs.take(n - 1).filter_map(e);
        let pu = fs.take(n - 1).filter_map(u);
        match e(t.last()) {
            Some(x) => {
                assert(pe + seq![x] =~= pe.push(x));
            },
            None => {},
        }
        match u(t.last()) {
            Some(x) => {
                assert(pu + seq![x] =~= pu.push(x));
            },
            None => {},
        }
    }
}

/// Every non-group field gets one entry, in record order, under its declared rule's action or,
/// unlisted, the policy's default (deny withholds the value, keeping its hash); and exactly the
/// unlisted non-group fields under a deny-unlisted policy are findings.
pub proof fn lemma_redaction_follows_rules(cb: Copybook, record: Seq<u8>, p: PolicyView, enc: Encoding)
    ensures
        redact_spec(cb, record, p, enc) matches Ok(v) ==> {
            let fs = decode_record_spec(cb, record, enc)->Ok_0.fields;
            &&& v.findings == fs.filter_map(|f: FieldView| unlisted_of(p, f))
            &&& v.json == "{\"schema\":\"kobold-redaction-policy-v1\",\"court\":\"KOBOLD.PRIVACY.REDACTION.1\",\"mode\":\"evidence_preserving\",\"public_output_claim\":false,\"record_sha256\":"@
                + js(spec_sha256_hex(record)) + ",\"fields\":{"@ + crate::text::join_comma(
                fs.filter_map(|f: FieldView| entry_of(p, f)),
            ) + PRIVACY_NON_CLAIMS@
        },
{
    if let Ok(rv) = decode_record_spec(cb, record, enc) {
        lemma_redact_fold_closed(p, rv.fields, rv.fields.len());
        assert(rv.fields.take(rv.fields.len() as int) =~= rv.fields);
    }
}

} // verus!
