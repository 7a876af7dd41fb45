//! Declared currency/amount-profile evidence.
//!
//! A named numeric field may be treated as an amount under an explicit profile and an optional
//! currency-code field, while PIC scale, signs, rates, FX conversion, rounding policy, legal-tender
//! meaning and business correctness remain non-claims. A sign is not polarity.
use crate::banking::{pairs_view, role_text, NumericRole};
use crate::copybook::trim_ws;
use crate::decode::{
    decode_record_encoded, decode_record_spec, field_view, fields_view, record_view, shim_error_view, Copybook,
    DecodedField, Encoding, FieldView, ShimError, ShimErrorView,
};
use crate::sentinel::{finding_entries, last_field};
use crate::sha256::{sha256_hex, spec_sha256_hex};
use crate::text::{
    bool_text, chars_of, debug_str, dec_nat, join_comma, js, lemma_strs_push, push_bool, push_joined, push_js, push_lit,
    push_u64, spec_debug_str, str_eq, string_of, strs_view,
};
use vstd::prelude::*;
use vstd::utf8::encode_utf8;

verus! {

/// A declared currency/amount-field profile.
pub struct CurrencyFieldProfile<'a> {
    pub field: &'a str,
    pub numeric_role: NumericRole,
    pub currency_code_field: Option<&'a str>,
    pub declared_scale: u8,
    /// When the observed implied scale differs from `declared_scale`, emit a finding.
    pub scale_mismatch_is_finding: bool,
}

/// The declared currency profile.
pub struct CurrencyProfile<'a> {
    pub fields: &'a [CurrencyFieldProfile<'a>],
}

/// The currency-validation result.
pub struct CurrencyManifest {
    pub manifest_json: String,
    pub casefile_json: String,
    pub findings: Vec<(String, String)>,
}

/// Index of the last `.` in `v`.
pub open spec fn last_dot(v: Seq<char>) -> Option<int>
    decreases v.len(),
{
    if v.len() == 0 {
        None
    } else if v.last() == '.' {
        Some(v.len() - 1)
    } else {
        last_dot(v.drop_last())
    }
}

/// The implied scale observed in a decoded value: the byte length of the text after its last
/// `.`, as a `u8` (`0` when there is no `.`).
pub open spec fn observed_scale(v: Seq<char>) -> u8 {
    match last_dot(v) {
        Some(k) => (encode_utf8(v.skip(k + 1)).len() as u8),
        None => 0,
    }
}

pub struct CurAcc {
    pub entries: Seq<Seq<char>>,
    pub findings: Seq<(Seq<char>, Seq<char>)>,
}

pub open spec fn ccy_json(cf: Seq<char>, code: Option<Seq<char>>) -> Seq<char> {
    ",\"currency_code_field\":"@ + js(cf) + ",\"currency_code_evidence\":"@ + (match code {
        Some(c) => js(trim_ws(c)),
        None => "null"@,
    }) + ",\"legal_tender_truth\":false"@
}

pub open spec fn amount_entry(field: Seq<char>, declared: u8, obs: u8, ccy: Seq<char>) -> Seq<char> {
    "{\"field\":"@ + js(field) + ",\"numeric_role\":\"amount\",\"admitted_as_money\":false,\"declared_scale\":"@ + dec_nat(
        declared as nat,
    ) + ",\"observed_scale\":"@ + dec_nat(obs as nat) + ",\"scale_match\":"@ + bool_text(obs == declared)
        + ",\"sign_is_polarity\":false,\"money_meaning_claimed\":false"@ + ccy + "}"@
}

/// One declared field's effect: a missing field is a finding; a non-amount role is refused as
/// money (finding and entry); an amount gets its scale evidence and currency-code evidence.
pub open spec fn cur_step(acc: CurAcc, fp: CurrencyFieldProfile, fs: Seq<FieldView>) -> CurAcc {
    let field = fp.field@;
    match last_field(fs, field) {
        None => CurAcc {
            findings: acc.findings.push(
                ("KOBOLD-CURRENCY-MISSING-FIELD"@, "declared amount field "@ + spec_debug_str(field) + " not found"@),
            ),
            ..acc
        },
        Some(f) => if fp.numeric_role != NumericRole::Amount {
            CurAcc {
                findings: acc.findings.push(
                    (
                        "KOBOLD-CURRENCY-ROLE-NOT-AMOUNT"@,
                        spec_debug_str(field) + " declared role="@ + role_text(fp.numeric_role)
                            + " is not an amount (not admitted as money)"@,
                    ),
                ),
                entries: acc.entries.push(
                    "{\"field\":"@ + js(field) + ",\"numeric_role\":"@ + js(role_text(fp.numeric_role))
                        + ",\"admitted_as_money\":false}"@,
                ),
            }
        } else {
            let obs = observed_scale(f.value);
            let f1 = if obs != fp.declared_scale && fp.scale_mismatch_is_finding {
                acc.findings.push(
                    (
                        "KOBOLD-CURRENCY-SCALE-MISMATCH"@,
                        spec_debug_str(field) + ": observed scale "@ + dec_nat(obs as nat) + " != declared scale "@ + dec_nat(
                            fp.declared_scale as nat,
                        ),
                    ),
                )
            } else {
                acc.findings
            };
            let (ccy, f2) = match fp.currency_code_field {
                None => (Seq::<char>::empty(), f1),
                Some(cf) => match last_field(fs, cf@) {
                    Some(code) => (ccy_json(cf@, Some(code.value)), f1),
                    None => (
                        ccy_json(cf@, None),
                        f1.push(
                            ("KOBOLD-CURRENCY-MISSING-CODE"@, "declared currency-code field "@ + spec_debug_str(cf@) + " not found"@),
                        ),
                    ),
                },
            };
            CurAcc { entries: acc.entries.push(amount_entry(field, fp.declared_scale, obs, ccy)), findings: f2 }
        },
    }
}

pub open spec fn cur_fold(fps: Seq<CurrencyFieldProfile>, fs: Seq<FieldView>, n: nat) -> CurAcc
    decreases n,
{
    if n == 0 || n > fps.len() {
        CurAcc { entries: seq![], findings: seq![] }
    } else {
        cur_step(cur_fold(fps, fs, (n - 1) as nat), fps[n - 1], fs)
    }
}

pub open spec fn currency_manifest_json(record: Seq<u8>, acc: CurAcc) -> Seq<char> {
    "{\"schema\":\"kobold-currency-manifest-v1\",\"court\":\"KOBOLD.CURRENCY.PROFILE.1\",\"record_sha256\":"@ + js(
        spec_sha256_hex(record),
    ) + ",\"fields\":["@ + join_comma(acc.entries) + "]}"@
}

pub open spec fn currency_casefile_json(manifest: Seq<char>, findings: Seq<(Seq<char>, Seq<char>)>) -> Seq<char> {
    "{\"schema\":\"kobold-currency-forensic-casefile-v1\",\"court\":\"KOBOLD.CURRENCY.PROFILE.1\",\"manifest\":"@ + manifest
        + ",\"findings\":["@ + join_comma(finding_entries(findings))
        + "],\"truth_layers\":{\"amount_scale_evidence\":true,\"money_meaning\":false,\"fx_conversion\":false,\"legal_tender\":false,\"rounding_policy\":false,\"accounting_treatment\":false,\"business_value\":false},\"negative_capabilities\":[\"NEG.CURRENCY.V99_NOT_MONEY\",\"NEG.CURRENCY.MINOR_UNIT_NOT_INFERRED\",\"NEG.CURRENCY.CODE_NOT_LEGAL_TENDER_TRUTH\",\"NEG.CURRENCY.FX_CONVERSION_NOT_CLAIMED\",\"NEG.CURRENCY.ROUNDING_POLICY_NOT_CLAIMED\",\"NEG.CURRENCY.SIGN_NOT_POLARITY\",\"NEG.CURRENCY.RATE_NOT_AMOUNT\",\"NEG.CURRENCY.BUSINESS_VALUE_NOT_CLAIMED\"]}\n"@
}

pub struct CurrencyView {
    pub manifest: Seq<char>,
    pub casefile: Seq<char>,
    pub findings: Seq<(Seq<char>, Seq<char>)>,
}

/// The currency evidence of one record, or the copybook's layout failure.
pub open spec fn currency_spec(cb: Copybook, record: Seq<u8>, p: CurrencyProfile, enc: Encoding) -> Result<CurrencyView, ShimErrorView> {
    match decode_record_spec(cb, record, enc) {
        Err(e) => Err(e),
        Ok(rv) => {
            let acc = cur_fold(p.fields@, rv.fields, p.fields@.len());
            let m = currency_manifest_json(record, acc);
            Ok(CurrencyView { manifest: m, casefile: currency_casefile_json(m, acc.findings), findings: acc.findings })
        },
    }
}

fn find_last(fields: &Vec<DecodedField>, name: &str) -> (r: Option<usize>)
    ensures
        match r {
            Some(i) => i < fields@.len() && last_field(fields_view(fields@), name@) == Some(fields_view(fields@)[i as int]),
            None => last_field(fields_view(fields@), name@) is None,
        },
{
    let ghost fv = fields_view(fields@);
    let mut i = fields.len();
    assert(fv.take(i as int) =~= fv);
    while i > 0
        invariant
            i <= fields@.len(),
            fv == fields_view(fields@),
            last_field(fv.take(i as int), name@) == last_field(fv, name@),
        decreases i,
    {
        assert(fv.take(i as int).drop_last() =~= fv.take(i - 1));
        assert(fv.take(i as int).last() == fv[i - 1]);
        if str_eq(fields[i - 1].name.as_str(), name) {
            return Some(i - 1);
        }
        i -= 1;
    }
    None
}

fn observed_scale_exec(v: &String) -> (r: u8)
    ensures
        r == observed_scale(v@),
{
    let c = chars_of(v.as_str());
    let mut i = c.len();
    assert(c@.take(i as int) =~= c@);
    while i > 0 && c[i - 1] != '.'
        invariant
            i <= c@.len(),
            c@ == v@,
            last_dot(c@.take(i as int)) == last_dot(c@),
        decreases i,
    {
        assert(c@.take(i as int).drop_last() =~= c@.take(i - 1));
        i -= 1;
    }
    if i == 0 {
        assert(c@.take(0) =~= Seq::<char>::empty());
        return 0;
    }
    assert(c@.take(i as int).drop_last() =~= c@.take(i - 1));
    assert(last_dot(c@) == Some(i - 1));
    let mut tail = String::new();
    crate::text::push_range(&mut tail, &c, i, c.len());
    assert(c@.subrange(i as int, c@.len() as int) =~= c@.skip(i as int));
    let n = tail.as_str().as_bytes().len();
    #[verifier::truncate]
    (n as u8)
}

fn quoted(pre: &str, name: &str, post: &str) -> (m: String)
    ensures
        m@ == pre@ + spec_debug_str(name@) + post@,
{
    let mut m = String::from_str(pre);
    let d = debug_str(name);
    m.append(d.as_str());
    push_lit(&mut m, post);
    m
}

fn push_pair(v: &mut Vec<(String, String)>, rule: &str, msg: String)
    ensures
        pairs_view(final(v)@) == pairs_view(old(v)@).push((rule@, msg@)),
{
    let ghost b = pairs_view(v@);
    v.push((String::from_str(rule), msg));
    assert(pairs_view(v@) =~= b.push((rule@, msg@)));
}

#[verifier::rlimit(40)]
fn cur_one(fp: &CurrencyFieldProfile, fields: &Vec<DecodedField>, entries: &mut Vec<String>, findings: &mut Vec<(String, String)>)
    ensures
        cur_step(CurAcc { entries: strs_view(old(entries)@), findings: pairs_view(old(findings)@) }, *fp, fields_view(fields@))
            == (CurAcc { entries: strs_view(final(entries)@), findings: pairs_view(final(findings)@) }),
{
    let k = match find_last(fields, fp.field) {
        None => {
            let m = quoted("declared amount field ", fp.field, " not found");
            push_pair(findings, "KOBOLD-CURRENCY-MISSING-FIELD", m);
            return;
        },
        Some(k) => k,
    };
    if fp.numeric_role != NumericRole::Amount {
        let mut m = debug_str(fp.field);
        push_lit(&mut m, " declared role=");
        m.append(fp.numeric_role.as_str());
        push_lit(&mut m, " is not an amount (not admitted as money)");
        push_pair(findings, "KOBOLD-CURRENCY-ROLE-NOT-AMOUNT", m);
        let mut e = String::new();
        push_lit(&mut e, "{\"field\":");
        push_js(&mut e, fp.field);
        push_lit(&mut e, ",\"numeric_role\":");
        push_js(&mut e, fp.numeric_role.as_str());
        push_lit(&mut e, ",\"admitted_as_money\":false}");
        proof {
            lemma_strs_push(entries@, e);
        }
        entries.push(e);
        return;
    }
    let obs = observed_scale_exec(&fields[k].value);
    if obs != fp.declared_scale && fp.scale_mismatch_is_finding {
        let mut m = debug_str(fp.field);
        push_lit(&mut m, ": observed scale ");
        push_u64(&mut m, obs as u64);
        push_lit(&mut m, " != declared scale ");
        push_u64(&mut m, fp.declared_scale as u64);
        push_pair(findings, "KOBOLD-CURRENCY-SCALE-MISMATCH", m);
    }
    let mut ccy = String::new();
    match fp.currency_code_field {
        None => {},
        Some(cf) => {
            push_lit(&mut ccy, ",\"currency_code_field\":");
            push_js(&mut ccy, cf);
            push_lit(&mut ccy, ",\"currency_code_evidence\":");
            match find_last(fields, cf) {
                Some(j) => {
                    let t = string_of(&crate::copybook::trimmed_chars(fields[j].value.as_str()));
                    push_js(&mut ccy, t.as_str());
                },
                None => {
                    push_lit(&mut ccy, "null");
                    let m = quoted("declared currency-code field ", cf, " not found");
                    push_pair(findings, "KOBOLD-CURRENCY-MISSING-CODE", m);
                },
            }
            push_lit(&mut ccy, ",\"legal_tender_truth\":false");
        },
    }
    let mut e = String::new();
    push_lit(&mut e, "{\"field\":");
    push_js(&mut e, fp.field);
    push_lit(&mut e, ",\"numeric_role\":\"amount\",\"admitted_as_money\":false,\"declared_scale\":");
    push_u64(&mut e, fp.declared_scale as u64);
    push_lit(&mut e, ",\"observed_scale\":");
    push_u64(&mut e, obs as u64);
    push_lit(&mut e, ",\"scale_match\":");
    push_bool(&mut e, obs == fp.declared_scale);
    push_lit(&mut e, ",\"sign_is_polarity\":false,\"money_meaning_claimed\":false");
    e.append(ccy.as_str());
    push_lit(&mut e, "}");
    proof {
        lemma_strs_push(entries@, e);
    }
    entries.push(e);
}

/// Validate declared amount fields of one record against their declared currency profile, as
/// evidence only.
#[verifier::rlimit(40)]
pub fn currency_validate(cb: &Copybook, record: &[u8], profile: &CurrencyProfile, encoding: Encoding) -> (r: Result<
    CurrencyManifest,
    ShimError,
>)
    ensures
        match r {
            Ok(m) => currency_spec(*cb, record@, *profile, encoding) == Ok::<CurrencyView, ShimErrorView>(
                CurrencyView { manifest: m.manifest_json@, casefile: m.casefile_json@, findings: pairs_view(m.findings@) },
            ),
            Err(e) => currency_spec(*cb, record@, *profile, encoding) == Err::<CurrencyView, ShimErrorView>(
                shim_error_view(e),
            ),
        },
{
    let decoded = decode_record_encoded(cb, record, encoding)?;
    let ghost fs = record_view(decoded).fields;
    let mut entries: Vec<String> = Vec::new();
    let mut findings: Vec<(String, String)> = Vec::new();
    assert(strs_view(entries@) =~= seq![]);
    assert(pairs_view(findings@) =~= seq![]);
    let mut i: usize = 0;
    while i < profile.fields.len()
        invariant
            i <= profile.fields@.len(),
            fs == fields_view(decoded.fields@),
            cur_fold(profile.fields@, fs, i as nat) == (CurAcc { entries: strs_view(entries@), findings: pairs_view(findings@) }),
        decreases profile.fields@.len() - i,
    {
        cur_one(&profile.fields[i], &decoded.fields, &mut entries, &mut findings);
        i += 1;
    }
    let ghost acc = cur_fold(profile.fields@, fs, profile.fields@.len());
    let mut m = String::new();
    push_lit(&mut m, "{\"schema\":\"kobold-currency-manifest-v1\",\"court\":\"KOBOLD.CURRENCY.PROFILE.1\",\"record_sha256\":");
    let h = sha256_hex(record);
    push_js(&mut m, h.as_str());
    push_lit(&mut m, ",\"fields\":[");
    push_joined(&mut m, &entries);
    push_lit(&mut m, "]}");
    assert(m@ =~= currency_manifest_json(record@, acc));
    let fl = crate::sentinel::finding_list(&findings);
    let mut c = String::new();
    push_lit(&mut c, "{\"schema\":\"kobold-currency-forensic-casefile-v1\",\"court\":\"KOBOLD.CURRENCY.PROFILE.1\",\"manifest\":");
    c.append(m.as_str());
    push_lit(&mut c, ",\"findings\":[");
    push_joined(&mut c, &fl);
    push_lit(
        &mut c,
        "],\"truth_layers\":{\"amount_scale_evidence\":true,\"money_meaning\":false,\"fx_conversion\":false,\"legal_tender\":false,\"rounding_policy\":false,\"accounting_treatment\":false,\"business_value\":false},\"negative_capabilities\":[\"NEG.CURRENCY.V99_NOT_MONEY\",\"NEG.CURRENCY.MINOR_UNIT_NOT_INFERRED\",\"NEG.CURRENCY.CODE_NOT_LEGAL_TENDER_TRUTH\",\"NEG.CURRENCY.FX_CONVERSION_NOT_CLAIMED\",\"NEG.CURRENCY.ROUNDING_POLICY_NOT_CLAIMED\",\"NEG.CURRENCY.SIGN_NOT_POLARITY\",\"NEG.CURRENCY.RATE_NOT_AMOUNT\",\"NEG.CURRENCY.BUSINESS_VALUE_NOT_CLAIMED\"]}\n",
    );
    assert(c@ =~= currency_casefile_json(m@, pairs_view(findings@)));
    Ok(CurrencyManifest { manifest_json: m, casefile_json: c, findings })
}

/// The findings of one declared field, on its own: a missing field; a role other than amount; for
/// an amount, a scale mismatch when the profile makes it a finding, then a missing currency-code
/// field when one is declared.
pub open spec fn field_findings(fp: CurrencyFieldProfile, fs: Seq<FieldView>) -> Seq<(Seq<char>, Seq<char>)> {
    let field = fp.field@;
    match last_field(fs, field) {
        None => seq![("KOBOLD-CURRENCY-MISSING-FIELD"@, "declared amount field "@ + spec_debug_str(field) + " not found"@)],
        Some(f) => if fp.numeric_role != NumericRole::Amount {
            seq![
                (
                    "KOBOLD-CURRENCY-ROLE-NOT-AMOUNT"@,
                    spec_debug_str(field) + " declared role="@ + role_text(fp.numeric_role) + " is not an amount (not admitted as money)"@,
                ),
            ]
        } else {
            let obs = observed_scale(f.value);
            (if obs != fp.declared_scale && fp.scale_mismatch_is_finding {
                seq![
                    (
                        "KOBOLD-CURRENCY-SCALE-MISMATCH"@,
                        spec_debug_str(field) + ": observed scale "@ + dec_nat(obs as nat) + " != declared scale "@ + dec_nat(
                            fp.declared_scale as nat,
                        ),
                    ),
                ]
            } else {
                seq![]
            }) + match fp.currency_code_field {
                Some(cf) => if last_field(fs, cf@) is None {
                    seq![("KOBOLD-CURRENCY-MISSING-CODE"@, "declared currency-code field "@ + spec_debug_str(cf@) + " not found"@)]
                } else {
                    seq![]
                },
                None => seq![],
            }
        },
    }
}

/// The findings of the first `n` declared fields, field after field.
pub open spec fn profile_findings(fps: Seq<CurrencyFieldProfile>, fs: Seq<FieldView>, n: nat) -> Seq<(Seq<char>, Seq<char>)>
    decreases n,
{
    if n == 0 || n > fps.len() {
        seq![]
    } else {
        profile_findings(fps, fs, (n - 1) as nat) + field_findings(fps[n - 1], fs)
    }
}

proof fn lemma_cur_fold_findings(fps: Seq<CurrencyFieldProfile>, fs: Seq<FieldView>, n: nat)
    requires
        n <= fps.len(),
    ensures
        cur_fold(fps, fs, n).findings == profile_findings(fps, fs, n),
    decreases n,
{
    if n > 0 {
        lemma_cur_fold_findings(fps, fs, (n - 1) as nat);
        let a = cur_fold(fps, fs, (n - 1) as nat);
        let fp = fps[n - 1];
        let r = cur_fold(fps, fs, n);
        let ff = field_findings(fp, fs);
        assert(r.findings =~= a.findings + ff);
    }
}

/// Each declared field contributes its own findings, in profile order and independently of the
/// others: a missing field, a role other than amount (never admitted as money), a scale mismatch
/// only when the profile makes it a finding, and a missing declared currency-code field.
pub proof fn lemma_findings_per_declared_field(cb: Copybook, record: Seq<u8>, p: CurrencyProfile, enc: Encoding)
    ensures
        currency_spec(cb, record, p, enc) matches Ok(v) ==> v.findings == profile_findings(
            p.fields@,
            decode_record_spec(cb, record, enc)->Ok_0.fields,
            p.fields@.len(),
        ),
{
    if let Ok(rv) = decode_record_spec(cb, record, enc) {
        lemma_cur_fold_findings(p.fields@, rv.fields, p.fields@.len());
    }
}

} // verus!
