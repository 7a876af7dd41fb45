//! Declared sentinel-marker evidence.
//!
//! LOW-VALUES, HIGH-VALUES, SPACES, ZEROES, zero-dates and custom markers may be recorded for
//! named fields when declared, but nullness, date meaning, missingness and business status remain
//! non-claims. An undeclared sentinel-looking value is never inferred.
use crate::copybook::eq_ic;
use crate::decode::{
    decode_record_encoded, decode_record_spec, field_view, fields_view, record_view, shim_error_view, Copybook, DecodedField,
    Encoding, FieldView, RecordView, ShimError, ShimErrorView,
};
use crate::sha256::{sha256_hex, spec_sha256_hex};
use crate::banking::pairs_view;
use crate::text::{
    chars_of, dec_nat, debug_str, join_comma, js, lemma_strs_push, push_joined, push_js, push_lit, push_usize,
    spec_debug_str, str_eq, strs_view,
};
use vstd::prelude::*;

verus! {

/// How a declared sentinel is matched against a decoded field.
#[derive(Debug, Clone, Copy)]
pub enum SentinelMatch<'a> {
    /// Match the field's decoded value exactly.
    DecodedValue(&'a str),
    /// Match the field's raw bytes (hex, ASCII case-insensitive).
    RawHex(&'a str),
}

/// One declared sentinel rule for a field: an id and how to match it. Always evidence only.
pub struct SentinelRule<'a> {
    pub sentinel_id: &'a str,
    pub match_on: SentinelMatch<'a>,
}

/// The declared sentinel profile: `(field name, rules)` pairs. Only declared rules are applied.
pub struct SentinelProfile<'a> {
    pub fields: &'a [(&'a str, &'a [SentinelRule<'a>])],
}

/// The sentinel-scan result.
pub struct SentinelManifest {
    pub manifest_json: String,
    pub casefile_json: String,
    /// `(field, sentinel_id)` for every declared marker that matched.
    pub hits: Vec<(String, String)>,
    pub findings: Vec<(String, String)>,
}

/// The last decoded field with this name (a later field of the same name shadows an earlier one).
pub open spec fn last_field(fs: Seq<FieldView>, name: Seq<char>) -> Option<FieldView>
    decreases fs.len(),
{
    if fs.len() == 0 {
        None
    } else if fs.last().name == name {
        Some(fs.last())
    } else {
        last_field(fs.drop_last(), name)
    }
}

/// Whether a rule matches a field, and what it matched on.
pub open spec fn rule_match(m: SentinelMatch, f: FieldView) -> (bool, Seq<char>) {
    match m {
        SentinelMatch::DecodedValue(v) => (f.value == v@, "decoded_value"@),
        SentinelMatch::RawHex(h) => (eq_ic(f.raw_hex, h@), "raw_hex"@),
    }
}

pub open spec fn hit_json(field: Seq<char>, id: Seq<char>, on: Seq<char>, f: FieldView) -> Seq<char> {
    "{\"field\":"@ + js(field) + ",\"sentinel_id\":"@ + js(id) + ",\"matched_on\":"@ + js(on) + ",\"decoded_value\":"@
        + js(f.value) + ",\"raw_hex\":"@ + js(f.raw_hex)
        + ",\"meaning_label\":\"declared_marker_only\",\"business_meaning_claimed\":false}"@
}

pub struct ScanAcc {
    pub hits: Seq<(Seq<char>, Seq<char>)>,
    pub hits_json: Seq<Seq<char>>,
    pub findings: Seq<(Seq<char>, Seq<char>)>,
}

/// The rules of one field, applied in order to its decoded value.
pub open spec fn rules_fold(acc: ScanAcc, field: Seq<char>, rules: Seq<SentinelRule>, f: FieldView, n: nat) -> ScanAcc
    decreases n,
{
    if n == 0 || n > rules.len() {
        acc
    } else {
        let a = rules_fold(acc, field, rules, f, (n - 1) as nat);
        let r = rules[n - 1];
        let (m, on) = rule_match(r.match_on, f);
        if m {
            ScanAcc {
                hits: a.hits.push((field, r.sentinel_id@)),
                hits_json: a.hits_json.push(hit_json(field, r.sentinel_id@, on, f)),
                ..a
            }
        } else {
            a
        }
    }
}

pub open spec fn no_field_msg(field: Seq<char>) -> Seq<char> {
    "declared sentinel field "@ + spec_debug_str(field) + " not found in the record"@
}

/// The declared fields, in order: a missing field is a finding; otherwise its rules are applied.
pub open spec fn scan_fold(fields: Seq<(&str, &[SentinelRule])>, fs: Seq<FieldView>, n: nat) -> ScanAcc
    decreases n,
{
    if n == 0 || n > fields.len() {
        ScanAcc { hits: seq![], hits_json: seq![], findings: seq![] }
    } else {
        let a = scan_fold(fields, fs, (n - 1) as nat);
        let (field, rules) = fields[n - 1];
        match last_field(fs, field@) {
            None => ScanAcc { findings: a.findings.push(("KOBOLD-SENTINEL-NO-FIELD"@, no_field_msg(field@))), ..a },
            Some(f) => rules_fold(a, field@, rules@, f, rules@.len()),
        }
    }
}

pub open spec fn sentinel_manifest_json(record: Seq<u8>, acc: ScanAcc) -> Seq<char> {
    "{\"schema\":\"kobold-sentinel-manifest-v1\",\"court\":\"KOBOLD.SENTINEL.PROFILE.1\",\"record_sha256\":"@ + js(
        spec_sha256_hex(record),
    ) + ",\"hit_count\":"@ + dec_nat(acc.hits.len()) + ",\"hits\":["@ + join_comma(acc.hits_json)
        + "],\"undeclared_inference\":false}"@
}

pub open spec fn finding_entries(f: Seq<(Seq<char>, Seq<char>)>) -> Seq<Seq<char>> {
    f.map_values(|p: (Seq<char>, Seq<char>)| "{\"ruleId\":"@ + js(p.0) + ",\"message\":"@ + js(p.1) + "}"@)
}

pub open spec fn sentinel_casefile_json(manifest: Seq<char>, findings: Seq<(Seq<char>, Seq<char>)>) -> Seq<char> {
    "{\"schema\":\"kobold-sentinel-forensic-casefile-v1\",\"court\":\"KOBOLD.SENTINEL.PROFILE.1\",\"manifest\":"@
        + manifest + ",\"findings\":["@ + join_comma(finding_entries(findings))
        + "],\"truth_layers\":{\"declared_marker_evidence\":true,\"nullness\":false,\"date_meaning\":false,\"missingness\":false,\"business_status\":false,\"account_state\":false,\"default_meaning\":false},\"negative_capabilities\":[\"NEG.SENTINEL.LOW_VALUES_NOT_NULL\",\"NEG.SENTINEL.HIGH_VALUES_NOT_MAX_DATE\",\"NEG.SENTINEL.SPACES_NOT_MISSING\",\"NEG.SENTINEL.ZEROES_NOT_ABSENT\",\"NEG.SENTINEL.ZERO_DATE_NOT_DATE\",\"NEG.SENTINEL.MARKER_NOT_BUSINESS_STATUS\",\"NEG.SENTINEL.UNDECLARED_NOT_INFERRED\"]}\n"@
}

pub struct SentinelView {
    pub manifest: Seq<char>,
    pub casefile: Seq<char>,
    pub hits: Seq<(Seq<char>, Seq<char>)>,
    pub findings: Seq<(Seq<char>, Seq<char>)>,
}

/// The declared markers that match one record, or the copybook's layout failure.
pub open spec fn sentinel_spec(cb: Copybook, record: Seq<u8>, p: SentinelProfile, enc: Encoding) -> Result<SentinelView, ShimErrorView> {
    match decode_record_spec(cb, record, enc) {
        Err(e) => Err(e),
        Ok(rv) => {
            let acc = scan_fold(p.fields@, rv.fields, p.fields@.len());
            let m = sentinel_manifest_json(record, acc);
            Ok(SentinelView { manifest: m, casefile: sentinel_casefile_json(m, acc.findings), hits: acc.hits, findings: acc.findings })
        },
    }
}


/// `h` names a declared field and one of that field's declared sentinel ids.
pub open spec fn declared_hit(fields: Seq<(&str, &[SentinelRule])>, h: (Seq<char>, Seq<char>)) -> bool {
    exists|i: int, j: int|
        0 <= i < fields.len() && 0 <= j < fields[i].1@.len() && #[trigger] fields[i].0@ == h.0 && #[trigger] fields[i].1@[j].sentinel_id@
            == h.1
}

proof fn lemma_rules_fold_hits(acc: ScanAcc, field: Seq<char>, rules: Seq<SentinelRule>, f: FieldView, n: nat)
    ensures
        ({
            let r = rules_fold(acc, field, rules, f, n);
            &&& r.hits.len() >= acc.hits.len()
            &&& forall|k: int| 0 <= k < acc.hits.len() ==> #[trigger] r.hits[k] == acc.hits[k]
            &&& forall|k: int|
                acc.hits.len() <= k < r.hits.len() ==> #[trigger] r.hits[k].0 == field && exists|j: int|
                    0 <= j < rules.len() && #[trigger] rules[j].sentinel_id@ == r.hits[k].1
        }),
    decreases n,
{
    if n > 0 && n <= rules.len() {
        lemma_rules_fold_hits(acc, field, rules, f, (n - 1) as nat);
        let a = rules_fold(acc, field, rules, f, (n - 1) as nat);
        let r = rules_fold(acc, field, rules, f, n);
        assert forall|k: int| acc.hits.len() <= k < r.hits.len() implies #[trigger] r.hits[k].0 == field && exists|j: int|
            0 <= j < rules.len() && #[trigger] rules[j].sentinel_id@ == r.hits[k].1 by {
            if k < a.hits.len() {
                assert(r.hits[k] == a.hits[k]);
            } else {
                assert(rules[n - 1].sentinel_id@ == r.hits[k].1);
            }
        }
    }
}

proof fn lemma_scan_fold_hits(fields: Seq<(&str, &[SentinelRule])>, fs: Seq<FieldView>, n: nat)
    ensures
        forall|k: int| 0 <= k < scan_fold(fields, fs, n).hits.len() ==> declared_hit(fields, #[trigger] scan_fold(fields, fs, n).hits[k]),
    decreases n,
{
    if n > 0 && n <= fields.len() {
        lemma_scan_fold_hits(fields, fs, (n - 1) as nat);
        let a = scan_fold(fields, fs, (n - 1) as nat);
        let (field, rules) = fields[n - 1];
        if let Some(f) = last_field(fs, field@) {
            lemma_rules_fold_hits(a, field@, rules@, f, rules@.len());
            let r = scan_fold(fields, fs, n);
            assert forall|k: int| 0 <= k < r.hits.len() implies declared_hit(fields, #[trigger] r.hits[k]) by {
                if k < a.hits.len() {
                    assert(r.hits[k] == a.hits[k]);
                } else {
                    let j = choose|j: int| 0 <= j < rules@.len() && #[trigger] rules@[j].sentinel_id@ == r.hits[k].1;
                    assert(fields[n - 1].0@ == r.hits[k].0 && fields[n - 1].1@[j].sentinel_id@ == r.hits[k].1);
                }
            }
        }
    }
}

/// A sentinel is never inferred: every hit names a field the profile declares and one of the
/// sentinel ids declared for that field; a field the profile does not list never produces a hit,
/// whatever its bytes look like.
pub proof fn lemma_hits_are_declared(cb: Copybook, record: Seq<u8>, p: SentinelProfile, enc: Encoding)
    ensures
        sentinel_spec(cb, record, p, enc) matches Ok(v) ==> forall|k: int|
            0 <= k < v.hits.len() ==> declared_hit(p.fields@, #[trigger] v.hits[k]),
{
    if let Ok(rv) = decode_record_spec(cb, record, enc) {
        lemma_scan_fold_hits(p.fields@, rv.fields, p.fields@.len());
    }
}

fn find_last(fields: &Vec<DecodedField>, name: &str) -> (r: Option<usize>)
    ensures
        match r {
            Some(i) => i < fields@.len() && last_field(fields_view(fields@), name@) == Some(fields_view(fields@)[i as int]),
            None => last_field(fields_view(fields@), name@) is None,
        },
{
    let ghost fv = fields_view(fields@);
    let mut i = fields.len();
    assert(fv.take(i as int) =~= fv);
    while i > 0
        invariant
            i <= fields@.len(),
            fv == fields_view(fields@),
            last_field(fv.take(i as int), name@) == last_field(fv, name@),
        decreases i,
    {
        assert(fv.take(i as int).drop_last() =~= fv.take(i - 1));
        assert(fv.take(i as int).last() == fv[i - 1]);
        if str_eq(fields[i - 1].name.as_str(), name) {
            return Some(i - 1);
        }
        i -= 1;
    }
    None
}

fn matches_rule(m: SentinelMatch, f: &DecodedField) -> (r: (bool, &'static str))
    ensures
        (r.0, r.1@) == rule_match(m, field_view(*f)),
{
    match m {
        SentinelMatch::DecodedValue(v) => (str_eq(f.value.as_str(), v), "decoded_value"),
        SentinelMatch::RawHex(h) => {
            let c = chars_of(f.raw_hex.as_str());
            (crate::copybook::word_is_ic(&c, h), "raw_hex")
        },
    }
}

fn apply_rules(
    field: &str,
    rules: &[SentinelRule],
    f: &DecodedField,
    hits: &mut Vec<(String, String)>,
    hits_json: &mut Vec<String>,
    findings: &Vec<(String, String)>,
)
    ensures
        rules_fold(
            ScanAcc { hits: pairs_view(old(hits)@), hits_json: strs_view(old(hits_json)@), findings: pairs_view(findings@) },
            field@,
            rules@,
            field_view(*f),
            rules@.len(),
        ) == (ScanAcc { hits: pairs_view(final(hits)@), hits_json: strs_view(final(hits_json)@), findings: pairs_view(findings@) }),
{
    let ghost start = ScanAcc { hits: pairs_view(hits@), hits_json: strs_view(hits_json@), findings: pairs_view(findings@) };
    let mut i: usize = 0;
    while i < rules.len()
        invariant
            i <= rules@.len(),
            rules_fold(start, field@, rules@, field_view(*f), i as nat) == (ScanAcc {
                hits: pairs_view(hits@),
                hits_json: strs_view(hits_json@),
                findings: pairs_view(findings@),
            }),
        decreases rules@.len() - i,
    {
        let r = &rules[i];
        let (m, on) = matches_rule(r.match_on, f);
        if m {
            let ghost hb = pairs_view(hits@);
            hits.push((String::from_str(field), String::from_str(r.sentinel_id)));
            assert(pairs_view(hits@) =~= hb.push((field@, r.sentinel_id@)));
            let mut e = String::new();
            push_lit(&mut e, "{\"field\":");
            push_js(&mut e, field);
            push_lit(&mut e, ",\"sentinel_id\":");
            push_js(&mut e, r.sentinel_id);
            push_lit(&mut e, ",\"matched_on\":");
            push_js(&mut e, on);
            push_lit(&mut e, ",\"decoded_value\":");
            push_js(&mut e, f.value.as_str());
            push_lit(&mut e, ",\"raw_hex\":");
            push_js(&mut e, f.raw_hex.as_str());
            push_lit(&mut e, ",\"meaning_label\":\"declared_marker_only\",\"business_meaning_claimed\":false}");
            assert(e@ =~= hit_json(field@, r.sentinel_id@, on@, field_view(*f)));
            proof {
                lemma_strs_push(hits_json@, e);
            }
            hits_json.push(e);
        }
        i += 1;
    }
}

/// The `{ruleId, message}` entries of the findings.
pub fn finding_list(findings: &Vec<(String, String)>) -> (fl: Vec<String>)
    ensures
        strs_view(fl@) == finding_entries(pairs_view(findings@)),
{
    let mut fl: Vec<String> = Vec::new();
    let mut j: usize = 0;
    let ghost fe = finding_entries(pairs_view(findings@));
    while j < findings.len()
        invariant
            j <= findings@.len(),
            fe == finding_entries(pairs_view(findings@)),
            strs_view(fl@) == fe.take(j as int),
        decreases findings@.len() - j,
    {
        let mut e = String::new();
        push_lit(&mut e, "{\"ruleId\":");
        push_js(&mut e, findings[j].0.as_str());
        push_lit(&mut e, ",\"message\":");
        push_js(&mut e, findings[j].1.as_str());
        push_lit(&mut e, "}");
        proof {
            lemma_strs_push(fl@, e);
        }
        fl.push(e);
        assert(fe.take(j + 1) =~= fe.take(j as int).push(e@));
        j += 1;
    }
    assert(fe.take(j as int) =~= fe);
    fl
}

/// Record which declared sentinel markers match one record, as evidence only.
#[verifier::rlimit(40)]
pub fn sentinel_scan(cb: &Copybook, record: &[u8], profile: &SentinelProfile, encoding: Encoding) -> (r: Result<
    SentinelManifest,
    ShimError,
>)
    ensures
        match r {
            Ok(m) => sentinel_spec(*cb, record@, *profile, encoding) == Ok::<SentinelView, ShimErrorView>(
                SentinelView {
                    manifest: m.manifest_json@,
                    casefile: m.casefile_json@,
                    hits: pairs_view(m.hits@),
                    findings: pairs_view(m.findings@),
                },
            ),
            Err(e) => sentinel_spec(*cb, record@, *profile, encoding) == Err::<SentinelView, ShimErrorView>(shim_error_view(e)),
        },
{
    let decoded = decode_record_encoded(cb, record, encoding)?;
    let ghost fs = record_view(decoded).fields;
    let mut hits: Vec<(String, String)> = Vec::new();
    let mut hits_json: Vec<String> = Vec::new();
    let mut findings: Vec<(String, String)> = Vec::new();
    assert(pairs_view(hits@) =~= seq![]);
    assert(strs_view(hits_json@) =~= seq![]);
    assert(pairs_view(findings@) =~= seq![]);
    let mut i: usize = 0;
    while i < profile.fields.len()
        invariant
            i <= profile.fields@.len(),
            fs == fields_view(decoded.fields@),
            scan_fold(profile.fields@, fs, i as nat) == (ScanAcc {
                hits: pairs_view(hits@),
                hits_json: strs_view(hits_json@),
                findings: pairs_view(findings@),
            }),
        decreases profile.fields@.len() - i,
    {
        let (field, rules) = profile.fields[i];
        match find_last(&decoded.fields, field) {
            None => {
                let mut m = String::from_str("declared sentinel field ");
                let d = debug_str(field);
                m.append(d.as_str());
                push_lit(&mut m, " not found in the record");
                let ghost fb = pairs_view(findings@);
                findings.push((String::from_str("KOBOLD-SENTINEL-NO-FIELD"), m));
                assert(pairs_view(findings@) =~= fb.push(("KOBOLD-SENTINEL-NO-FIELD"@, no_field_msg(field@))));
            },
            Some(k) => {
                apply_rules(field, rules, &decoded.fields[k], &mut hits, &mut hits_json, &findings);
            },
        }
        i += 1;
    }
    let mut m = String::new();
    push_lit(&mut m, "{\"schema\":\"kobold-sentinel-manifest-v1\",\"court\":\"KOBOLD.SENTINEL.PROFILE.1\",\"record_sha256\":");
    let h = sha256_hex(record);
    push_js(&mut m, h.as_str());
    push_lit(&mut m, ",\"hit_count\":");
    push_usize(&mut m, hits.len());
    push_lit(&mut m, ",\"hits\":[");
    push_joined(&mut m, &hits_json);
    push_lit(&mut m, "],\"undeclared_inference\":false}");
    let ghost acc = scan_fold(profile.fields@, fs, profile.fields@.len());
    assert(m@ =~= sentinel_manifest_json(record@, acc));
    let fl = finding_list(&findings);
    let mut c = String::new();
    push_lit(&mut c, "{\"schema\":\"kobold-sentinel-forensic-casefile-v1\",\"court\":\"KOBOLD.SENTINEL.PROFILE.1\",\"manifest\":");
    c.append(m.as_str());
    push_lit(&mut c, ",\"findings\":[");
    push_joined(&mut c, &fl);
    push_lit(
        &mut c,
        "],\"truth_layers\":{\"declared_marker_evidence\":true,\"nullness\":false,\"date_meaning\":false,\"missingness\":false,\"business_status\":false,\"account_state\":false,\"default_meaning\":false},\"negative_capabilities\":[\"NEG.SENTINEL.LOW_VALUES_NOT_NULL\",\"NEG.SENTINEL.HIGH_VALUES_NOT_MAX_DATE\",\"NEG.SENTINEL.SPACES_NOT_MISSING\",\"NEG.SENTINEL.ZEROES_NOT_ABSENT\",\"NEG.SENTINEL.ZERO_DATE_NOT_DATE\",\"NEG.SENTINEL.MARKER_NOT_BUSINESS_STATUS\",\"NEG.SENTINEL.UNDECLARED_NOT_INFERRED\"]}\n",
    );
    assert(c@ =~= sentinel_casefile_json(m@, pairs_view(findings@)));
    Ok(SentinelManifest { manifest_json: m, casefile_json: c, hits, findings })
}

/// The hit of one rule on a field's decoded value, if it matches.
pub open spec fn rule_hit(field: Seq<char>, f: FieldView, r: SentinelRule) -> Option<(Seq<char>, Seq<char>)> {
    if rule_match(r.match_on, f).0 {
        Some((field, r.sentinel_id@))
    } else {
        None
    }
}

/// The hits of one declared field: none when the field is not in the record, else those of its
/// rules that match, in rule order.
pub open spec fn field_hits(fs: Seq<FieldView>, field: Seq<char>, rules: Seq<SentinelRule>) -> Seq<(Seq<char>, Seq<char>)> {
    match last_field(fs, field) {
        None => seq![],
        Some(f) => rules.filter_map(|r: SentinelRule| rule_hit(field, f, r)),
    }
}

/// The hits of the first `n` declared fields, field after field in profile order.
pub open spec fn profile_hits(fields: Seq<(&str, &[SentinelRule])>, fs: Seq<FieldView>, n: nat) -> Seq<(Seq<char>, Seq<char>)>
    decreases n,
{
    if n == 0 || n > fields.len() {
        seq![]
    } else {
        profile_hits(fields, fs, (n - 1) as nat) + field_hits(fs, fields[n - 1].0@, fields[n - 1].1@)
    }
}

proof fn lemma_rules_fold_closed(acc: ScanAcc, field: Seq<char>, rules: Seq<SentinelRule>, f: FieldView, n: nat)
    requires
        n <= rules.len(),
    ensures
        rules_fold(acc, field, rules, f, n).hits == acc.hits + rules.take(n as int).filter_map(
            |r: SentinelRule| rule_hit(field, f, r),
        ),
    decreases n,
{
    let g = |r: SentinelRule| rule_hit(field, f, r);
    if n == 0 {
        assert(rules.take(0) =~= Seq::<SentinelRule>::empty());
        assert(acc.hits + Seq::<(Seq<char>, Seq<char>)>::empty() =~= acc.hits);
    } else {
        lemma_rules_fold_closed(acc, field, rules, f, (n - 1) as nat);
        let t = rules.take(n as int);
        assert(t.drop_last() =~= rules.take(n - 1));
        assert(t.last() == rules[n - 1]);
        let pe = rules.take(n - 1).filter_map(g);
        match g(t.last()) {
            Some(x) => {
                assert(acc.hits + (pe + seq![x]) =~= (acc.hits + pe).push(x));
            },
            None => {},
        }
    }
}

proof fn lemma_scan_fold_closed(fields: Seq<(&str, &[SentinelRule])>, fs: Seq<FieldView>, n: nat)
    requires
        n <= fields.len(),
    ensures
        scan_fold(fields, fs, n).hits == profile_hits(fields, fs, n),
    decreases n,
{
    if n > 0 {
        lemma_scan_fold_closed(fields, fs, (n - 1) as nat);
        let a = scan_fold(fields, fs, (n - 1) as nat);
        let (field, rules) = fields[n - 1];
        match last_field(fs, field@) {
            None => {
                assert(a.hits + Seq::<(Seq<char>, Seq<char>)>::empty() =~= a.hits);
            },
            Some(f) => {
                lemma_rules_fold_closed(a, field@, rules@, f, rules@.len());
                assert(rules@.take(rules@.len() as int) =~= rules@);
            },
        }
    }
}

/// The hits come in profile order: field after field as the profile declares them, and within a
/// field its matching rules in declaration order; a declared field missing from the record has
/// none.
pub proof fn lemma_hits_follow_profile_order(cb: Copybook, record: Seq<u8>, p: SentinelProfile, enc: Encoding)
    ensures
        sentinel_spec(cb, record, p, enc) matches Ok(v) ==> v.hits == profile_hits(
            p.fields@,
            decode_record_spec(cb, record, enc)->Ok_0.fields,
            p.fields@.len(),
        ),
{
    if let Ok(rv) = decode_record_spec(cb, record, enc) {
        lemma_scan_fold_closed(p.fields@, rv.fields, p.fields@.len());
    }
}

} // verus!
