//! Declared Db2 host-variable null/truncation indicator manifest.
//!
//! A field can decode perfectly and still be semantically NULL at the database boundary. A
//! decoded value is marked null or truncation evidence only when a declared indicator field is
//! paired with it; the decoded bytes are always preserved. The host-variable convention is
//! admitted, not executed: a negative indicator means null, zero means present, positive means
//! truncation evidence. SQL execution, SQLCA interpretation and database truth remain non-claims.
use crate::banking::{finding_entries, findings_list, pairs_view};
use crate::batch_control::first_field;
use crate::cobol::COB_TYPE_NUMERIC_BINARY;
use crate::copybook::{all_digits, digits_value, parse_unsigned, trim_ws, trimmed_chars};
use crate::decode::{
    decode_fields, fields_spec, fields_view, lookup_attr, parse_program, program_spec, program_view, shim_error_view,
    Copybook, DecodedField, Encoding, FieldView, Program, ProgramView, ShimError, ShimErrorView, attrs_view,
};
use crate::text::{
    bool_text, debug_str, dec_int, join_comma, js, lemma_strs_push, push_bool, push_i64, push_joined, push_js, push_lit,
    spec_debug_str, str_eq, strs_view, dec_nat, digit_char,
};
use vstd::prelude::*;

verus! {

/// A declared value/indicator pairing.
pub struct IndicatorPair<'a> {
    pub value_field: &'a str,
    pub indicator_field: &'a str,
}

/// The declared indicator manifest. A field with no declared pair gets no null-state claim; a
/// declared indicator that is absent or of the wrong usage fails closed.
pub struct IndicatorManifest<'a> {
    pub pairs: &'a [IndicatorPair<'a>],
}

/// The declared null/truncation state for one value/indicator pair.
pub struct NullState {
    pub value_field: String,
    pub indicator_field: String,
    pub indicator_raw: Option<i64>,
    pub semantic_null: bool,
    pub truncation_evidence: bool,
    pub present: bool,
    pub decoded_bytes_preserved: bool,
}

/// The result of applying an indicator manifest to one record.
pub struct Db2HostResult {
    pub states: Vec<NullState>,
    pub findings: Vec<(String, String)>,
    pub audit_json: String,
    pub casefile_json: String,
}

// ----------------------------------------------------------------------------------------------
// The indicator model
// ----------------------------------------------------------------------------------------------

/// A signed integer: an optional `+` or `-` and at least one digit, within the `i64` range.
pub open spec fn parse_i64_spec(t: Seq<char>) -> Option<int> {
    if t.len() > 0 && t[0] == '-' {
        let body = t.drop_first();
        if body.len() > 0 && all_digits(body) && digits_value(body) <= 0x8000_0000_0000_0000 {
            Some(-(digits_value(body) as int))
        } else {
            None
        }
    } else {
        match parse_unsigned(t, i64::MAX as nat) {
            Some(n) => Some(n as int),
            None => None,
        }
    }
}

pub struct StateView {
    pub value_field: Seq<char>,
    pub indicator_field: Seq<char>,
    pub raw: Option<int>,
    pub semantic_null: bool,
    pub truncation_evidence: bool,
    pub present: bool,
}

/// The state an indicator value assigns: negative is null, zero is present, positive is
/// truncation evidence; an unparsable indicator asserts none of them.
pub open spec fn state_of(vf: Seq<char>, inf: Seq<char>, raw: Option<int>) -> StateView {
    StateView {
        value_field: vf,
        indicator_field: inf,
        raw,
        semantic_null: raw matches Some(n) && n < 0,
        truncation_evidence: raw matches Some(n) && n > 0,
        present: raw == Some(0int),
    }
}

/// An indicator asserts at most one state, and exactly one when it parses.
pub proof fn lemma_indicator_states_exclusive(vf: Seq<char>, inf: Seq<char>, raw: Option<int>)
    ensures
        ({
            let s = state_of(vf, inf, raw);
            let n = (if s.semantic_null { 1int } else { 0 }) + (if s.truncation_evidence { 1int } else { 0 }) + (if s.present {
                1int
            } else {
                0
            });
            &&& raw is Some ==> n == 1
            &&& raw is None ==> n == 0
        }),
{
}

pub struct Db2Acc {
    pub states: Seq<StateView>,
    pub findings: Seq<(Seq<char>, Seq<char>)>,
}

pub open spec fn missing_value_msg(vf: Seq<char>) -> Seq<char> {
    "declared value field "@ + spec_debug_str(vf) + " not in copybook (fail closed)"@
}

pub open spec fn missing_indicator_msg(inf: Seq<char>) -> Seq<char> {
    "declared indicator "@ + spec_debug_str(inf) + " not in copybook (fail closed)"@
}

pub open spec fn wrong_usage_msg(inf: Seq<char>) -> Seq<char> {
    "indicator "@ + spec_debug_str(inf) + " is not a binary (S9(4) COMP-5) host variable (fail closed)"@
}

pub open spec fn dirty_indicator_msg(inf: Seq<char>) -> Seq<char> {
    "indicator "@ + spec_debug_str(inf) + " not a clean integer (fail closed)"@
}

/// One declared pair's effect: a missing value field, a missing indicator or an indicator that is
/// not binary is a finding and no state; otherwise the indicator's state (plus a finding when it
/// does not parse).
pub open spec fn pair_step(acc: Db2Acc, p: ProgramView, fs: Seq<FieldView>, vf: Seq<char>, inf: Seq<char>) -> Db2Acc {
    if first_field(fs, vf) is None {
        Db2Acc { findings: acc.findings.push(("KOBOLD-DB2-MISSING-VALUE-FIELD"@, missing_value_msg(vf))), ..acc }
    } else if first_field(fs, inf) is None {
        Db2Acc { findings: acc.findings.push(("KOBOLD-DB2-MISSING-INDICATOR"@, missing_indicator_msg(inf))), ..acc }
    } else if !(lookup_attr(p.attrs, inf) matches Some((a, _)) && a.field_type == COB_TYPE_NUMERIC_BINARY) {
        Db2Acc { findings: acc.findings.push(("KOBOLD-DB2-WRONG-INDICATOR-USAGE"@, wrong_usage_msg(inf))), ..acc }
    } else {
        let raw = parse_i64_spec(trim_ws(first_field(fs, inf)->0.value));
        Db2Acc {
            states: acc.states.push(state_of(vf, inf, raw)),
            findings: if raw is None {
                acc.findings.push(("KOBOLD-DB2-DIRTY-INDICATOR"@, dirty_indicator_msg(inf)))
            } else {
                acc.findings
            },
        }
    }
}

pub open spec fn db2_fold(pairs: Seq<IndicatorPair>, p: ProgramView, fs: Seq<FieldView>, n: nat) -> Db2Acc
    decreases n,
{
    if n == 0 || n > pairs.len() {
        Db2Acc { states: seq![], findings: seq![] }
    } else {
        pair_step(db2_fold(pairs, p, fs, (n - 1) as nat), p, fs, pairs[n - 1].value_field@, pairs[n - 1].indicator_field@)
    }
}


proof fn lemma_db2_fold_states(pairs: Seq<IndicatorPair>, p: ProgramView, fs: Seq<FieldView>, n: nat)
    ensures
        forall|k: int|
            0 <= k < db2_fold(pairs, p, fs, n).states.len() ==> exists|i: int|
                0 <= i < pairs.len() && #[trigger] pairs[i].value_field@ == #[trigger] db2_fold(pairs, p, fs, n).states[k].value_field
                    && pairs[i].indicator_field@ == db2_fold(pairs, p, fs, n).states[k].indicator_field,
    decreases n,
{
    if n > 0 && n <= pairs.len() {
        lemma_db2_fold_states(pairs, p, fs, (n - 1) as nat);
        let a = db2_fold(pairs, p, fs, (n - 1) as nat);
        let r = db2_fold(pairs, p, fs, n);
        assert forall|k: int| 0 <= k < r.states.len() implies exists|i: int|
            0 <= i < pairs.len() && #[trigger] pairs[i].value_field@ == #[trigger] r.states[k].value_field
                && pairs[i].indicator_field@ == r.states[k].indicator_field by {
            if k < a.states.len() {
                assert(r.states[k] == a.states[k]);
            } else {
                assert(pairs[n - 1].value_field@ == r.states[k].value_field);
            }
        }
    }
}

/// A field with no declared indicator gets no null-state claim: every state names a value field
/// and its indicator exactly as a declared pair does.
pub proof fn lemma_states_only_for_declared_pairs(cb: Copybook, record: Seq<u8>, m: IndicatorManifest, enc: Encoding)
    ensures
        db2host_spec(cb, record, m, enc) matches Ok(v) ==> forall|k: int|
            0 <= k < v.states.len() ==> exists|i: int|
                0 <= i < m.pairs@.len() && #[trigger] m.pairs@[i].value_field@ == #[trigger] v.states[k].value_field
                    && m.pairs@[i].indicator_field@ == v.states[k].indicator_field,
{
    if let Ok(p) = program_spec(cb) {
        lemma_db2_fold_states(m.pairs@, p, fields_spec(p, record, enc), m.pairs@.len());
    }
}

pub open spec fn raw_text(raw: Option<int>) -> Seq<char> {
    match raw {
        Some(n) => dec_int(n),
        None => "null"@,
    }
}

pub open spec fn raw_hex_of(fs: Seq<FieldView>, name: Seq<char>) -> Seq<char> {
    match first_field(fs, name) {
        Some(f) => f.raw_hex,
        None => seq![],
    }
}

pub open spec fn state_block(s: StateView, fs: Seq<FieldView>) -> Seq<char> {
    js(s.value_field) + ":{\"value_field\":"@ + js(s.value_field) + ",\"indicator_field\":"@ + js(s.indicator_field)
        + ",\"indicator_raw_value\":"@ + raw_text(s.raw) + ",\"semantic_null\":"@ + bool_text(s.semantic_null)
        + ",\"truncation_evidence\":"@ + bool_text(s.truncation_evidence) + ",\"present\":"@ + bool_text(s.present)
        + ",\"decoded_bytes_preserved\":true,\"raw_hex\":"@ + js(raw_hex_of(fs, s.value_field))
        + ",\"claim\":\"KOBOLD.DB2HOST.1\"}"@
}

pub open spec fn blocks_text(states: Seq<StateView>, fs: Seq<FieldView>) -> Seq<char> {
    join_comma(states.map_values(|s: StateView| state_block(s, fs)))
}

pub open spec fn db2_casefile(blocks: Seq<char>, findings: Seq<(Seq<char>, Seq<char>)>) -> Seq<char> {
    "{\"schema\":\"kobold-db2host-forensic-casefile-v1\",\"court\":\"KOBOLD.DB2HOST.1\",\"byte_truth\":{\"proven\":true},\"record_truth\":{\"proven\":true},\"database_truth\":{\"claimed\":false,\"semantic_null_via\":\"declared indicator manifest only\"},\"db2_host\":{"@
        + blocks
        + "},\"negative_capabilities\":[\"NEG.DB2.NULL.INDICATOR\",\"NEG.DB2.HOST_VALUE_NOT_DATABASE_VALUE\",\"NEG.DB2.SQLCA_NOT_INTERPRETED\",\"NEG.SQL.PRECOMPILER\",\"NEG.DB2.PACKAGE_NOT_CLAIMED\",\"NEG.DB2.DATABASE_TRUTH_NOT_CLAIMED\"],\"findings\":["@
        + join_comma(finding_entries(findings)) + "]}\n"@
}

pub struct Db2View {
    pub states: Seq<StateView>,
    pub findings: Seq<(Seq<char>, Seq<char>)>,
    pub audit: Seq<char>,
    pub casefile: Seq<char>,
}

/// The indicator states, findings, audit block and casefile of one record, or the copybook's
/// layout failure.
pub open spec fn db2host_spec(cb: Copybook, record: Seq<u8>, m: IndicatorManifest, enc: Encoding) -> Result<Db2View, ShimErrorView> {
    match program_spec(cb) {
        Err(e) => Err(e),
        Ok(p) => {
            let fs = fields_spec(p, record, enc);
            let acc = db2_fold(m.pairs@, p, fs, m.pairs@.len());
            let blocks = blocks_text(acc.states, fs);
            Ok(Db2View {
                states: acc.states,
                findings: acc.findings,
                audit: "{\"db2_host\":{"@ + blocks + "}}"@,
                casefile: db2_casefile(blocks, acc.findings),
            })
        },
    }
}

pub open spec fn null_state_view(s: NullState) -> StateView {
    StateView {
        value_field: s.value_field@,
        indicator_field: s.indicator_field@,
        raw: match s.indicator_raw {
            Some(n) => Some(n as int),
            None => None,
        },
        semantic_null: s.semantic_null,
        truncation_evidence: s.truncation_evidence,
        present: s.present,
    }
}

pub open spec fn states_view(v: Seq<NullState>) -> Seq<StateView> {
    v.map_values(|s: NullState| null_state_view(s))
}

// ----------------------------------------------------------------------------------------------
// Evaluation
// ----------------------------------------------------------------------------------------------

fn find_field(fields: &Vec<DecodedField>, name: &str) -> (r: Option<usize>)
    ensures
        match r {
            Some(i) => i < fields@.len() && first_field(fields_view(fields@), name@) == Some(fields_view(fields@)[i as int]),
            None => first_field(fields_view(fields@), name@) is None,
        },
{
    let ghost fv = fields_view(fields@);
    let mut i: usize = 0;
    assert(fv.skip(0) =~= fv);
    while i < fields.len()
        invariant
            i <= fields@.len(),
            fv == fields_view(fields@),
            first_field(fv.skip(i as int), name@) == first_field(fv, name@),
        decreases fields@.len() - i,
    {
        assert(fv.skip(i as int).drop_first() =~= fv.skip(i + 1));
        assert(fv.skip(i as int)[0] == fv[i as int]);
        if str_eq(fields[i].name.as_str(), name) {
            return Some(i);
        }
        i += 1;
    }
    assert(fv.skip(i as int).len() == 0);
    None
}

fn parse_i64(s: &String) -> (r: Option<i64>)
    ensures
        match parse_i64_spec(trim_ws(s@)) {
            Some(n) => r matches Some(x) && x as int == n,
            None => r is None,
        },
{
    let t = trimmed_chars(s.as_str());
    if t.len() > 0 && t[0] == '-' {
        if t.len() == 1 {
            return None;
        }
        let ghost body = t@.drop_first();
        assert(body =~= t@.subrange(1, t@.len() as int));
        match crate::banking::digits_u64(&t, 1, t.len()) {
            Some(v) => {
                if v <= 0x8000_0000_0000_0000u64 {
                    if v == 0x8000_0000_0000_0000u64 {
                        Some(i64::MIN)
                    } else {
                        Some(-(v as i64))
                    }
                } else {
                    None
                }
            },
            None => None,
        }
    } else {
        match crate::banking::parse_count(s) {
            Some(v) => {
                if v <= 0x7fff_ffff_ffff_ffffu64 {
                    Some(v as i64)
                } else {
                    proof {
                        assert(parse_unsigned(trim_ws(s@), u64::MAX as nat) == Some(v as nat));
                    }
                    None
                }
            },
            None => None,
        }
    }
}

fn find_attr_type(prog: &Program, name: &str) -> (r: Option<u16>)
    ensures
        match lookup_attr(attrs_view(prog.attrs@), name@) {
            Some((a, _)) => r == Some(a.field_type),
            None => r is None,
        },
{
    let ghost av = attrs_view(prog.attrs@);
    let mut i = prog.attrs.len();
    assert(av.take(i as int) =~= av);
    while i > 0
        invariant
            i <= prog.attrs@.len(),
            av == attrs_view(prog.attrs@),
            lookup_attr(av.take(i as int), name@) == lookup_attr(av, name@),
        decreases i,
    {
        assert(av.take(i as int).drop_last() =~= av.take(i - 1));
        if str_eq(prog.attrs[i - 1].0.as_str(), name) {
            return Some(prog.attrs[i - 1].1.field_type);
        }
        i -= 1;
    }
    None
}

fn push_pair_finding(findings: &mut Vec<(String, String)>, rule: &str, msg: String)
    ensures
        pairs_view(final(findings)@) == pairs_view(old(findings)@).push((rule@, msg@)),
{
    let ghost b = pairs_view(findings@);
    findings.push((String::from_str(rule), msg));
    assert(pairs_view(findings@) =~= b.push((rule@, msg@)));
}

fn quoted_msg(pre: &str, name: &str, post: &str) -> (m: String)
    ensures
        m@ == pre@ + spec_debug_str(name@) + post@,
{
    let mut m = String::from_str(pre);
    let d = debug_str(name);
    m.append(d.as_str());
    push_lit(&mut m, post);
    m
}

#[verifier::rlimit(40)]
fn eval_pair(prog: &Program, fields: &Vec<DecodedField>, pair: &IndicatorPair, states: &mut Vec<NullState>, findings: &mut Vec<(String, String)>)
    requires
        forall|k: int| 0 <= k < old(states)@.len() ==> #[trigger] old(states)@[k].decoded_bytes_preserved,
    ensures
        forall|k: int| 0 <= k < final(states)@.len() ==> #[trigger] final(states)@[k].decoded_bytes_preserved,
        pair_step(
            Db2Acc { states: states_view(old(states)@), findings: pairs_view(old(findings)@) },
            program_view(*prog),
            fields_view(fields@),
            pair.value_field@,
            pair.indicator_field@,
        ) == (Db2Acc { states: states_view(final(states)@), findings: pairs_view(final(findings)@) }),
{
    let ghost fs = fields_view(fields@);
    if find_field(fields, pair.value_field).is_none() {
        let m = quoted_msg("declared value field ", pair.value_field, " not in copybook (fail closed)");
        push_pair_finding(findings, "KOBOLD-DB2-MISSING-VALUE-FIELD", m);
        return;
    }
    let k = match find_field(fields, pair.indicator_field) {
        Some(k) => k,
        None => {
            let m = quoted_msg("declared indicator ", pair.indicator_field, " not in copybook (fail closed)");
            push_pair_finding(findings, "KOBOLD-DB2-MISSING-INDICATOR", m);
            return;
        },
    };
    let ty = find_attr_type(prog, pair.indicator_field);
    if ty != Some(COB_TYPE_NUMERIC_BINARY) {
        let m = quoted_msg("indicator ", pair.indicator_field, " is not a binary (S9(4) COMP-5) host variable (fail closed)");
        push_pair_finding(findings, "KOBOLD-DB2-WRONG-INDICATOR-USAGE", m);
        return;
    }
    let raw = parse_i64(&fields[k].value);
    let (semantic_null, truncation_evidence, present) = match raw {
        Some(n) => (n < 0, n > 0, n == 0),
        None => (false, false, false),
    };
    if raw.is_none() {
        let m = quoted_msg("indicator ", pair.indicator_field, " not a clean integer (fail closed)");
        push_pair_finding(findings, "KOBOLD-DB2-DIRTY-INDICATOR", m);
    }
    let st = NullState {
        value_field: String::from_str(pair.value_field),
        indicator_field: String::from_str(pair.indicator_field),
        indicator_raw: raw,
        semantic_null,
        truncation_evidence,
        present,
        decoded_bytes_preserved: true,
    };
    let ghost before = states_view(states@);
    states.push(st);
    assert(states_view(states@) =~= before.push(null_state_view(st)));
}

fn block_exec(s: &NullState, fields: &Vec<DecodedField>) -> (b: String)
    requires
        s.decoded_bytes_preserved,
    ensures
        b@ == state_block(null_state_view(*s), fields_view(fields@)),
{
    let mut b = String::new();
    push_js(&mut b, s.value_field.as_str());
    push_lit(&mut b, ":{\"value_field\":");
    push_js(&mut b, s.value_field.as_str());
    push_lit(&mut b, ",\"indicator_field\":");
    push_js(&mut b, s.indicator_field.as_str());
    push_lit(&mut b, ",\"indicator_raw_value\":");
    match s.indicator_raw {
        Some(n) => push_i64(&mut b, n),
        None => push_lit(&mut b, "null"),
    }
    push_lit(&mut b, ",\"semantic_null\":");
    push_bool(&mut b, s.semantic_null);
    push_lit(&mut b, ",\"truncation_evidence\":");
    push_bool(&mut b, s.truncation_evidence);
    push_lit(&mut b, ",\"present\":");
    push_bool(&mut b, s.present);
    push_lit(&mut b, ",\"decoded_bytes_preserved\":true,\"raw_hex\":");
    match find_field(fields, s.value_field.as_str()) {
        Some(k) => push_js(&mut b, fields[k].raw_hex.as_str()),
        None => push_js(&mut b, ""),
    }
    proof {
        reveal_strlit("");
    }
    push_lit(&mut b, ",\"claim\":\"KOBOLD.DB2HOST.1\"}");
    assert(b@ =~= state_block(null_state_view(*s), fields_view(fields@)));
    b
}

/// Apply a declared indicator manifest to one record: decoded bytes are preserved; null and
/// truncation state are assigned only through a declared indicator; a missing or wrong-usage
/// indicator fails closed.
#[verifier::rlimit(40)]
pub fn db2host_evaluate(cb: &Copybook, record: &[u8], manifest: &IndicatorManifest, encoding: Encoding) -> (r: Result<
    Db2HostResult,
    ShimError,
>)
    ensures
        match r {
            Ok(d) => db2host_spec(*cb, record@, *manifest, encoding) == Ok::<Db2View, ShimErrorView>(
                Db2View {
                    states: states_view(d.states@),
                    findings: pairs_view(d.findings@),
                    audit: d.audit_json@,
                    casefile: d.casefile_json@,
                },
            ) && forall|k: int| 0 <= k < d.states@.len() ==> #[trigger] d.states@[k].decoded_bytes_preserved,
            Err(e) => db2host_spec(*cb, record@, *manifest, encoding) == Err::<Db2View, ShimErrorView>(
                shim_error_view(e),
            ),
        },
{
    let prog = parse_program(cb)?;
    let fields = decode_fields(&prog, record, encoding);
    let ghost pv = program_view(prog);
    let ghost fs = fields_view(fields@);
    let mut states: Vec<NullState> = Vec::new();
    let mut findings: Vec<(String, String)> = Vec::new();
    let mut i: usize = 0;
    assert(states_view(states@) =~= seq![]);
    assert(pairs_view(findings@) =~= seq![]);
    while i < manifest.pairs.len()
        invariant
            i <= manifest.pairs@.len(),
            pv == program_view(prog),
            fs == fields_view(fields@),
            db2_fold(manifest.pairs@, pv, fs, i as nat) == (Db2Acc { states: states_view(states@), findings: pairs_view(findings@) }),
            forall|k: int| 0 <= k < states@.len() ==> #[trigger] states@[k].decoded_bytes_preserved,
        decreases manifest.pairs@.len() - i,
    {
        eval_pair(&prog, &fields, &manifest.pairs[i], &mut states, &mut findings);
        i += 1;
    }
    let mut blocks: Vec<String> = Vec::new();
    let mut j: usize = 0;
    while j < states.len()
        invariant
            j <= states@.len(),
            fs == fields_view(fields@),
            forall|k: int| 0 <= k < states@.len() ==> #[trigger] states@[k].decoded_bytes_preserved,
            strs_view(blocks@) == states_view(states@).map_values(|s: StateView| state_block(s, fs)).take(j as int),
        decreases states@.len() - j,
    {
        let b = block_exec(&states[j], &fields);
        proof {
            lemma_strs_push(blocks@, b);
        }
        blocks.push(b);
        assert(states_view(states@).map_values(|s: StateView| state_block(s, fs)).take(j + 1) =~= states_view(states@).map_values(
            |s: StateView| state_block(s, fs),
        ).take(j as int).push(b@));
        j += 1;
    }
    assert(states_view(states@).map_values(|s: StateView| state_block(s, fs)).take(j as int) =~= states_view(states@).map_values(
        |s: StateView| state_block(s, fs),
    ));
    let mut bt = String::new();
    push_joined(&mut bt, &blocks);
    assert(bt@ =~= blocks_text(states_view(states@), fs));
    let mut audit_json = String::from_str("{\"db2_host\":{");
    audit_json.append(bt.as_str());
    push_lit(&mut audit_json, "}}");
    let fl = findings_list(&findings);
    let mut casefile_json = String::new();
    push_lit(
        &mut casefile_json,
        "{\"schema\":\"kobold-db2host-forensic-casefile-v1\",\"court\":\"KOBOLD.DB2HOST.1\",\"byte_truth\":{\"proven\":true},\"record_truth\":{\"proven\":true},\"database_truth\":{\"claimed\":false,\"semantic_null_via\":\"declared indicator manifest only\"},\"db2_host\":{",
    );
    casefile_json.append(bt.as_str());
    push_lit(
        &mut casefile_json,
        "},\"negative_capabilities\":[\"NEG.DB2.NULL.INDICATOR\",\"NEG.DB2.HOST_VALUE_NOT_DATABASE_VALUE\",\"NEG.DB2.SQLCA_NOT_INTERPRETED\",\"NEG.SQL.PRECOMPILER\",\"NEG.DB2.PACKAGE_NOT_CLAIMED\",\"NEG.DB2.DATABASE_TRUTH_NOT_CLAIMED\"],\"findings\":[",
    );
    push_joined(&mut casefile_json, &fl);
    push_lit(&mut casefile_json, "]}\n");
    assert(casefile_json@ =~= db2_casefile(bt@, pairs_view(findings@)));
    Ok(Db2HostResult { states, findings, audit_json, casefile_json })
}

/// The state a declared pair gets: none when its value field or its indicator is missing or the
/// indicator is not binary; otherwise the state its indicator's trimmed value assigns.
pub open spec fn pair_state(p: ProgramView, fs: Seq<FieldView>, pr: IndicatorPair) -> Option<StateView> {
    let vf = pr.value_field@;
    let inf = pr.indicator_field@;
    if first_field(fs, vf) is Some && first_field(fs, inf) is Some && (lookup_attr(p.attrs, inf) matches Some((a, _))
        && a.field_type == COB_TYPE_NUMERIC_BINARY) {
        Some(state_of(vf, inf, parse_i64_spec(trim_ws(first_field(fs, inf)->0.value))))
    } else {
        None
    }
}

proof fn lemma_db2_fold_closed(pairs: Seq<IndicatorPair>, p: ProgramView, fs: Seq<FieldView>, n: nat)
    requires
        n <= pairs.len(),
    ensures
        db2_fold(pairs, p, fs, n).states == pairs.take(n as int).filter_map(|pr: IndicatorPair| pair_state(p, fs, pr)),
    decreases n,
{
    let f = |pr: IndicatorPair| pair_state(p, fs, pr);
    if n == 0 {
        assert(pairs.take(0) =~= Seq::<IndicatorPair>::empty());
    } else {
        lemma_db2_fold_closed(pairs, p, fs, (n - 1) as nat);
        let t = pairs.take(n as int);
        assert(t.drop_last() =~= pairs.take(n - 1));
        assert(t.last() == pairs[n - 1]);
        let prev = pairs.take(n - 1).filter_map(f);
        assert(t.filter_map(f) == match f(t.last()) {
            Some(x) => prev + seq![x],
            None => prev,
        });
        match f(t.last()) {
            Some(x) => {
                assert(prev + seq![x] =~= prev.push(x));
            },
            None => {},
        }
    }
}

/// The states are exactly those of the declared pairs whose value field and binary indicator are
/// both in the record, in declaration order; each says null for a negative indicator, present for
/// zero and truncation evidence for a positive one, and carries the indicator's value.
pub proof fn lemma_states_follow_indicators(cb: Copybook, record: Seq<u8>, m: IndicatorManifest, enc: Encoding)
    ensures
        db2host_spec(cb, record, m, enc) matches Ok(v) ==> {
            let p = program_spec(cb)->Ok_0;
            let fs = fields_spec(p, record, enc);
            v.states == m.pairs@.filter_map(|pr: IndicatorPair| pair_state(p, fs, pr))
        },
{
    if let Ok(p) = program_spec(cb) {
        let fs = fields_spec(p, record, enc);
        lemma_db2_fold_closed(m.pairs@, p, fs, m.pairs@.len());
        assert(m.pairs@.take(m.pairs@.len() as int) =~= m.pairs@);
    }
}

proof fn lemma_dec_nat_digits(m: nat)
    ensures
        dec_nat(m).len() > 0,
        all_digits(dec_nat(m)),
        digits_value(dec_nat(m)) == m,
    decreases m,
{
    let c = digit_char(m % 10);
    assert(c as u32 == (m % 10 + 0x30) as u32);
    assert(((c as u32) - 0x30) as nat == m % 10);
    assert(m == (m / 10) * 10 + m % 10) by (nonlinear_arith);
    if m >= 10 {
        lemma_dec_nat_digits(m / 10);
        let t = dec_nat(m / 10).push(c);
        assert(t.drop_last() =~= dec_nat(m / 10));
        assert(dec_nat(m) == t);
        assert(t.last() == c);
        assert(digits_value(t) == digits_value(t.drop_last()) * 10 + ((t.last() as u32) - 0x30) as nat);
        assert forall|i: int| 0 <= i < t.len() implies '0' <= #[trigger] t[i] && t[i] <= '9' by {
            if i < t.len() - 1 {
                assert(t[i] == dec_nat(m / 10)[i]);
            }
        }
    } else {
        assert(seq![c].drop_last() =~= Seq::<char>::empty());
        assert(dec_nat(m) == seq![c]);
        assert(digits_value(seq![c]) == digits_value(seq![c].drop_last()) * 10 + ((c as u32) - 0x30) as nat);
        assert(m % 10 == m);
    }
}

/// Every integer in the 64-bit range reads back from its decimal text: the indicator `n` is
/// parsed as `n`, so a positive indicator is truncation evidence, zero is present and a negative
/// one is null, whatever its magnitude.
pub proof fn lemma_indicator_text_reads_back(n: int)
    requires
        i64::MIN <= n <= i64::MAX,
    ensures
        parse_i64_spec(dec_int(n)) == Some(n),
        state_of(seq![], seq![], parse_i64_spec(dec_int(n))).semantic_null == (n < 0),
        state_of(seq![], seq![], parse_i64_spec(dec_int(n))).present == (n == 0),
        state_of(seq![], seq![], parse_i64_spec(dec_int(n))).truncation_evidence == (n > 0),
{
    if n < 0 {
        let m = (-n) as nat;
        lemma_dec_nat_digits(m);
        let t = dec_int(n);
        assert(t.drop_first() =~= dec_nat(m));
    } else {
        let m = n as nat;
        lemma_dec_nat_digits(m);
        assert('0' <= dec_nat(m)[0] && dec_nat(m)[0] <= '9');
        assert(dec_nat(m)[0] != '-' && dec_nat(m)[0] != '+');
    }
}

/// Only a decimal integer in the 64-bit range reads as an indicator: an optional `-` or `+` and
/// at least one digit, read as the number they write, nothing else.
pub proof fn lemma_only_integers_read(t: Seq<char>)
    ensures
        parse_i64_spec(t) matches Some(n) ==> {
            &&& i64::MIN <= n <= i64::MAX
            &&& t.len() > 0
            &&& if t[0] == '-' || t[0] == '+' {
                &&& t.len() > 1
                &&& all_digits(t.drop_first())
                &&& n == if t[0] == '-' { -(digits_value(t.drop_first()) as int) } else { digits_value(t.drop_first()) as int }
            } else {
                all_digits(t) && n == digits_value(t) as int
            }
        },
{
    if t.len() > 0 && t[0] == '+' {
        assert(t[0] != '-');
    }
}

} // verus!
