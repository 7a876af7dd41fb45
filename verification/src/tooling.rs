//! A generated evidence export for downstream tools (IDE, auditor UI, migration dashboard).
//!
//! It maps decoded fields to copybook provenance, byte ranges, court identities, redaction status
//! and non-claims, assembled from the existing decode and provenance only: it introduces no new
//! evidence and is not a language server, an IDE, a parser or a source of truth.
use crate::date_profile::{all_lower_hex, lemma_fields_raw_hex, unhex, unhex_spec};
use crate::decode::{
    decode_fields, field_view, fields_spec, fields_view, find_attr, lookup_attr, lookup_meta, metas_view,
    parse_program, program_spec, program_view, shim_error_view, Category, Copybook, DecodedField, Encoding,
    meta_view, FieldView, MetaView, Program, ProgramView, ShimError, ShimErrorView,
};
use crate::operator::{category_str, category_text, explained_attrs, find_meta, sealed_courts, sealed_courts_spec};
use crate::privacy::{
    action_str, action_text, bytes_of, policy_view, rule_for, DefaultAction, PolicyView, RedactionAction,
    RedactionPolicy,
};
use crate::sha256::{sha256_hex, spec_sha256_hex};
use crate::text::{
    bool_text, dec_nat, join_comma, js, lemma_strs_push, push_bool, push_joined, push_js, push_lit, push_usize,
    str_eq, strs_view,
};
use vstd::prelude::*;

verus! {

/// The tooling export (a `kobold-tooling-export-v1` JSON document).
pub struct ToolingExport {
    pub json: String,
}

/// Whether some declared condition has `name` as its parent.
pub open spec fn has_parent(p: ProgramView, name: Seq<char>) -> bool {
    exists|i: int| 0 <= i < p.conds.len() && #[trigger] p.conds[i].0 == name
}

/// Whether the export withholds the value, and the redaction status it reports.
pub open spec fn redaction_of(pol: Option<PolicyView>, name: Seq<char>) -> (bool, Seq<char>) {
    match pol {
        Some(p) => match rule_for(p.rules, name) {
            Some(a) => (a != RedactionAction::Allow, action_text(a)),
            None => if p.default_action == DefaultAction::DenyUnlisted {
                (true, "deny_unlisted"@)
            } else {
                (false, "allow_unlisted"@)
            },
        },
        None => (false, "not_redacted"@),
    }
}

pub const NC_IDENTITY: &'static str = "leading-zero identity needs a declared role (NEG.IDENTIFIER.NUMERIC_COERCION)";

pub const NC_NUMERIC: &'static str = ",\"sign is not polarity (declare KOBOLD.BANK.2)\",\"scale/currency/amount-role need a declared profile (KOBOLD.CURRENCY.PROFILE.1)\",\"date meaning needs a declared format (KOBOLD.DATE.PROFILE.1)\",\"not business truth\"";

pub const NC_ALPHA: &'static str = ",\"a sentinel/marker is not null/missing/status without a declared profile (KOBOLD.SENTINEL.PROFILE.1)\",\"not business truth\"";

pub const NC_EDITED: &'static str = ",\"presentation string; the oracle numeric is in the audit (GNURUST.16)\"";

/// The truth boundaries a field of this category can be over-read across.
pub open spec fn non_claims(cat: Seq<char>) -> Seq<char> {
    js(NC_IDENTITY@) + if cat == "numeric"@ {
        NC_NUMERIC@
    } else if cat == "alphanumeric"@ {
        NC_ALPHA@
    } else if cat == "edited"@ {
        NC_EDITED@
    } else {
        Seq::<char>::empty()
    }
}

pub open spec fn meta_parts(m: Option<MetaView>) -> (Seq<char>, Seq<char>, Seq<char>, nat) {
    match m {
        Some(mv) => (mv.pic, mv.usage, mv.file, mv.line),
        None => (Seq::<char>::empty(), Seq::<char>::empty(), Seq::<char>::empty(), 0),
    }
}

/// Where the field was declared, and its picture and usage.
pub open spec fn meta_json(m: Option<MetaView>) -> Seq<char> {
    let (pic, usage, path, line) = meta_parts(m);
    ",\"copybook_path\":"@ + js(path) + ",\"line\":"@ + dec_nat(line) + ",\"pic\":"@ + js(pic) + ",\"usage\":"@ + js(usage)
}

pub open spec fn value_json(redacted: bool, value: Seq<char>) -> Seq<char> {
    if redacted {
        "\"decoded_value\":null,\"value_sha256\":"@ + js(spec_sha256_hex(bytes_of(value)))
    } else {
        "\"decoded_value\":"@ + js(value)
    }
}

pub open spec fn court_ids(p: ProgramView, name: Seq<char>, enc: Encoding) -> Seq<Seq<char>> {
    let (ft, _fl, cat) = explained_attrs(p, name);
    sealed_courts_spec(ft, cat, p.used_copy, has_parent(p, name), enc).map_values(|c: Seq<char>| js(c))
}

/// The export entry of one field.
pub open spec fn tool_entry(p: ProgramView, f: FieldView, pol: Option<PolicyView>, enc: Encoding) -> Seq<char> {
    let cat = explained_attrs(p, f.name).2;
    let (redacted, status) = redaction_of(pol, f.name);
    "{\"qualified_name\":"@ + js(f.name) + meta_json(lookup_meta(p.meta, f.name)) + ",\"offset\":"@ + dec_nat(f.offset as nat)
        + ",\"length\":"@ + dec_nat(f.size as nat) + ",\"category\":"@ + js(f.category) + ","@ + value_json(redacted, f.value)
        + ",\"raw_sha256\":"@ + js(spec_sha256_hex(unhex_spec(f.raw_hex))) + ",\"court_ids\":["@ + join_comma(court_ids(p, f.name, enc))
        + "],\"findings\":[],\"redaction\":{\"status\":"@ + js(status) + ",\"redacted\":"@ + bool_text(redacted)
        + "},\"non_claims\":["@ + non_claims(cat) + "]}"@
}


/// A field that the declared policy redacts is exported without its value: its entry depends on
/// the value only through the value's hash, so two fields that differ in nothing but values with
/// the same hash get the same entry.
pub proof fn lemma_redacted_export_hides_value(p: ProgramView, f: FieldView, g: FieldView, pol: Option<PolicyView>, enc: Encoding)
    requires
        redaction_of(pol, f.name).0,
        g == (FieldView { value: g.value, ..f }),
        spec_sha256_hex(bytes_of(f.value)) == spec_sha256_hex(bytes_of(g.value)),
    ensures
        tool_entry(p, f, pol, enc) == tool_entry(p, g, pol, enc),
{
}

/// The entries of the first `n` fields (groups are skipped).
pub open spec fn tool_entries(p: ProgramView, fs: Seq<FieldView>, pol: Option<PolicyView>, enc: Encoding, n: nat) -> Seq<Seq<char>>
    decreases n,
{
    if n == 0 || n > fs.len() {
        seq![]
    } else {
        let prev = tool_entries(p, fs, pol, enc, (n - 1) as nat);
        if fs[n - 1].category == "group"@ {
            prev
        } else {
            prev.push(tool_entry(p, fs[n - 1], pol, enc))
        }
    }
}

pub const TOOLING_NEGATIVES: &'static str = "],\"negative_capabilities\":[\"NEG.TOOLING.NOT_LSP\",\"NEG.TOOLING.NOT_IDE\",\"NEG.TOOLING.NOT_FULL_PARSER\",\"NEG.TOOLING.NOT_SOURCE_OF_TRUTH\",\"NEG.TOOLING.NO_NEW_EVIDENCE\",\"NEG.TOOLING.REDACTION_STILL_APPLIES\"]}\n";

/// What [`tooling_export`] returns.
pub open spec fn tooling_spec(cb: Copybook, record: Seq<u8>, enc: Encoding, profile: Option<Seq<char>>, pol: Option<PolicyView>) -> Result<Seq<char>, ShimErrorView> {
    match program_spec(cb) {
        Err(e) => Err(e),
        Ok(p) => {
            let fs = fields_spec(p, record, enc);
            Ok(
                "{\"schema\":\"kobold-tooling-export-v1\",\"court\":\"KOBOLD.TOOLING.EXPORT.1\",\"introduces_new_evidence\":false,\"source\":{\"copybook_sha256\":"@
                    + js(spec_sha256_hex(bytes_of(cb.source@))) + ",\"record_sha256\":"@ + js(spec_sha256_hex(record))
                    + ",\"dialect_profile_id\":"@ + match profile {
                    Some(d) => js(d),
                    None => "null"@,
                } + "},\"fields\":["@ + join_comma(tool_entries(p, fs, pol, enc, fs.len())) + TOOLING_NEGATIVES@,
            )
        },
    }
}

fn has_parent_exec(prog: &Program, name: &str) -> (r: bool)
    ensures
        r == has_parent(program_view(*prog), name@),
{
    let ghost pv = program_view(*prog);
    let mut i: usize = 0;
    while i < prog.conditions.len()
        invariant
            i <= prog.conditions@.len(),
            pv == program_view(*prog),
            pv.conds.len() == prog.conditions@.len(),
            forall|j: int| 0 <= j < i ==> pv.conds[j].0 != name@,
        decreases prog.conditions@.len() - i,
    {
        assert(pv.conds[i as int].0 == prog.conditions@[i as int].0@);
        if str_eq(prog.conditions[i].0.as_str(), name) {
            return true;
        }
        i += 1;
    }
    false
}

fn rule_action(rules: &[crate::privacy::FieldRule], name: &str) -> (r: Option<RedactionAction>)
    ensures
        r == rule_for(rules@.map_values(|r: crate::privacy::FieldRule| (r.field@, r.action)), name@),
{
    let ghost rv = rules@.map_values(|r: crate::privacy::FieldRule| (r.field@, r.action));
    let mut i: usize = 0;
    assert(rv.skip(0) =~= rv);
    while i < rules.len()
        invariant
            i <= rules@.len(),
            rv == rules@.map_values(|r: crate::privacy::FieldRule| (r.field@, r.action)),
            rule_for(rv, name@) == rule_for(rv.skip(i as int), name@),
        decreases rules@.len() - i,
    {
        assert(rv.skip(i as int)[0] == rv[i as int]);
        assert(rv.skip(i as int).drop_first() =~= rv.skip(i + 1));
        if str_eq(rules[i].field, name) {
            return Some(rules[i].action);
        }
        i += 1;
    }
    assert(rv.skip(i as int).len() == 0);
    None
}

fn court_ids_exec(prog: &Program, name: &String, enc: Encoding) -> (r: (Vec<String>, &'static str))
    ensures
        strs_view(r.0@) == court_ids(program_view(*prog), name@, enc),
        r.1@ == explained_attrs(program_view(*prog), name@).2,
{
    let (ft, cat): (u16, &str) = match find_attr(&prog.attrs, name) {
        Some((a, c)) => (a.field_type, category_str(c)),
        None => (0, "group"),
    };
    let has_conds = has_parent_exec(prog, name.as_str());
    let courts = sealed_courts(ft, cat, prog.used_copy, has_conds, enc);
    let mut court_list: Vec<String> = Vec::new();
    let mut i: usize = 0;
    let ghost cs = strs_view(courts@);
    while i < courts.len()
        invariant
            i <= courts@.len(),
            cs == strs_view(courts@),
            strs_view(court_list@) == cs.map_values(|c: Seq<char>| js(c)).take(i as int),
        decreases courts@.len() - i,
    {
        let mut q = String::new();
        push_js(&mut q, courts[i].as_str());
        proof {
            lemma_strs_push(court_list@, q);
        }
        court_list.push(q);
        assert(cs.map_values(|c: Seq<char>| js(c)).take(i + 1) =~= cs.map_values(|c: Seq<char>| js(c)).take(i as int).push(q@));
        i += 1;
    }
    assert(cs.map_values(|c: Seq<char>| js(c)).take(i as int) =~= cs.map_values(|c: Seq<char>| js(c)));
    (court_list, cat)
}

fn push_meta_json(o: &mut String, prog: &Program, name: &str)
    ensures
        final(o)@ == old(o)@ + meta_json(lookup_meta(program_view(*prog).meta, name@)),
{
    let ghost start = o@;
    let mi = find_meta(&prog.meta, name);
    push_lit(o, ",\"copybook_path\":");
    match mi {
        Some(k) => {
            let m = &prog.meta[k].1;
            assert(lookup_meta(program_view(*prog).meta, name@) == Some(meta_view(*m)));
            push_js(o, m.source_file.as_str());
            push_lit(o, ",\"line\":");
            push_usize(o, m.source_line);
            push_lit(o, ",\"pic\":");
            push_js(o, m.pic.as_str());
            push_lit(o, ",\"usage\":");
            push_js(o, m.usage.as_str());
            assert(o@ =~= start + meta_json(Some(meta_view(*m))));
        },
        None => {
            push_js(o, "");
            push_lit(o, ",\"line\":");
            push_usize(o, 0);
            push_lit(o, ",\"pic\":");
            push_js(o, "");
            push_lit(o, ",\"usage\":");
            push_js(o, "");
            proof {
                reveal_strlit("");
                assert(""@ =~= Seq::<char>::empty());
            }
            assert(o@ =~= start + meta_json(None));
        },
    }
}

fn redaction_exec(redaction: Option<&RedactionPolicy>, name: &str) -> (r: (bool, &'static str))
    ensures
        (r.0, r.1@) == redaction_of(match redaction {
            Some(p) => Some(policy_view(*p)),
            None => None,
        }, name@),
{
    match redaction {
        Some(p) => match rule_action(p.rules, name) {
            Some(a) => (a != RedactionAction::Allow, action_str(a)),
            None => if p.default_action == DefaultAction::DenyUnlisted {
                (true, "deny_unlisted")
            } else {
                (false, "allow_unlisted")
            },
        },
        None => (false, "not_redacted"),
    }
}

#[verifier::rlimit(40)]
fn tool_entry_exec(prog: &Program, f: &DecodedField, redaction: Option<&RedactionPolicy>, enc: Encoding) -> (r: String)
    requires
        all_lower_hex(f.raw_hex@),
    ensures
        r@ == tool_entry(program_view(*prog), field_view(*f), match redaction {
            Some(p) => Some(policy_view(*p)),
            None => None,
        }, enc),
{
    let (court_list, cat) = court_ids_exec(prog, &f.name, enc);
    let (redacted, status) = redaction_exec(redaction, f.name.as_str());
    let raw = unhex(&f.raw_hex);
    let raw_sha = sha256_hex(raw.as_slice());
    let mut o = String::new();
    push_lit(&mut o, "{\"qualified_name\":");
    push_js(&mut o, f.name.as_str());
    push_meta_json(&mut o, prog, f.name.as_str());
    push_lit(&mut o, ",\"offset\":");
    push_usize(&mut o, f.offset);
    push_lit(&mut o, ",\"length\":");
    push_usize(&mut o, f.size);
    push_lit(&mut o, ",\"category\":");
    push_js(&mut o, f.category);
    push_lit(&mut o, ",");
    let ghost before_value = o@;
    if redacted {
        let vs = sha256_hex(f.value.as_str().as_bytes());
        push_lit(&mut o, "\"decoded_value\":null,\"value_sha256\":");
        push_js(&mut o, vs.as_str());
    } else {
        push_lit(&mut o, "\"decoded_value\":");
        push_js(&mut o, f.value.as_str());
    }
    assert(o@ =~= before_value + value_json(redacted, f.value@));
    push_lit(&mut o, ",\"raw_sha256\":");
    push_js(&mut o, raw_sha.as_str());
    push_lit(&mut o, ",\"court_ids\":[");
    push_joined(&mut o, &court_list);
    push_lit(&mut o, "],\"findings\":[],\"redaction\":{\"status\":");
    push_js(&mut o, status);
    push_lit(&mut o, ",\"redacted\":");
    push_bool(&mut o, redacted);
    push_lit(&mut o, "},\"non_claims\":[");
    let ghost before_nc = o@;
    push_js(&mut o, NC_IDENTITY);
    if str_eq(cat, "numeric") {
        push_lit(&mut o, NC_NUMERIC);
    } else if str_eq(cat, "alphanumeric") {
        push_lit(&mut o, NC_ALPHA);
    } else if str_eq(cat, "edited") {
        push_lit(&mut o, NC_EDITED);
    }
    assert(o@ =~= before_nc + non_claims(cat@));
    push_lit(&mut o, "]}");
    o
}

/// Generate a tooling-friendly evidence map from the decode and its provenance. The dialect
/// profile id names the witness; an optional redaction policy is honored, so the export never
/// carries the cleartext of a redacted field.
#[verifier::rlimit(40)]
pub fn tooling_export(
    cb: &Copybook,
    record: &[u8],
    encoding: Encoding,
    dialect_profile_id: Option<&str>,
    redaction: Option<&RedactionPolicy>,
) -> (r: Result<ToolingExport, ShimError>)
    ensures
        match r {
            Ok(t) => tooling_spec(*cb, record@, encoding, match dialect_profile_id {
                Some(d) => Some(d@),
                None => None,
            }, match redaction {
                Some(p) => Some(policy_view(*p)),
                None => None,
            }) == Ok::<Seq<char>, ShimErrorView>(t.json@),
            Err(e) => tooling_spec(*cb, record@, encoding, match dialect_profile_id {
                Some(d) => Some(d@),
                None => None,
            }, match redaction {
                Some(p) => Some(policy_view(*p)),
                None => None,
            }) == Err::<Seq<char>, ShimErrorView>(shim_error_view(e)),
        },
{
    let prog = parse_program(cb)?;
    let ghost pv = program_view(prog);
    let ghost pol = match redaction {
        Some(p) => Some(policy_view(*p)),
        None => None::<PolicyView>,
    };
    let fields = decode_fields(&prog, record, encoding);
    let ghost fv = fields_view(fields@);
    proof {
        lemma_fields_raw_hex(pv, record@, encoding);
    }
    let mut entries: Vec<String> = Vec::new();
    let mut i: usize = 0;
    while i < fields.len()
        invariant
            i <= fields@.len(),
            pv == program_view(prog),
            pol == match redaction {
                Some(p) => Some(policy_view(*p)),
                None => None::<PolicyView>,
            },
            fv == fields_view(fields@),
            fv == fields_spec(pv, record@, encoding),
            forall|k: int| 0 <= k < fv.len() ==> all_lower_hex(#[trigger] fv[k].raw_hex),
            strs_view(entries@) == tool_entries(pv, fv, pol, encoding, i as nat),
        decreases fields@.len() - i,
    {
        let f = &fields[i];
        assert(fv[i as int] == field_view(*f));
        assert(fv[i as int].raw_hex == f.raw_hex@);
        if !str_eq(f.category, "group") {
            let e = tool_entry_exec(&prog, f, redaction, encoding);
            proof {
                lemma_strs_push(entries@, e);
            }
            entries.push(e);
        }
        i += 1;
    }
    let cs = sha256_hex(cb.source.as_str().as_bytes());
    let rs = sha256_hex(record);
    let mut json = String::new();
    push_lit(
        &mut json,
        "{\"schema\":\"kobold-tooling-export-v1\",\"court\":\"KOBOLD.TOOLING.EXPORT.1\",\"introduces_new_evidence\":false,\"source\":{\"copybook_sha256\":",
    );
    push_js(&mut json, cs.as_str());
    push_lit(&mut json, ",\"record_sha256\":");
    push_js(&mut json, rs.as_str());
    push_lit(&mut json, ",\"dialect_profile_id\":");
    match dialect_profile_id {
        Some(d) => push_js(&mut json, d),
        None => push_lit(&mut json, "null"),
    }
    push_lit(&mut json, "},\"fields\":[");
    push_joined(&mut json, &entries);
    push_lit(&mut json, TOOLING_NEGATIVES);
    Ok(ToolingExport { json })
}

/// A field's export entry: none for a group.
pub open spec fn export_of(p: ProgramView, f: FieldView, pol: Option<PolicyView>, enc: Encoding) -> Option<Seq<char>> {
    if f.category == "group"@ {
        None
    } else {
        Some(tool_entry(p, f, pol, enc))
    }
}

proof fn lemma_tool_entries_closed(p: ProgramView, fs: Seq<FieldView>, pol: Option<PolicyView>, enc: Encoding, n: nat)
    requires
        n <= fs.len(),
    ensures
        tool_entries(p, fs, pol, enc, n) == fs.take(n as int).filter_map(|f: FieldView| export_of(p, f, pol, enc)),
    decreases n,
{
    let e = |f: FieldView| export_of(p, f, pol, enc);
    if n == 0 {
        assert(fs.take(0) =~= Seq::<FieldView>::empty());
    } else {
        lemma_tool_entries_closed(p, fs, pol, enc, (n - 1) as nat);
        let t = fs.take(n as int);
        assert(t.drop_last() =~= fs.take(n - 1));
        assert(t.last() == fs[n - 1]);
        let pe = fs.take(n - 1).filter_map(e);
        match e(t.last()) {
            Some(x) => {
                assert(pe + seq![x] =~= pe.push(x));
            },
            None => {},
        }
    }
}

/// Every non-group field is exported once, in record order. Under a declared policy, a field is
/// redacted exactly when its rule's action is not `Allow`, or it has no rule and unlisted fields
/// are denied; a redacted field's entry carries a null value and the value's hash, never the
/// value, and any other field's entry carries the value itself.
pub proof fn lemma_export_applies_the_policy(
    cb: Copybook,
    record: Seq<u8>,
    enc: Encoding,
    profile: Option<Seq<char>>,
    pol: Option<PolicyView>,
    f: FieldView,
)
    ensures
        tooling_spec(cb, record, enc, profile, pol) matches Ok(j) ==> {
            let p = program_spec(cb)->Ok_0;
            let fs = fields_spec(p, record, enc);
            j == "{\"schema\":\"kobold-tooling-export-v1\",\"court\":\"KOBOLD.TOOLING.EXPORT.1\",\"introduces_new_evidence\":false,\"source\":{\"copybook_sha256\":"@
                + js(spec_sha256_hex(bytes_of(cb.source@))) + ",\"record_sha256\":"@ + js(spec_sha256_hex(record))
                + ",\"dialect_profile_id\":"@ + match profile {
                Some(d) => js(d),
                None => "null"@,
            } + "},\"fields\":["@ + join_comma(fs.filter_map(|g: FieldView| export_of(p, g, pol, enc)))
                + TOOLING_NEGATIVES@
        },
        redaction_of(pol, f.name).0 <==> (pol matches Some(pv) && match rule_for(pv.rules, f.name) {
            Some(a) => a != RedactionAction::Allow,
            None => pv.default_action == DefaultAction::DenyUnlisted,
        }),
        value_json(redaction_of(pol, f.name).0, f.value) == if redaction_of(pol, f.name).0 {
            "\"decoded_value\":null,\"value_sha256\":"@ + js(spec_sha256_hex(bytes_of(f.value)))
        } else {
            "\"decoded_value\":"@ + js(f.value)
        },
{
    if let Ok(p) = program_spec(cb) {
        let fs = fields_spec(p, record, enc);
        lemma_tool_entries_closed(p, fs, pol, enc, fs.len());
        assert(fs.take(fs.len() as int) =~= fs);
    }
}

} // verus!
