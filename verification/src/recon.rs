//! End-to-end fixed-record reconciliation.
//!
//! [`reconcile`] decodes a buffer of fixed-length COBOL records against an expanded copybook into
//! stable JSONL (fields, LEVEL-88 conditions and a per-record audit), a batch audit receipt, and an
//! explicit ledger of what was not decoded. Every surface outside the admitted decode courts is
//! emitted as non-decoded evidence, never guessed.
use crate::decode::{
    chunks_spec, cond_view, cond_views, conds_spec, decode_fields, eval_conditions, field_view, fields_spec,
    fields_view, lemma_chunks_step, lemma_skip_head, lines_view, parse_program, program_spec, program_view,
    shim_error_view, CondView, Copybook, DecodedCondition, DecodedField, Encoding, FieldView, Program, ProgramView,
    ShimError, ShimErrorView,
};
use crate::operator::{check_collisions, collision_check, jw, push_jw, STALE_COPYBOOK_RISK};
use crate::sha256::{sha256_hex, spec_sha256_hex};
use crate::text::{
    bool_text, chars_of, contains_chars, contains_sub, dec_nat, join_comma, join_sep, lemma_strs_push, push_bool,
    push_joined, push_joined_sep, push_lit, push_u128, push_usize, strs_view, upper_chars, upper_seq,
};
use rayon::iter::{IndexedParallelIterator, IntoParallelRefIterator, ParallelIterator};
use vstd::prelude::*;

verus! {

/// The library version written into audit receipts.
pub const SHIM_VERSION: &'static str = "0.1.0";

/// Audit note for copybooks that use binary storage.
pub const BINARY_NOTE: &'static str = ",\"binary_byteorder\":\"big-endian (COMP/COMP-X), native-little-endian (COMP-5); admitted GnuCOBOL 3.2 binary-size 1-2-4-8\"";

/// Audit note for copybooks that use unsigned packed-decimal (COMP-6) storage.
pub const COMP6_NOTE: &'static str = ",\"comp6\":{\"claim\":\"GNURUST.18\",\"domain\":\"comp6-unsigned-packed\",\"signed_comp6\":\"not-admitted-fail-closed\"}";

/// Audit note for records declared as EBCDIC cp500.
pub const CP500_NOTE: &'static str = ",\"encoding\":{\"record_default\":\"cp500\",\"source\":\"gnucobol-3.2:ebcdic500_ascii8bit.ttbl\",\"auto_detected\":false,\"binary_fields_passthrough\":true,\"packed_fields_passthrough\":true,\"mixed_encoding_claim\":false,\"numeric_display\":{\"zoned_sign\":\"unsupported\",\"fail_closed\":true,\"code_page\":\"cp500\"}}";

/// The reconciliation outputs (all byte-stable for a given input).
pub struct ReconResult {
    /// One JSON object per record, newline-terminated (JSONL).
    pub jsonl: String,
    /// The batch audit receipt (`kobold-recon-receipt-v1`).
    pub audit_json: String,
    /// The explicit list of unsupported fields and conditions (non-decoded evidence).
    pub unsupported_json: String,
    pub record_count: usize,
    pub unsupported_count: usize,
}

pub struct ReconView {
    pub jsonl: Seq<char>,
    pub audit_json: Seq<char>,
    pub unsupported_json: Seq<char>,
    pub record_count: nat,
    pub unsupported_count: nat,
}

pub open spec fn recon_view(r: ReconResult) -> ReconView {
    ReconView {
        jsonl: r.jsonl@,
        audit_json: r.audit_json@,
        unsupported_json: r.unsupported_json@,
        record_count: r.record_count as nat,
        unsupported_count: r.unsupported_count as nat,
    }
}

/// One record's JSON object and the names of what in it was not decoded.
pub struct RecordObject {
    pub obj: String,
    pub unsupported_count: usize,
    pub unsupported_names: Vec<String>,
}

pub struct RecordObjectView {
    pub obj: Seq<char>,
    pub count: nat,
    pub names: Seq<Seq<char>>,
}

pub open spec fn record_object_view(r: RecordObject) -> RecordObjectView {
    RecordObjectView { obj: r.obj@, count: r.unsupported_count as nat, names: strs_view(r.unsupported_names@) }
}

pub open spec fn objs_view(v: Seq<RecordObject>) -> Seq<RecordObjectView> {
    v.map_values(|r: RecordObject| record_object_view(r))
}

// ----------------------------------------------------------------------------------------------
// One record
// ----------------------------------------------------------------------------------------------

/// What the fields of a record contribute: `"name":"value"` entries, edited-field audit entries,
/// and `field:NAME` markers for what was not decoded.
pub struct FieldAcc {
    pub entries: Seq<Seq<char>>,
    pub edited: Seq<Seq<char>>,
    pub names: Seq<Seq<char>>,
}

/// Whether a field's value is written into the record object.
pub open spec fn shown(f: FieldView) -> bool {
    f.category == "numeric"@ || f.category == "alphanumeric"@ || f.category == "edited"@
}

/// The audit entry of an edited field: its raw text and recovered numeric value.
pub open spec fn edited_entry(f: FieldView) -> Seq<char> {
    jw(f.name) + ":{\"raw_text\":"@ + jw(f.value) + ",\"numeric_value\":"@ + match f.edited_numeric {
        Some(s) => jw(s),
        None => "null"@,
    } + ",\"claim\":\"GNURUST.16\",\"domain\":\"edited-display-decode\"}"@
}

pub open spec fn field_acc(fs: Seq<FieldView>, n: nat) -> FieldAcc
    decreases n,
{
    if n == 0 || n > fs.len() {
        FieldAcc { entries: seq![], edited: seq![], names: seq![] }
    } else {
        let a = field_acc(fs, (n - 1) as nat);
        let f = fs[n - 1];
        if shown(f) {
            FieldAcc {
                entries: a.entries.push(jw(f.name) + ":"@ + jw(f.value)),
                edited: if f.category == "edited"@ { a.edited.push(edited_entry(f)) } else { a.edited },
                names: a.names,
            }
        } else if f.category == "unsupported"@ {
            FieldAcc { names: a.names.push("field:"@ + f.name), ..a }
        } else {
            a
        }
    }
}

/// `"name":true|false` for each condition that could be evaluated.
pub open spec fn cond_entries(cs: Seq<CondView>, n: nat) -> Seq<Seq<char>>
    decreases n,
{
    if n == 0 || n > cs.len() {
        seq![]
    } else {
        let prev = cond_entries(cs, (n - 1) as nat);
        match cs[n - 1].value {
            Some(b) => prev.push(jw(cs[n - 1].name) + ":"@ + bool_text(b)),
            None => prev,
        }
    }
}

/// `condition:NAME` for each condition that could not be evaluated.
pub open spec fn cond_unknown(cs: Seq<CondView>, n: nat) -> Seq<Seq<char>>
    decreases n,
{
    if n == 0 || n > cs.len() {
        seq![]
    } else {
        let prev = cond_unknown(cs, (n - 1) as nat);
        match cs[n - 1].value {
            Some(_) => prev,
            None => prev.push("condition:"@ + cs[n - 1].name),
        }
    }
}

/// The record object of record `index`: fields, conditions, and the audit of where its bytes came
/// from (offset, length, SHA-256) with the edited-field evidence when there is any.
pub open spec fn record_object_spec(fs: Seq<FieldView>, cs: Seq<CondView>, index: nat, record_len: nat, chunk: Seq<u8>) -> RecordObjectView {
    let fa = field_acc(fs, fs.len());
    let edited_audit = if fa.edited.len() == 0 {
        Seq::<char>::empty()
    } else {
        ",\"edited\":{"@ + join_comma(fa.edited) + "}"@
    };
    let names = fa.names + cond_unknown(cs, cs.len());
    RecordObjectView {
        obj: "{\"record_index\":"@ + dec_nat(index) + ",\"fields\":{"@ + join_comma(fa.entries) + "},\"conditions\":{"@
            + join_comma(cond_entries(cs, cs.len())) + "},\"audit\":{\"raw_offset\":"@ + dec_nat(index * record_len)
            + ",\"raw_len\":"@ + dec_nat(chunk.len()) + ",\"record_sha256\":"@ + jw(spec_sha256_hex(chunk)) + edited_audit
            + "}}"@,
        count: names.len(),
        names: names,
    }
}

/// Record `index` decoded and rendered.
pub open spec fn one_spec(p: ProgramView, index: nat, chunk: Seq<u8>, record_len: nat, enc: Encoding) -> RecordObjectView {
    record_object_spec(fields_spec(p, chunk, enc), conds_spec(p, chunk, enc), index, record_len, chunk)
}

/// Every record decoded and rendered, in record order.
pub open spec fn objs_spec(p: ProgramView, chunks: Seq<Seq<u8>>, record_len: nat, enc: Encoding) -> Seq<RecordObjectView> {
    Seq::new(chunks.len(), |i: int| one_spec(p, i as nat, chunks[i], record_len, enc))
}

fn edited_entry_exec(f: &DecodedField) -> (r: String)
    ensures
        r@ == edited_entry(field_view(*f)),
{
    let mut e = String::new();
    push_jw(&mut e, f.name.as_str());
    push_lit(&mut e, ":{\"raw_text\":");
    push_jw(&mut e, f.value.as_str());
    push_lit(&mut e, ",\"numeric_value\":");
    match &f.edited_numeric {
        Some(s) => push_jw(&mut e, s.as_str()),
        None => push_lit(&mut e, "null"),
    }
    push_lit(&mut e, ",\"claim\":\"GNURUST.16\",\"domain\":\"edited-display-decode\"}");
    e
}

fn record_fields(fields: &Vec<DecodedField>) -> (r: (Vec<String>, Vec<String>, Vec<String>))
    ensures
        ({
            let fa = field_acc(fields_view(fields@), fields@.len());
            strs_view(r.0@) == fa.entries && strs_view(r.1@) == fa.edited && strs_view(r.2@) == fa.names
        }),
{
    let ghost fs = fields_view(fields@);
    let mut entries: Vec<String> = Vec::new();
    let mut edited: Vec<String> = Vec::new();
    let mut names: Vec<String> = Vec::new();
    let mut i: usize = 0;
    while i < fields.len()
        invariant
            i <= fields@.len(),
            fs == fields_view(fields@),
            strs_view(entries@) == field_acc(fs, i as nat).entries,
            strs_view(edited@) == field_acc(fs, i as nat).edited,
            strs_view(names@) == field_acc(fs, i as nat).names,
        decreases fields@.len() - i,
    {
        let f = &fields[i];
        assert(fs[i as int] == field_view(*f));
        let is_edited = crate::text::str_eq(f.category, "edited");
        if crate::text::str_eq(f.category, "numeric") || crate::text::str_eq(f.category, "alphanumeric") || is_edited {
            let mut e = String::new();
            push_jw(&mut e, f.name.as_str());
            push_lit(&mut e, ":");
            push_jw(&mut e, f.value.as_str());
            proof {
                lemma_strs_push(entries@, e);
            }
            entries.push(e);
            if is_edited {
                let x = edited_entry_exec(f);
                proof {
                    lemma_strs_push(edited@, x);
                }
                edited.push(x);
            }
        } else if crate::text::str_eq(f.category, "unsupported") {
            let mut m = String::new();
            push_lit(&mut m, "field:");
            m.append(f.name.as_str());
            proof {
                lemma_strs_push(names@, m);
            }
            names.push(m);
        }
        i += 1;
    }
    (entries, edited, names)
}

fn record_conditions(conds: &Vec<DecodedCondition>, names: &mut Vec<String>) -> (r: Vec<String>)
    ensures
        strs_view(r@) == cond_entries(cond_views(conds@), conds@.len()),
        strs_view(final(names)@) == strs_view(old(names)@) + cond_unknown(cond_views(conds@), conds@.len()),
{
    let ghost cs = cond_views(conds@);
    let mut entries: Vec<String> = Vec::new();
    let mut i: usize = 0;
    assert(strs_view(names@) =~= strs_view(old(names)@) + cond_unknown(cs, 0));
    while i < conds.len()
        invariant
            i <= conds@.len(),
            cs == cond_views(conds@),
            strs_view(entries@) == cond_entries(cs, i as nat),
            strs_view(names@) == strs_view(old(names)@) + cond_unknown(cs, i as nat),
        decreases conds@.len() - i,
    {
        let c = &conds[i];
        assert(cs[i as int] == cond_view(*c));
        match c.value {
            Some(b) => {
                let mut e = String::new();
                push_jw(&mut e, c.name.as_str());
                push_lit(&mut e, ":");
                push_bool(&mut e, b);
                proof {
                    lemma_strs_push(entries@, e);
                }
                entries.push(e);
            },
            None => {
                let mut m = String::new();
                push_lit(&mut m, "condition:");
                m.append(c.name.as_str());
                proof {
                    lemma_strs_push(names@, m);
                }
                names.push(m);
                assert(strs_view(old(names)@) + cond_unknown(cs, (i + 1) as nat) =~= strs_view(old(names)@)
                    + cond_unknown(cs, i as nat) + seq![m@]);
            },
        }
        i += 1;
    }
    entries
}

/// Build one record's JSON object and its ledger of what was not decoded.
#[verifier::rlimit(30)]
fn record_object(
    fields: &Vec<DecodedField>,
    conditions: &Vec<DecodedCondition>,
    index: usize,
    record_len: usize,
    chunk: &[u8],
) -> (r: RecordObject)
    ensures
        record_object_view(r) == record_object_spec(
            fields_view(fields@),
            cond_views(conditions@),
            index as nat,
            record_len as nat,
            chunk@,
        ),
{
    let (entries, edited, mut names) = record_fields(fields);
    let centries = record_conditions(conditions, &mut names);
    let rec_sha = sha256_hex(chunk);
    assert(index as int * record_len as int <= u64::MAX as int * u64::MAX as int) by (nonlinear_arith)
        requires
            index <= u64::MAX,
            record_len <= u64::MAX,
    ;
    let raw_offset: u128 = (index as u128) * (record_len as u128);
    let mut obj = String::new();
    push_lit(&mut obj, "{\"record_index\":");
    push_usize(&mut obj, index);
    push_lit(&mut obj, ",\"fields\":{");
    push_joined(&mut obj, &entries);
    push_lit(&mut obj, "},\"conditions\":{");
    push_joined(&mut obj, &centries);
    push_lit(&mut obj, "},\"audit\":{\"raw_offset\":");
    push_u128(&mut obj, raw_offset);
    push_lit(&mut obj, ",\"raw_len\":");
    push_usize(&mut obj, chunk.len());
    push_lit(&mut obj, ",\"record_sha256\":");
    push_jw(&mut obj, rec_sha.as_str());
    if edited.len() > 0 {
        push_lit(&mut obj, ",\"edited\":{");
        push_joined(&mut obj, &edited);
        push_lit(&mut obj, "}");
    }
    push_lit(&mut obj, "}}");
    proof {
        let spec = record_object_spec(fields_view(fields@), cond_views(conditions@), index as nat, record_len as nat, chunk@);
        assert(raw_offset as nat == index as nat * record_len as nat);
        assert(obj@ =~= spec.obj);
        assert(strs_view(names@) =~= spec.names);
    }
    let count = names.len();
    RecordObject { obj, unsupported_count: count, unsupported_names: names }
}

/// Decode record `index` and render it.
pub fn one_record(prog: &Program, index: usize, chunk: &[u8], record_len: usize, enc: Encoding) -> (r: RecordObject)
    ensures
        record_object_view(r) == one_spec(program_view(*prog), index as nat, chunk@, record_len as nat, enc),
{
    let fields = decode_fields(prog, chunk, enc);
    let conditions = eval_conditions(prog, chunk, enc);
    record_object(&fields, &conditions, index, record_len, chunk)
}


// ----------------------------------------------------------------------------------------------
// All records
// ----------------------------------------------------------------------------------------------

pub open spec fn slices_view(v: Seq<&[u8]>) -> Seq<Seq<u8>> {
    v.map_values(|c: &[u8]| c@)
}

/// Cut `data` into `record_len`-byte records; a trailing partial record is kept as it is.
pub fn split_records(data: &[u8], record_len: usize) -> (r: Vec<&[u8]>)
    requires
        record_len > 0,
    ensures
        slices_view(r@) == chunks_spec(data@, record_len as nat),
{
    let ghost n = record_len as nat;
    let ghost chunks = chunks_spec(data@, n);
    let mut out: Vec<&[u8]> = Vec::new();
    let mut off: usize = 0;
    assert(data@.skip(0) =~= data@);
    assert(chunks.skip(0) =~= chunks);
    while off < data.len()
        invariant
            off <= data@.len(),
            record_len > 0,
            n == record_len as nat,
            chunks == chunks_spec(data@, n),
            out@.len() <= chunks.len(),
            out@.len() <= off,
            chunks_spec(data@.skip(off as int), n) == chunks.skip(out@.len() as int),
            slices_view(out@) == chunks.take(out@.len() as int),
        decreases data@.len() - off,
    {
        let end = if data.len() - off <= record_len { data.len() } else { off + record_len };
        proof {
            lemma_chunks_step(data@, n, off as int);
            lemma_skip_head(chunks, out@.len() as int, data@.subrange(off as int, end as int), chunks_spec(data@.skip(end as int), n));
        }
        let chunk = vstd::slice::slice_subrange(data, off, end);
        let ghost k = out@.len();
        out.push(chunk);
        assert(slices_view(out@) =~= chunks.take(k + 1 as int));
        off = end;
    }
    assert(data@.skip(off as int).len() == 0);
    assert(chunks_spec(data@.skip(off as int), n) =~= seq![]);
    assert(chunks.take(out@.len() as int) =~= chunks);
    out
}

/// Calls rayon's `par_iter().enumerate().map(..).collect()` over the records, the closure calling
/// only the verified [`one_record`]. Trusted claim: the collected vector has one element per
/// record, in record order (rayon's indexed `collect` into a `Vec` keeps the input order), and the
/// element at `i` is what `one_record` returned for index `i` and record `i`.
#[verifier::external_body]
fn par_record_objects(prog: &Program, chunks: &Vec<&[u8]>, record_len: usize, enc: Encoding) -> (r: Vec<RecordObject>)
    ensures
        objs_view(r@) == objs_spec(program_view(*prog), slices_view(chunks@), record_len as nat, enc),
{
    chunks.par_iter().enumerate().map(|(i, c)| one_record(prog, i, c, record_len, enc)).collect()
}

/// Decode and render every record in record order, on one thread or across rayon's pool; both
/// give the same objects.
fn build_objects(prog: &Program, chunks: &Vec<&[u8]>, record_len: usize, enc: Encoding, parallel: bool) -> (r: Vec<RecordObject>)
    ensures
        objs_view(r@) == objs_spec(program_view(*prog), slices_view(chunks@), record_len as nat, enc),
{
    if parallel {
        return par_record_objects(prog, chunks, record_len, enc);
    }
    let ghost want = objs_spec(program_view(*prog), slices_view(chunks@), record_len as nat, enc);
    let mut out: Vec<RecordObject> = Vec::new();
    let mut i: usize = 0;
    while i < chunks.len()
        invariant
            i <= chunks@.len(),
            want == objs_spec(program_view(*prog), slices_view(chunks@), record_len as nat, enc),
            objs_view(out@) == want.take(i as int),
        decreases chunks@.len() - i,
    {
        let o = one_record(prog, i, chunks[i], record_len, enc);
        assert(slices_view(chunks@)[i as int] == chunks@[i as int]@);
        assert(want[i as int] == record_object_view(o));
        let ghost before = out@;
        let ghost ov = record_object_view(o);
        out.push(o);
        assert(out@ == before.push(o));
        assert(objs_view(out@) =~= objs_view(before).push(ov));
        assert(want.take(i + 1) =~= want.take(i as int).push(want[i as int]));
        i += 1;
    }
    assert(want.take(i as int) =~= want);
    out
}

// ----------------------------------------------------------------------------------------------
// The batch
// ----------------------------------------------------------------------------------------------

/// The expanded copybook as one text: its lines joined by newlines.
pub open spec fn expanded_text(cb: Copybook) -> Seq<char> {
    join_sep(lines_view(cb.lines@), "\n"@)
}

/// The copybook uses binary storage (by the usage words in its upper-cased text).
pub open spec fn has_binary(up: Seq<char>) -> bool {
    contains_sub(up, "COMP-5"@) || contains_sub(up, "COMP-X"@) || contains_sub(up, " COMP."@) || contains_sub(up, " COMP\n"@)
        || contains_sub(up, "BINARY"@) || contains_sub(up, "COMPUTATIONAL"@)
}

/// The copybook uses COMP-6 storage.
pub open spec fn has_comp6(up: Seq<char>) -> bool {
    contains_sub(up, "COMP-6"@) || contains_sub(up, "COMPUTATIONAL-6"@)
}

/// `name:offset:size;` for each field: the layout signature hashed into the receipt.
pub open spec fn layout_sig(fs: Seq<FieldView>, n: nat) -> Seq<char>
    decreases n,
{
    if n == 0 || n > fs.len() {
        seq![]
    } else {
        layout_sig(fs, (n - 1) as nat) + fs[n - 1].name + ":"@ + dec_nat(fs[n - 1].offset as nat) + ":"@ + dec_nat(
            fs[n - 1].size as nat,
        ) + ";"@
    }
}

/// The number of fields among the first `n` that are not groups.
pub open spec fn non_group_count(fs: Seq<FieldView>, n: nat) -> nat
    decreases n,
{
    if n == 0 || n > fs.len() {
        0
    } else {
        non_group_count(fs, (n - 1) as nat) + if fs[n - 1].category != "group"@ { 1nat } else { 0nat }
    }
}

/// The JSONL of the first `n` record objects.
pub open spec fn jsonl_spec(objs: Seq<RecordObjectView>, n: nat) -> Seq<char>
    decreases n,
{
    if n == 0 || n > objs.len() {
        seq![]
    } else {
        jsonl_spec(objs, (n - 1) as nat) + objs[n - 1].obj + "\n"@
    }
}

/// The unsupported items of the first `n` record objects, counted.
pub open spec fn total_unsupported(objs: Seq<RecordObjectView>, n: nat) -> nat
    decreases n,
{
    if n == 0 || n > objs.len() {
        0
    } else {
        total_unsupported(objs, (n - 1) as nat) + objs[n - 1].count
    }
}

/// The ledger: the first record's unsupported items (the layout is the same for every record) and
/// the total count over all records.
pub open spec fn unsupported_json_spec(items: Seq<Seq<char>>, total: nat) -> Seq<char> {
    "{\"unsupported\":["@ + join_comma(items.map_values(|u: Seq<char>| jw(u))) + "],\"unsupported_count\":"@ + dec_nat(total)
        + "}\n"@
}

pub open spec fn bytes_of(s: Seq<char>) -> Seq<u8> {
    vstd::utf8::encode_utf8(s)
}

/// The facts a receipt records.
pub struct AuditFacts {
    pub fixture: Seq<char>,
    pub data_sha: Seq<char>,
    pub copybook_sha: Seq<char>,
    pub expanded_sha: Seq<char>,
    pub layout_sha: Seq<char>,
    pub record_count: nat,
    pub field_count: nat,
    pub condition_count: nat,
    pub unsupported_count: nat,
    pub version: Seq<char>,
    pub output_sha: Seq<char>,
    pub notes: Seq<char>,
}

/// The batch audit receipt.
pub open spec fn audit_spec(a: AuditFacts) -> Seq<char> {
    "{\"schema\":\"kobold-recon-receipt-v1\",\"fixture\":"@ + jw(a.fixture) + ",\"raw_input_sha256\":"@ + jw(a.data_sha)
        + ",\"copybook_sha256\":"@ + jw(a.copybook_sha) + ",\"expanded_copybook_sha256\":"@ + jw(a.expanded_sha)
        + ",\"layout_hash\":"@ + jw(a.layout_sha) + ",\"record_count\":"@ + dec_nat(a.record_count)
        + ",\"field_count\":"@ + dec_nat(a.field_count) + ",\"condition_count\":"@ + dec_nat(a.condition_count)
        + ",\"unsupported_count\":"@ + dec_nat(a.unsupported_count) + ",\"gnucobol_rs_version\":"@ + jw(a.version)
        + ",\"kobold_data_shim_version\":"@ + jw(SHIM_VERSION@) + ",\"decode_output_sha256\":"@ + jw(a.output_sha)
        + a.notes + ",\"stale_copybook_risk\":"@ + jw(STALE_COPYBOOK_RISK@) + ",\"byte_stable_replay\":true}\n"@
}

/// The binary, COMP-6 and encoding notes of the receipt, in that order.
pub open spec fn notes_spec(cb: Copybook, enc: Encoding) -> Seq<char> {
    let up = upper_seq(expanded_text(cb));
    (if has_binary(up) { BINARY_NOTE@ } else { Seq::<char>::empty() }) + (if has_comp6(up) {
        COMP6_NOTE@
    } else {
        Seq::<char>::empty()
    }) + (if enc == Encoding::Cp500 { CP500_NOTE@ } else { Seq::<char>::empty() })
}

pub open spec fn unsupported_overflow() -> ShimErrorView {
    ShimErrorView::Layout("unsupported count exceeds the usize range"@)
}

/// What reconciliation produces once the program is parsed and admitted.
pub open spec fn recon_body(fixture: Seq<char>, cb: Copybook, data: Seq<u8>, record_len: nat, version: Seq<char>, enc: Encoding, p: ProgramView) -> Result<ReconView, ShimErrorView> {
    let chunks = chunks_spec(data, record_len);
    let objs = objs_spec(p, chunks, record_len, enc);
    let total = total_unsupported(objs, objs.len());
    let fs0 = if chunks.len() > 0 { fields_spec(p, chunks[0], enc) } else { Seq::<FieldView>::empty() };
    let cc = if chunks.len() > 0 { conds_spec(p, chunks[0], enc).len() } else { 0 };
    let items = if objs.len() > 0 { objs[0].names } else { Seq::<Seq<char>>::empty() };
    let jsonl = jsonl_spec(objs, objs.len());
    if total > usize::MAX {
        Err(unsupported_overflow())
    } else {
        Ok(ReconView {
            jsonl: jsonl,
            audit_json: audit_spec(AuditFacts {
                fixture: fixture,
                data_sha: spec_sha256_hex(data),
                copybook_sha: spec_sha256_hex(bytes_of(cb.source@)),
                expanded_sha: spec_sha256_hex(bytes_of(expanded_text(cb))),
                layout_sha: spec_sha256_hex(bytes_of(layout_sig(fs0, fs0.len()))),
                record_count: chunks.len(),
                field_count: non_group_count(fs0, fs0.len()),
                condition_count: cc,
                unsupported_count: total,
                version: version,
                output_sha: spec_sha256_hex(bytes_of(jsonl)),
                notes: notes_spec(cb, enc),
            }),
            unsupported_json: unsupported_json_spec(items, total),
            record_count: chunks.len(),
            unsupported_count: total,
        })
    }
}

/// What [`reconcile_encoded`] returns.
pub open spec fn recon_spec(fixture: Seq<char>, cb: Copybook, data: Seq<u8>, record_len: usize, version: Seq<char>, enc: Encoding) -> Result<ReconView, ShimErrorView> {
    if record_len == 0 {
        Err(ShimErrorView::Layout("record_len must be > 0"@))
    } else {
        match program_spec(cb) {
            Err(e) => Err(e),
            Ok(p) => match collision_check(p) {
                Err(e) => Err(e),
                Ok(_) => recon_body(fixture, cb, data, record_len as nat, version, enc, p),
            },
        }
    }
}

fn layout_facts(fields: &Vec<DecodedField>) -> (r: (String, usize))
    ensures
        r.0@ == layout_sig(fields_view(fields@), fields@.len()),
        r.1 as nat == non_group_count(fields_view(fields@), fields@.len()),
{
    let ghost fs = fields_view(fields@);
    let mut sig = String::new();
    let mut count: usize = 0;
    let mut i: usize = 0;
    while i < fields.len()
        invariant
            i <= fields@.len(),
            fs == fields_view(fields@),
            sig@ == layout_sig(fs, i as nat),
            count as nat == non_group_count(fs, i as nat),
            count <= i,
        decreases fields@.len() - i,
    {
        let f = &fields[i];
        assert(fs[i as int] == field_view(*f));
        sig.append(f.name.as_str());
        push_lit(&mut sig, ":");
        push_usize(&mut sig, f.offset);
        push_lit(&mut sig, ":");
        push_usize(&mut sig, f.size);
        push_lit(&mut sig, ";");
        if !crate::text::str_eq(f.category, "group") {
            count = count + 1;
        }
        i += 1;
    }
    (sig, count)
}

proof fn lemma_total_grows(objs: Seq<RecordObjectView>, a: nat, b: nat)
    requires
        a <= b <= objs.len(),
    ensures
        total_unsupported(objs, a) <= total_unsupported(objs, b),
    decreases b - a,
{
    if a < b {
        lemma_total_grows(objs, a, (b - 1) as nat);
    }
}

fn receipt_notes(cb: &Copybook, enc: Encoding) -> (r: (String, String))
    ensures
        r.0@ == expanded_text(*cb),
        r.1@ == notes_spec(*cb, enc),
{
    let mut text = String::new();
    push_joined_sep(&mut text, &cb.lines, "\n");
    assert(strs_view(cb.lines@) =~= lines_view(cb.lines@));
    let chars = chars_of(text.as_str());
    let up = upper_chars(&chars);
    let binary = contains_chars(&up, "COMP-5") || contains_chars(&up, "COMP-X") || contains_chars(&up, " COMP.")
        || contains_chars(&up, " COMP\n") || contains_chars(&up, "BINARY") || contains_chars(&up, "COMPUTATIONAL");
    let comp6 = contains_chars(&up, "COMP-6") || contains_chars(&up, "COMPUTATIONAL-6");
    let mut notes = String::new();
    if binary {
        push_lit(&mut notes, BINARY_NOTE);
    }
    if comp6 {
        push_lit(&mut notes, COMP6_NOTE);
    }
    if enc == Encoding::Cp500 {
        push_lit(&mut notes, CP500_NOTE);
    }
    assert(notes@ =~= notes_spec(*cb, enc));
    (text, notes)
}

#[verifier::rlimit(30)]
fn audit_text(
    fixture: &str,
    data_sha: &String,
    copybook_sha: &String,
    expanded_sha: &String,
    layout_sha: &String,
    record_count: usize,
    field_count: usize,
    condition_count: usize,
    unsupported_count: usize,
    version: &str,
    output_sha: &String,
    notes: &String,
) -> (r: String)
    ensures
        r@ == audit_spec(
            AuditFacts {
                fixture: fixture@,
                data_sha: data_sha@,
                copybook_sha: copybook_sha@,
                expanded_sha: expanded_sha@,
                layout_sha: layout_sha@,
                record_count: record_count as nat,
                field_count: field_count as nat,
                condition_count: condition_count as nat,
                unsupported_count: unsupported_count as nat,
                version: version@,
                output_sha: output_sha@,
                notes: notes@,
            },
        ),
{
    let mut a = String::new();
    push_lit(&mut a, "{\"schema\":\"kobold-recon-receipt-v1\",\"fixture\":");
    push_jw(&mut a, fixture);
    push_lit(&mut a, ",\"raw_input_sha256\":");
    push_jw(&mut a, data_sha.as_str());
    push_lit(&mut a, ",\"copybook_sha256\":");
    push_jw(&mut a, copybook_sha.as_str());
    push_lit(&mut a, ",\"expanded_copybook_sha256\":");
    push_jw(&mut a, expanded_sha.as_str());
    push_lit(&mut a, ",\"layout_hash\":");
    push_jw(&mut a, layout_sha.as_str());
    push_lit(&mut a, ",\"record_count\":");
    push_usize(&mut a, record_count);
    push_lit(&mut a, ",\"field_count\":");
    push_usize(&mut a, field_count);
    push_lit(&mut a, ",\"condition_count\":");
    push_usize(&mut a, condition_count);
    push_lit(&mut a, ",\"unsupported_count\":");
    push_usize(&mut a, unsupported_count);
    push_lit(&mut a, ",\"gnucobol_rs_version\":");
    push_jw(&mut a, version);
    push_lit(&mut a, ",\"kobold_data_shim_version\":");
    push_jw(&mut a, SHIM_VERSION);
    push_lit(&mut a, ",\"decode_output_sha256\":");
    push_jw(&mut a, output_sha.as_str());
    a.append(notes.as_str());
    push_lit(&mut a, ",\"stale_copybook_risk\":");
    push_jw(&mut a, STALE_COPYBOOK_RISK);
    push_lit(&mut a, ",\"byte_stable_replay\":true}\n");
    a
}

fn unsupported_text(items: &Vec<String>, total: usize) -> (r: String)
    ensures
        r@ == unsupported_json_spec(strs_view(items@), total as nat),
{
    let ghost iv = strs_view(items@);
    let ghost want = iv.map_values(|u: Seq<char>| jw(u));
    let mut quoted: Vec<String> = Vec::new();
    let mut i: usize = 0;
    while i < items.len()
        invariant
            i <= items@.len(),
            iv == strs_view(items@),
            want == iv.map_values(|u: Seq<char>| jw(u)),
            strs_view(quoted@) == want.take(i as int),
        decreases items@.len() - i,
    {
        let mut q = String::new();
        push_jw(&mut q, items[i].as_str());
        proof {
            lemma_strs_push(quoted@, q);
        }
        quoted.push(q);
        assert(want.take(i + 1) =~= want.take(i as int).push(q@));
        i += 1;
    }
    assert(want.take(i as int) =~= want);
    let mut u = String::new();
    push_lit(&mut u, "{\"unsupported\":[");
    push_joined(&mut u, &quoted);
    push_lit(&mut u, "],\"unsupported_count\":");
    push_usize(&mut u, total);
    push_lit(&mut u, "}\n");
    u
}

#[verifier::rlimit(60)]
fn reconcile_impl(
    fixture: &str,
    cb: &Copybook,
    data: &[u8],
    record_len: usize,
    gnucobol_rs_version: &str,
    encoding: Encoding,
    parallel: bool,
) -> (r: Result<ReconResult, ShimError>)
    ensures
        match r {
            Ok(v) => recon_spec(fixture@, *cb, data@, record_len, gnucobol_rs_version@, encoding) == Ok::<ReconView, ShimErrorView>(recon_view(v)),
            Err(e) => recon_spec(fixture@, *cb, data@, record_len, gnucobol_rs_version@, encoding) == Err::<ReconView, ShimErrorView>(shim_error_view(e)),
        },
{
    if record_len == 0 {
        return Err(ShimError::Layout(String::from_str("record_len must be > 0")));
    }
    let prog = parse_program(cb)?;
    check_collisions(&prog)?;
    let ghost pv = program_view(prog);
    let (expanded, notes) = receipt_notes(cb, encoding);
    let chunks = split_records(data, record_len);
    let ghost cv = slices_view(chunks@);
    let record_count = chunks.len();
    let mut layout = String::new();
    let mut field_count: usize = 0;
    let mut condition_count: usize = 0;
    if chunks.len() > 0 {
        let fields0 = decode_fields(&prog, chunks[0], encoding);
        let (sig, fc) = layout_facts(&fields0);
        layout = sig;
        field_count = fc;
        condition_count = eval_conditions(&prog, chunks[0], encoding).len();
    }
    let objects = build_objects(&prog, &chunks, record_len, encoding, parallel);
    let ghost ov = objs_view(objects@);
    let mut jsonl = String::new();
    let mut total: usize = 0;
    let mut i: usize = 0;
    while i < objects.len()
        invariant
            i <= objects@.len(),
            ov == objs_view(objects@),
            ov == objs_spec(pv, chunks_spec(data@, record_len as nat), record_len as nat, encoding),
            record_len > 0,
            program_spec(*cb) == Ok::<ProgramView, ShimErrorView>(pv),
            collision_check(pv) == Ok::<(), ShimErrorView>(()),
            jsonl@ == jsonl_spec(ov, i as nat),
            total as nat == total_unsupported(ov, i as nat),
        decreases objects@.len() - i,
    {
        assert(ov[i as int] == record_object_view(objects@[i as int]));
        jsonl.append(objects[i].obj.as_str());
        push_lit(&mut jsonl, "\n");
        match total.checked_add(objects[i].unsupported_count) {
            Some(t) => {
                total = t;
            },
            None => {
                proof {
                    lemma_total_grows(ov, (i + 1) as nat, ov.len());
                }
                return Err(ShimError::Layout(String::from_str("unsupported count exceeds the usize range")));
            },
        }
        i += 1;
    }
    let unsupported_json = if objects.len() > 0 {
        assert(ov[0] == record_object_view(objects@[0]));
        unsupported_text(&objects[0].unsupported_names, total)
    } else {
        let empty: Vec<String> = Vec::new();
        assert(strs_view(empty@) =~= Seq::<Seq<char>>::empty());
        unsupported_text(&empty, total)
    };
    let data_sha = sha256_hex(data);
    let copybook_sha = sha256_hex(cb.source.as_str().as_bytes());
    let expanded_sha = sha256_hex(expanded.as_str().as_bytes());
    let layout_sha = sha256_hex(layout.as_str().as_bytes());
    let output_sha = sha256_hex(jsonl.as_str().as_bytes());
    let audit_json = audit_text(
        fixture,
        &data_sha,
        &copybook_sha,
        &expanded_sha,
        &layout_sha,
        record_count,
        field_count,
        condition_count,
        total,
        gnucobol_rs_version,
        &output_sha,
        &notes,
    );
    Ok(ReconResult { jsonl, audit_json, unsupported_json, record_count, unsupported_count: total })
}

/// Reconcile a fixed-record buffer of ASCII records. `fixture` names the dataset in the audit;
/// `gnucobol_rs_version` records the pinned kernel version. A trailing partial record is decoded
/// as a short record.
pub fn reconcile(fixture: &str, cb: &Copybook, data: &[u8], record_len: usize, gnucobol_rs_version: &str) -> (r: Result<ReconResult, ShimError>)
    ensures
        match r {
            Ok(v) => recon_spec(fixture@, *cb, data@, record_len, gnucobol_rs_version@, Encoding::Ascii) == Ok::<ReconView, ShimErrorView>(recon_view(v)),
            Err(e) => recon_spec(fixture@, *cb, data@, record_len, gnucobol_rs_version@, Encoding::Ascii) == Err::<ReconView, ShimErrorView>(shim_error_view(e)),
        },
{
    reconcile_encoded(fixture, cb, data, record_len, gnucobol_rs_version, Encoding::Ascii)
}

/// Reconcile under an explicit encoding. The encoding is recorded in the audit; it is never
/// auto-detected.
pub fn reconcile_encoded(
    fixture: &str,
    cb: &Copybook,
    data: &[u8],
    record_len: usize,
    gnucobol_rs_version: &str,
    encoding: Encoding,
) -> (r: Result<ReconResult, ShimError>)
    ensures
        match r {
            Ok(v) => recon_spec(fixture@, *cb, data@, record_len, gnucobol_rs_version@, encoding) == Ok::<ReconView, ShimErrorView>(recon_view(v)),
            Err(e) => recon_spec(fixture@, *cb, data@, record_len, gnucobol_rs_version@, encoding) == Err::<ReconView, ShimErrorView>(shim_error_view(e)),
        },
{
    reconcile_impl(fixture, cb, data, record_len, gnucobol_rs_version, encoding, false)
}

/// [`reconcile_encoded`] with the records decoded across rayon's thread pool. The outputs are the
/// ones `reconcile_encoded` gives for the same inputs: the same JSONL, receipt, ledger and hashes.
pub fn reconcile_encoded_parallel(
    fixture: &str,
    cb: &Copybook,
    data: &[u8],
    record_len: usize,
    gnucobol_rs_version: &str,
    encoding: Encoding,
) -> (r: Result<ReconResult, ShimError>)
    ensures
        match r {
            Ok(v) => recon_spec(fixture@, *cb, data@, record_len, gnucobol_rs_version@, encoding) == Ok::<ReconView, ShimErrorView>(recon_view(v)),
            Err(e) => recon_spec(fixture@, *cb, data@, record_len, gnucobol_rs_version@, encoding) == Err::<ReconView, ShimErrorView>(shim_error_view(e)),
        },
{
    reconcile_impl(fixture, cb, data, record_len, gnucobol_rs_version, encoding, true)
}

proof fn lemma_object_shape(fs: Seq<FieldView>, cs: Seq<CondView>, index: nat, record_len: nat, chunk: Seq<u8>)
    ensures
        ({
            let o = record_object_spec(fs, cs, index, record_len, chunk).obj;
            let head = "{\"record_index\":"@ + dec_nat(index) + ",\"fields\":{"@;
            let audit = "},\"audit\":{\"raw_offset\":"@ + dec_nat(index * record_len) + ",\"raw_len\":"@ + dec_nat(chunk.len());
            &&& head.len() <= o.len() && o.take(head.len() as int) == head
            &&& crate::text::contains_sub(o, audit)
        }),
{
    let o = record_object_spec(fs, cs, index, record_len, chunk).obj;
    let fa = field_acc(fs, fs.len());
    let head = "{\"record_index\":"@ + dec_nat(index) + ",\"fields\":{"@;
    let audit = "},\"audit\":{\"raw_offset\":"@ + dec_nat(index * record_len) + ",\"raw_len\":"@ + dec_nat(chunk.len());
    let pre = head + join_comma(fa.entries) + "},\"conditions\":{"@ + join_comma(cond_entries(cs, cs.len()));
    assert(o.take(head.len() as int) =~= head);
    assert(o.subrange(pre.len() as int, pre.len() + audit.len() as int) =~= audit);
    assert(crate::text::occurs_at(o, audit, pre.len() as int));
}

/// Encoded reconciliation refuses a zero record length, then a copybook whose laid-out fields
/// that decode to a value share a name; otherwise, unless the unsupported count overflows, it
/// yields one JSONL line per fixed record (the last may be short), in record order: line `i`
/// begins with its record index and carries the record's raw offset `i * record_len` and length
/// in its audit; the unsupported count is the sum of every record's unsupported fields and
/// conditions.
pub proof fn lemma_encoded_reconciliation(fixture: Seq<char>, cb: Copybook, data: Seq<u8>, record_len: usize, version: Seq<char>, enc: Encoding)
    ensures
        record_len == 0 ==> recon_spec(fixture, cb, data, record_len, version, enc) == Err::<ReconView, ShimErrorView>(
            ShimErrorView::Layout("record_len must be > 0"@),
        ),
        record_len > 0 ==> (program_spec(cb) matches Ok(p) && exists|i: int|
            0 <= i < p.laid.len() && crate::operator::keyed(p, #[trigger] p.laid[i].name) && crate::operator::named_twice(
                p.laid,
                p.laid[i].name,
            )) ==> recon_spec(fixture, cb, data, record_len, version, enc) matches Err(ShimErrorView::BadItem(_)),
        recon_spec(fixture, cb, data, record_len, version, enc) matches Ok(r) ==> {
            let p = program_spec(cb)->Ok_0;
            let chunks = chunks_spec(data, record_len as nat);
            let objs = objs_spec(p, chunks, record_len as nat, enc);
            &&& r.record_count == chunks.len()
            &&& r.record_count == (data.len() + record_len - 1) / (record_len as int)
            &&& r.jsonl == jsonl_spec(objs, objs.len())
            &&& objs.len() == chunks.len()
            &&& forall|i: int| 0 <= i < objs.len() ==> {
                let head = "{\"record_index\":"@ + dec_nat(i as nat) + ",\"fields\":{"@;
                &&& head.len() <= objs[i].obj.len() && (#[trigger] objs[i]).obj.take(head.len() as int) == head
                &&& crate::text::contains_sub(
                    objs[i].obj,
                    "},\"audit\":{\"raw_offset\":"@ + dec_nat((i * record_len) as nat) + ",\"raw_len\":"@ + dec_nat(chunks[i].len()),
                )
                &&& objs[i].count == objs[i].names.len()
            }
            &&& r.unsupported_count == total_unsupported(objs, objs.len())
        },
{
    if record_len > 0 {
        crate::posting::lemma_chunk_count(data, record_len as nat);
        if let Ok(p) = program_spec(cb) {
            crate::operator::lemma_collision_exactly_on_shared_names(p);
            let chunks = chunks_spec(data, record_len as nat);
            let objs = objs_spec(p, chunks, record_len as nat, enc);
            assert forall|i: int| 0 <= i < objs.len() implies {
                let head = "{\"record_index\":"@ + dec_nat(i as nat) + ",\"fields\":{"@;
                &&& head.len() <= objs[i].obj.len() && (#[trigger] objs[i]).obj.take(head.len() as int) == head
                &&& crate::text::contains_sub(
                    objs[i].obj,
                    "},\"audit\":{\"raw_offset\":"@ + dec_nat((i * record_len) as nat) + ",\"raw_len\":"@ + dec_nat(chunks[i].len()),
                )
                &&& objs[i].count == objs[i].names.len()
            } by {
                lemma_object_shape(fields_spec(p, chunks[i], enc), conds_spec(p, chunks[i], enc), i as nat, record_len as nat, chunks[i]);
                assert((i as nat) * (record_len as nat) == (i * record_len) as nat);
            }
        }
    }
}

} // verus!
