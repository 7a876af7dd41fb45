//! Operator views: make every decoded field accountable.
//!
//! Each value must be explainable from source provenance, raw bytes, sealed courts and receipt
//! hashes, while dirty or unsupported data remains preserved evidence rather than coerced output:
//! - [`explain_field`]: provenance, bytes, courts and value of one field;
//! - [`control_totals`]: record count, per-field numeric sums, condition counts, dirty/unsupported;
//! - [`DirtyMode`]: `Evidence` preserves invalid bytes as marked evidence; `Strict` errors out.
use crate::cobol::{COB_FLAG_NO_SIGN_NIBBLE, COB_TYPE_NUMERIC_PACKED, FieldAttr};
use crate::decode::{
    attrs_view, chunks_spec, cond_views, conds_spec, decode_fields, eval_conditions, field_slice, field_view,
    fields_spec, fields_view, find_attr, lemma_chunks_step, lemma_skip_head, lookup_attr, lookup_meta, metas_view,
    parse_program, program_spec, program_view, shim_error_view, slice_of, Category, CondView, Copybook,
    DecodedCondition, DecodedField, Encoding, FieldMeta, FieldView, MetaView, Program, ProgramView, ShimError,
    ShimErrorView,
};
use crate::sha256::{sha256_hex, spec_sha256_hex};
use crate::text::{
    bool_text, debug_str, dec_nat, jstr_spec, join_comma, join_sep, lemma_strs_push, push_bool, push_joined,
    push_joined_sep, push_jstr_ws, push_lit, push_usize, spec_debug_str, str_eq, strs_view,
};
use vstd::prelude::*;

verus! {

/// How to treat field bytes that are invalid for their declared type.
#[derive(Debug, Clone, Copy, PartialEq, Eq, Structural)]
pub enum DirtyMode {
    /// Preserve the raw bytes and mark the field invalid; never coerce (the default).
    Evidence,
    /// Reject the record: any invalid field is a hard error.
    Strict,
}

impl Default for DirtyMode {
    fn default() -> (m: Self)
        ensures
            m == DirtyMode::Evidence,
    {
        DirtyMode::Evidence
    }
}

/// The stale-copybook risk statement carried in operator receipts.
pub const STALE_COPYBOOK_RISK: &'static str = "Decoding proves what the ADMITTED copybook says these bytes mean; it does not prove the copybook is the one production used, nor that the data is current, complete, lawful, or business-valid. Verify with source provenance and control totals across record families.";

/// The JSON string literal used by the operator views (short escapes for `\n`, `\r`, `\t`).
pub open spec fn jw(s: Seq<char>) -> Seq<char> {
    jstr_spec(s, true)
}

pub fn push_jw(out: &mut String, s: &str)
    ensures
        final(out)@ == old(out)@ + jw(s@),
{
    push_jstr_ws(out, s, true);
}

// ----------------------------------------------------------------------------------------------
// Dirty-data detection
// ----------------------------------------------------------------------------------------------

/// COMP-6 (unsigned packed): every nibble is a digit; no sign nibble.
pub open spec fn comp6_valid_spec(b: Seq<u8>) -> bool {
    b.len() > 0 && forall|i: int| 0 <= i < b.len() ==> #[trigger] b[i] / 16 <= 9 && b[i] % 16 <= 9
}

/// COMP-3: every nibble is a digit except the final (sign) nibble, which must be `A`..`F`.
pub open spec fn packed_valid_spec(b: Seq<u8>) -> bool {
    b.len() > 0 && forall|i: int|
        0 <= i < b.len() ==> #[trigger] b[i] / 16 <= 9 && (if i == b.len() - 1 {
            b[i] % 16 >= 10
        } else {
            b[i] % 16 <= 9
        })
}

pub open spec fn is_ascii_digit(b: u8) -> bool {
    0x30 <= b && b <= 0x39
}

/// Zoned DISPLAY: every byte is an ASCII digit, except that the last may carry an ASCII
/// overpunch (`0x70..=0x79`, `{`, `}`).
pub open spec fn display_num_valid_spec(b: Seq<u8>) -> bool {
    b.len() > 0 && forall|i: int|
        0 <= i < b.len() ==> (if i == b.len() - 1 {
            is_ascii_digit(#[trigger] b[i]) || (0x70 <= b[i] && b[i] <= 0x79) || b[i] == 0x7b || b[i] == 0x7d
        } else {
            is_ascii_digit(b[i])
        })
}

/// Whether bytes are a valid value for their declared field type: any bytes are text; numeric
/// fields are checked by their storage domain (binary accepts every pattern); anything else is
/// not a decoded value.
pub open spec fn field_valid_spec(ft: u16, flags: u16, category: Seq<char>, b: Seq<u8>) -> bool {
    if category == "alphanumeric"@ {
        true
    } else if category == "numeric"@ {
        if ft == COB_TYPE_NUMERIC_PACKED && flags & COB_FLAG_NO_SIGN_NIBBLE != 0 {
            comp6_valid_spec(b)
        } else if ft == COB_TYPE_NUMERIC_PACKED {
            packed_valid_spec(b)
        } else if ft == 0x11 {
            true
        } else {
            display_num_valid_spec(b)
        }
    } else {
        false
    }
}

fn comp6_valid(b: &[u8]) -> (r: bool)
    ensures
        r == comp6_valid_spec(b@),
{
    if b.len() == 0 {
        return false;
    }
    let mut i: usize = 0;
    while i < b.len()
        invariant
            i <= b@.len(),
            forall|k: int| 0 <= k < i ==> #[trigger] b@[k] / 16 <= 9 && b@[k] % 16 <= 9,
        decreases b@.len() - i,
    {
        if !(b[i] / 16 <= 9 && b[i] % 16 <= 9) {
            return false;
        }
        i += 1;
    }
    true
}

fn packed_valid(b: &[u8]) -> (r: bool)
    ensures
        r == packed_valid_spec(b@),
{
    if b.len() == 0 {
        return false;
    }
    let last = b.len() - 1;
    let mut i: usize = 0;
    while i < b.len()
        invariant
            i <= b@.len(),
            last == b@.len() - 1,
            forall|k: int|
                0 <= k < i ==> #[trigger] b@[k] / 16 <= 9 && (if k == b@.len() - 1 {
                    b@[k] % 16 >= 10
                } else {
                    b@[k] % 16 <= 9
                }),
        decreases b@.len() - i,
    {
        let x = b[i];
        if x / 16 > 9 {
            return false;
        }
        if i == last {
            if x % 16 < 10 {
                return false;
            }
        } else if x % 16 > 9 {
            return false;
        }
        i += 1;
    }
    true
}

fn display_num_valid(b: &[u8]) -> (r: bool)
    ensures
        r == display_num_valid_spec(b@),
{
    if b.len() == 0 {
        return false;
    }
    let last = b.len() - 1;
    let mut i: usize = 0;
    while i < b.len()
        invariant
            i <= b@.len(),
            last == b@.len() - 1,
            forall|k: int|
                0 <= k < i ==> (if k == b@.len() - 1 {
                    is_ascii_digit(#[trigger] b@[k]) || (0x70 <= b@[k] && b@[k] <= 0x79) || b@[k] == 0x7b || b@[k] == 0x7d
                } else {
                    is_ascii_digit(b@[k])
                }),
        decreases b@.len() - i,
    {
        let x = b[i];
        let digit = 0x30 <= x && x <= 0x39;
        let overpunch = (0x70 <= x && x <= 0x79) || x == 0x7b || x == 0x7d;
        if i == last {
            if !(digit || overpunch) {
                return false;
            }
        } else if !digit {
            return false;
        }
        i += 1;
    }
    true
}

/// Whether bytes are a valid value for their declared type (see [`field_valid_spec`]).
pub fn field_valid(field_type: u16, flags: u16, category: &str, bytes: &[u8]) -> (r: bool)
    ensures
        r == field_valid_spec(field_type, flags, category@, bytes@),
{
    if str_eq(category, "alphanumeric") {
        true
    } else if str_eq(category, "numeric") {
        if field_type == COB_TYPE_NUMERIC_PACKED && flags & COB_FLAG_NO_SIGN_NIBBLE != 0 {
            comp6_valid(bytes)
        } else if field_type == COB_TYPE_NUMERIC_PACKED {
            packed_valid(bytes)
        } else if field_type == 0x11 {
            true
        } else {
            display_num_valid(bytes)
        }
    } else {
        false
    }
}

// ----------------------------------------------------------------------------------------------
// The evidence trail
// ----------------------------------------------------------------------------------------------

/// The sealed courts that produced a field's value.
pub open spec fn sealed_courts_spec(ft: u16, category: Seq<char>, used_copy: bool, has_conds: bool, enc: Encoding) -> Seq<Seq<char>> {
    let base = seq!["PIC (GNURUST.3)"@, "LAYOUT (GNURUST.4)"@];
    let c1 = if used_copy { base.push("COPY/REPLACING (GNURUST.5/6)"@) } else { base };
    let c2 = if category == "numeric"@ {
        if ft == COB_TYPE_NUMERIC_PACKED {
            c1.push("COMP-3 MOVE (GNURUST.2)"@)
        } else if ft == 0x11 {
            c1.push("binary storage (GNURUST.14)"@)
        } else {
            c1.push("display MOVE (GNURUST.2)"@)
        }
    } else if category == "alphanumeric"@ {
        if enc == Encoding::Cp500 {
            c1.push("EBCDIC cp500 decode (GNURUST.15)"@)
        } else {
            c1.push("text (ASCII)"@)
        }
    } else {
        c1
    };
    if has_conds { c2.push("LEVEL-88 (GNURUST.11)"@) } else { c2 }
}

fn push_lit_vec(v: &mut Vec<String>, s: &str)
    ensures
        strs_view(final(v)@) == strs_view(old(v)@).push(s@),
{
    let e = String::from_str(s);
    proof {
        lemma_strs_push(v@, e);
    }
    v.push(e);
}

pub fn sealed_courts(ft: u16, category: &str, used_copy: bool, has_conds: bool, enc: Encoding) -> (r: Vec<String>)
    ensures
        strs_view(r@) == sealed_courts_spec(ft, category@, used_copy, has_conds, enc),
{
    let mut c: Vec<String> = Vec::new();
    push_lit_vec(&mut c, "PIC (GNURUST.3)");
    push_lit_vec(&mut c, "LAYOUT (GNURUST.4)");
    if used_copy {
        push_lit_vec(&mut c, "COPY/REPLACING (GNURUST.5/6)");
    }
    if str_eq(category, "numeric") {
        if ft == COB_TYPE_NUMERIC_PACKED {
            push_lit_vec(&mut c, "COMP-3 MOVE (GNURUST.2)");
        } else if ft == 0x11 {
            push_lit_vec(&mut c, "binary storage (GNURUST.14)");
        } else {
            push_lit_vec(&mut c, "display MOVE (GNURUST.2)");
        }
    } else if str_eq(category, "alphanumeric") {
        if enc == Encoding::Cp500 {
            push_lit_vec(&mut c, "EBCDIC cp500 decode (GNURUST.15)");
        } else {
            push_lit_vec(&mut c, "text (ASCII)");
        }
    }
    if has_conds {
        push_lit_vec(&mut c, "LEVEL-88 (GNURUST.11)");
    }
    assert(strs_view(c@) =~= sealed_courts_spec(ft, category@, used_copy, has_conds, enc));
    c
}

// ----------------------------------------------------------------------------------------------
// JSON key collisions
// ----------------------------------------------------------------------------------------------

/// Laid-out items that decode to a value (those with declared attributes).
pub open spec fn keyed(p: ProgramView, name: Seq<char>) -> bool {
    lookup_attr(p.attrs, name) is Some
}

/// How many keyed laid-out items carry this name.
pub open spec fn key_count(p: ProgramView, laid: Seq<crate::cobol::LaidView>, name: Seq<char>) -> nat
    decreases laid.len(),
{
    if laid.len() == 0 {
        0
    } else {
        key_count(p, laid.drop_last(), name) + if laid.last().name == name && keyed(p, name) { 1nat } else { 0nat }
    }
}

/// The colliding names, in order of first appearance, each once.
pub open spec fn collisions_upto(p: ProgramView, n: nat) -> Seq<Seq<char>>
    decreases n,
{
    if n == 0 || n > p.laid.len() {
        seq![]
    } else {
        let d = collisions_upto(p, (n - 1) as nat);
        let name = p.laid[n - 1].name;
        if keyed(p, name) && key_count(p, p.laid, name) >= 2 && !d.contains(name) {
            d.push(name)
        } else {
            d
        }
    }
}

pub open spec fn collisions(p: ProgramView) -> Seq<Seq<char>> {
    collisions_upto(p, p.laid.len())
}

pub open spec fn collision_msg(d: Seq<Seq<char>>) -> Seq<char> {
    "JSON key collision: duplicate field name(s) "@ + "["@ + join_sep(d.map_values(|n: Seq<char>| spec_debug_str(n)), ", "@)
        + "]"@ + " \u{2014} qualify or rename (flattening is opt-in, never silent)"@
}

/// The collision refusal of a program: two keyed fields with one name would clobber each other in
/// a flat JSON object.
pub open spec fn collision_check(p: ProgramView) -> Result<(), ShimErrorView> {
    if collisions(p).len() > 0 {
        Err(ShimErrorView::BadItem(collision_msg(collisions(p))))
    } else {
        Ok(())
    }
}

fn key_count_exec(prog: &Program, name: &String) -> (n: usize)
    ensures
        n == key_count(program_view(*prog), program_view(*prog).laid, name@),
{
    let ghost pv = program_view(*prog);
    let keyed_name = find_attr(&prog.attrs, name).is_some();
    let mut n: usize = 0;
    let mut i: usize = 0;
    while i < prog.laid.len()
        invariant
            i <= prog.laid@.len(),
            pv == program_view(*prog),
            keyed_name == keyed(pv, name@),
            n == key_count(pv, pv.laid.take(i as int), name@),
            n <= i,
        decreases prog.laid@.len() - i,
    {
        assert(pv.laid.take(i + 1).drop_last() =~= pv.laid.take(i as int));
        if keyed_name && str_eq(prog.laid[i].name.as_str(), name.as_str()) {
            n += 1;
        }
        i += 1;
    }
    assert(pv.laid.take(i as int) =~= pv.laid);
    n
}

fn contains_name(v: &Vec<String>, s: &String) -> (r: bool)
    ensures
        r == strs_view(v@).contains(s@),
{
    let ghost sv = strs_view(v@);
    let mut i: usize = 0;
    while i < v.len()
        invariant
            i <= v@.len(),
            sv == strs_view(v@),
            forall|k: int| 0 <= k < i ==> sv[k] != s@,
        decreases v@.len() - i,
    {
        if str_eq(v[i].as_str(), s.as_str()) {
            assert(sv[i as int] == s@);
            return true;
        }
        i += 1;
    }
    false
}

/// Refuse silent JSON key collisions of a parsed program.
pub fn check_collisions(prog: &Program) -> (r: Result<(), ShimError>)
    ensures
        match r {
            Ok(_) => collision_check(program_view(*prog)) == Ok::<(), ShimErrorView>(()),
            Err(e) => collision_check(program_view(*prog)) == Err::<(), ShimErrorView>(shim_error_view(e)),
        },
{
    let ghost pv = program_view(*prog);
    let mut dups: Vec<String> = Vec::new();
    let mut i: usize = 0;
    assert(strs_view(dups@) =~= seq![]);
    while i < prog.laid.len()
        invariant
            i <= prog.laid@.len(),
            pv == program_view(*prog),
            strs_view(dups@) == collisions_upto(pv, i as nat),
        decreases prog.laid@.len() - i,
    {
        let name = &prog.laid[i].name;
        assert(pv.laid[i as int].name == name@);
        if find_attr(&prog.attrs, name).is_some() && key_count_exec(prog, name) >= 2 && !contains_name(&dups, name) {
            let c = name.clone();
            proof {
                lemma_strs_push(dups@, c);
            }
            dups.push(c);
        }
        i += 1;
    }
    if dups.len() > 0 {
        let mut parts: Vec<String> = Vec::new();
        let mut j: usize = 0;
        while j < dups.len()
            invariant
                j <= dups@.len(),
                strs_view(parts@) == strs_view(dups@).map_values(|n: Seq<char>| spec_debug_str(n)).take(j as int),
            decreases dups@.len() - j,
        {
            let d = debug_str(dups[j].as_str());
            proof {
                lemma_strs_push(parts@, d);
            }
            parts.push(d);
            assert(strs_view(dups@).map_values(|n: Seq<char>| spec_debug_str(n)).take(j + 1) =~= strs_view(dups@).map_values(
                |n: Seq<char>| spec_debug_str(n),
            ).take(j as int).push(d@));
            j += 1;
        }
        assert(strs_view(dups@).map_values(|n: Seq<char>| spec_debug_str(n)).take(j as int) =~= strs_view(dups@).map_values(
            |n: Seq<char>| spec_debug_str(n),
        ));
        let mut m = String::from_str("JSON key collision: duplicate field name(s) ");
        push_lit(&mut m, "[");
        push_joined_sep(&mut m, &parts, ", ");
        push_lit(&mut m, "]");
        push_lit(&mut m, " \u{2014} qualify or rename (flattening is opt-in, never silent)");
        assert(m@ =~= collision_msg(collisions(pv)));
        return Err(ShimError::BadItem(m));
    }
    Ok(())
}

/// Parse a copybook and refuse silent JSON key collisions.
pub fn check_copybook_collisions(cb: &Copybook) -> (r: Result<(), ShimError>)
    ensures
        match r {
            Ok(_) => program_spec(*cb) is Ok && collision_check(program_spec(*cb)->Ok_0) == Ok::<(), ShimErrorView>(()),
            Err(e) => match program_spec(*cb) {
                Err(pe) => pe == shim_error_view(e),
                Ok(p) => collision_check(p) == Err::<(), ShimErrorView>(shim_error_view(e)),
            },
        },
{
    let prog = parse_program(cb)?;
    check_collisions(&prog)
}


// ----------------------------------------------------------------------------------------------
// Explaining one field
// ----------------------------------------------------------------------------------------------

pub open spec fn category_text(c: Category) -> Seq<char> {
    match c {
        Category::Numeric => "numeric"@,
        Category::Alphanumeric => "alphanumeric"@,
        Category::Edited => "edited"@,
        Category::Unsupported => "unsupported"@,
    }
}

pub fn category_str(c: Category) -> (s: &'static str)
    ensures
        s@ == category_text(c),
{
    match c {
        Category::Numeric => "numeric",
        Category::Alphanumeric => "alphanumeric",
        Category::Edited => "edited",
        Category::Unsupported => "unsupported",
    }
}

/// The decoded conditions whose parent is `field`, in declaration order.
pub open spec fn dependent(conds: Seq<CondView>, field: Seq<char>) -> Seq<CondView>
    decreases conds.len(),
{
    if conds.len() == 0 {
        seq![]
    } else {
        let d = dependent(conds.drop_last(), field);
        if conds.last().parent == field { d.push(conds.last()) } else { d }
    }
}

pub open spec fn cond_entry(c: CondView) -> Seq<char> {
    jw(c.name) + ":"@ + match c.value {
        Some(b) => bool_text(b),
        None => "null"@,
    }
}

pub open spec fn enc_text(enc: Encoding) -> Seq<char> {
    if enc == Encoding::Cp500 { "cp500"@ } else { "ascii"@ }
}

pub open spec fn provenance_text(m: Option<MetaView>) -> Seq<char> {
    match m {
        Some(mv) => "\"provenance\":{\"copybook\":"@ + jw(mv.file) + ",\"line\":"@ + dec_nat(mv.line) + "},\"usage\":"@ + jw(
            mv.usage,
        ) + ",\"pic\":"@ + jw(mv.pic) + ","@,
        None => seq![],
    }
}

/// The attributes the explanation reports: type tag, flags and category (`group` when the field
/// has no declared attributes).
pub open spec fn explained_attrs(p: ProgramView, field: Seq<char>) -> (u16, u16, Seq<char>) {
    match lookup_attr(p.attrs, field) {
        Some((a, c)) => (a.field_type, a.flags, category_text(c)),
        None => (0, 0, "group"@),
    }
}

pub open spec fn explain_json(
    p: ProgramView,
    record: Seq<u8>,
    field: Seq<char>,
    l: crate::cobol::LaidView,
    df: FieldView,
    enc: Encoding,
) -> Seq<char> {
    let deps = dependent(conds_spec(p, record, enc), field);
    let (ft, fl, cat) = explained_attrs(p, field);
    let valid = match field_slice(record, l.offset, l.size) {
        Some(b) => field_valid_spec(ft, fl, cat, b),
        None => false,
    };
    let courts = sealed_courts_spec(ft, cat, p.used_copy, deps.len() > 0, enc);
    "{\"field\":"@ + jw(field) + ","@ + provenance_text(lookup_meta(p.meta, field)) + "\"level\":"@ + dec_nat(l.level as nat)
        + ",\"offset\":"@ + dec_nat(l.offset as nat) + ",\"size\":"@ + dec_nat(l.size as nat) + ",\"category\":"@ + jw(cat)
        + ",\"raw_bytes\":"@ + jw(df.raw_hex) + ",\"decoded_value\":"@ + jw(df.value) + ",\"valid\":"@ + bool_text(valid)
        + ",\"sealed_courts\":["@ + join_comma(courts.map_values(|c: Seq<char>| jw(c))) + "],\"dependent_conditions\":{"@
        + join_comma(deps.map_values(|c: CondView| cond_entry(c))) + "},\"record_sha256\":"@ + jw(spec_sha256_hex(record))
        + ",\"encoding\":"@ + jw(enc_text(enc))
        + ",\"non_claims\":[\"no business-truth claim\",\"no arithmetic transformation applied\","@ + jw(
        "decoded only through sealed gnucobol-rs courts"@,
    ) + "],\"stale_copybook_risk\":"@ + jw(STALE_COPYBOOK_RISK@) + "}\n"@
}

/// The explanation of one field of one record, or why there is none.
pub open spec fn explain_spec(cb: Copybook, record: Seq<u8>, field: Seq<char>, enc: Encoding) -> Result<Seq<char>, ShimErrorView> {
    match program_spec(cb) {
        Err(e) => Err(e),
        Ok(p) => match collision_check(p) {
            Err(e) => Err(e),
            Ok(_) => match crate::decode::first_laid(p.laid, field) {
                None => Err(ShimErrorView::BadItem("no field named "@ + field)),
                Some(l) => match crate::batch_control::first_field(fields_spec(p, record, enc), field) {
                    None => Err(ShimErrorView::BadItem("field "@ + field + " not decoded"@)),
                    Some(df) => Ok(explain_json(p, record, field, l, df, enc)),
                },
            },
        },
    }
}

pub fn find_meta(meta: &Vec<(String, FieldMeta)>, name: &str) -> (r: Option<usize>)
    ensures
        match r {
            Some(i) => i < meta@.len() && lookup_meta(metas_view(meta@), name@) == Some(metas_view(meta@)[i as int].1),
            None => lookup_meta(metas_view(meta@), name@) is None,
        },
{
    let ghost mv = metas_view(meta@);
    let mut i = meta.len();
    assert(mv.take(i as int) =~= mv);
    while i > 0
        invariant
            i <= meta@.len(),
            mv == metas_view(meta@),
            lookup_meta(mv.take(i as int), name@) == lookup_meta(mv, name@),
        decreases i,
    {
        assert(mv.take(i as int).drop_last() =~= mv.take(i - 1));
        assert(mv.take(i as int).last() == mv[i - 1]);
        if str_eq(meta[i - 1].0.as_str(), name) {
            return Some(i - 1);
        }
        i -= 1;
    }
    None
}

fn find_field_idx(fields: &Vec<DecodedField>, name: &str) -> (r: Option<usize>)
    ensures
        match r {
            Some(i) => i < fields@.len() && crate::batch_control::first_field(fields_view(fields@), name@) == Some(
                fields_view(fields@)[i as int],
            ),
            None => crate::batch_control::first_field(fields_view(fields@), name@) is None,
        },
{
    let ghost fv = fields_view(fields@);
    let mut i: usize = 0;
    assert(fv.skip(0) =~= fv);
    while i < fields.len()
        invariant
            i <= fields@.len(),
            fv == fields_view(fields@),
            crate::batch_control::first_field(fv.skip(i as int), name@) == crate::batch_control::first_field(fv, name@),
        decreases fields@.len() - i,
    {
        assert(fv.skip(i as int).drop_first() =~= fv.skip(i + 1));
        assert(fv.skip(i as int)[0] == fv[i as int]);
        if str_eq(fields[i].name.as_str(), name) {
            return Some(i);
        }
        i += 1;
    }
    assert(fv.skip(i as int).len() == 0);
    None
}

fn dependent_entries(conds: &Vec<DecodedCondition>, field: &str) -> (r: Vec<String>)
    ensures
        strs_view(r@) == dependent(cond_views(conds@), field@).map_values(|c: CondView| cond_entry(c)),
{
    let ghost cv = cond_views(conds@);
    let mut r: Vec<String> = Vec::new();
    let mut i: usize = 0;
    assert(dependent(cv.take(0), field@).map_values(|c: CondView| cond_entry(c)) =~= seq![]);
    while i < conds.len()
        invariant
            i <= conds@.len(),
            cv == cond_views(conds@),
            strs_view(r@) == dependent(cv.take(i as int), field@).map_values(|c: CondView| cond_entry(c)),
        decreases conds@.len() - i,
    {
        assert(cv.take(i + 1).drop_last() =~= cv.take(i as int));
        let c = &conds[i];
        if str_eq(c.parent.as_str(), field) {
            let mut e = String::new();
            push_jw(&mut e, c.name.as_str());
            push_lit(&mut e, ":");
            match c.value {
                Some(b) => push_bool(&mut e, b),
                None => push_lit(&mut e, "null"),
            }
            proof {
                lemma_strs_push(r@, e);
            }
            r.push(e);
            assert(dependent(cv.take(i + 1), field@).map_values(|c: CondView| cond_entry(c)) =~= dependent(
                cv.take(i as int),
                field@,
            ).map_values(|c: CondView| cond_entry(c)).push(e@));
        } else {
            assert(dependent(cv.take(i + 1), field@) =~= dependent(cv.take(i as int), field@));
        }
        i += 1;
    }
    assert(cv.take(i as int) =~= cv);
    r
}

fn jw_list(v: &Vec<String>) -> (r: Vec<String>)
    ensures
        strs_view(r@) == strs_view(v@).map_values(|c: Seq<char>| jw(c)),
{
    let mut r: Vec<String> = Vec::new();
    let mut i: usize = 0;
    while i < v.len()
        invariant
            i <= v@.len(),
            strs_view(r@) == strs_view(v@).map_values(|c: Seq<char>| jw(c)).take(i as int),
        decreases v@.len() - i,
    {
        let mut e = String::new();
        push_jw(&mut e, v[i].as_str());
        proof {
            lemma_strs_push(r@, e);
        }
        r.push(e);
        assert(strs_view(v@).map_values(|c: Seq<char>| jw(c)).take(i + 1) =~= strs_view(v@).map_values(|c: Seq<char>| jw(c)).take(
            i as int,
        ).push(e@));
        i += 1;
    }
    assert(strs_view(v@).map_values(|c: Seq<char>| jw(c)).take(i as int) =~= strs_view(v@).map_values(|c: Seq<char>| jw(c)));
    r
}

fn push_provenance(o: &mut String, prog: &Program, field: &str)
    ensures
        final(o)@ == old(o)@ + provenance_text(lookup_meta(program_view(*prog).meta, field@)),
{
    match find_meta(&prog.meta, field) {
        Some(k) => {
            let m = &prog.meta[k].1;
            push_lit(o, "\"provenance\":{\"copybook\":");
            push_jw(o, m.source_file.as_str());
            push_lit(o, ",\"line\":");
            push_usize(o, m.source_line);
            push_lit(o, "},\"usage\":");
            push_jw(o, m.usage.as_str());
            push_lit(o, ",\"pic\":");
            push_jw(o, m.pic.as_str());
            push_lit(o, ",");
        },
        None => {},
    }
    assert(final(o)@ =~= old(o)@ + provenance_text(lookup_meta(program_view(*prog).meta, field@)));
}

#[verifier::rlimit(60)]
fn explain_body(
    prog: &Program,
    record: &[u8],
    field: &str,
    li: usize,
    df: &DecodedField,
    conds: &Vec<DecodedCondition>,
    enc: Encoding,
) -> (o: String)
    requires
        li < prog.laid@.len(),
        cond_views(conds@) == conds_spec(program_view(*prog), record@, enc),
    ensures
        o@ == explain_json(program_view(*prog), record@, field@, crate::cobol::laid_view(prog.laid@[li as int]), field_view(*df), enc),
{
    let ghost pv = program_view(*prog);
    let l = &prog.laid[li];
    let deps = dependent_entries(conds, field);
    let fname = String::from_str(field);
    let (ft, fl, cat): (u16, u16, &'static str) = match find_attr(&prog.attrs, &fname) {
        Some((a, c)) => (a.field_type, a.flags, category_str(c)),
        None => (0, 0, "group"),
    };
    let valid = match slice_of(record, l.offset, l.size) {
        Some(b) => field_valid(ft, fl, cat, b),
        None => false,
    };
    let courts = sealed_courts(ft, cat, prog.used_copy, deps.len() > 0, enc);
    let cj = jw_list(&courts);
    let mut o = String::new();
    push_lit(&mut o, "{\"field\":");
    push_jw(&mut o, field);
    push_lit(&mut o, ",");
    push_provenance(&mut o, prog, field);
    push_lit(&mut o, "\"level\":");
    push_usize(&mut o, l.level as usize);
    push_lit(&mut o, ",\"offset\":");
    push_usize(&mut o, l.offset);
    push_lit(&mut o, ",\"size\":");
    push_usize(&mut o, l.size);
    push_lit(&mut o, ",\"category\":");
    push_jw(&mut o, cat);
    push_lit(&mut o, ",\"raw_bytes\":");
    push_jw(&mut o, df.raw_hex.as_str());
    push_lit(&mut o, ",\"decoded_value\":");
    push_jw(&mut o, df.value.as_str());
    push_lit(&mut o, ",\"valid\":");
    push_bool(&mut o, valid);
    push_lit(&mut o, ",\"sealed_courts\":[");
    push_joined(&mut o, &cj);
    push_lit(&mut o, "],\"dependent_conditions\":{");
    push_joined(&mut o, &deps);
    push_lit(&mut o, "},\"record_sha256\":");
    let h = sha256_hex(record);
    push_jw(&mut o, h.as_str());
    push_lit(&mut o, ",\"encoding\":");
    push_jw(&mut o, if enc == Encoding::Cp500 { "cp500" } else { "ascii" });
    push_lit(&mut o, ",\"non_claims\":[\"no business-truth claim\",\"no arithmetic transformation applied\",");
    push_jw(&mut o, "decoded only through sealed gnucobol-rs courts");
    push_lit(&mut o, "],\"stale_copybook_risk\":");
    push_jw(&mut o, STALE_COPYBOOK_RISK);
    push_lit(&mut o, "}\n");
    assert(o@ =~= explain_json(pv, record@, field@, crate::cobol::laid_view(prog.laid@[li as int]), field_view(*df), enc));
    o
}

/// Explain one decoded field of one record: provenance, bytes, sealed courts, decoded value,
/// dependent conditions, record hash and the explicit non-claims, as a JSON object.
pub fn explain_field(cb: &Copybook, record: &[u8], field: &str, encoding: Encoding) -> (r: Result<String, ShimError>)
    ensures
        match r {
            Ok(o) => explain_spec(*cb, record@, field@, encoding) == Ok::<Seq<char>, ShimErrorView>(o@),
            Err(e) => explain_spec(*cb, record@, field@, encoding) == Err::<Seq<char>, ShimErrorView>(shim_error_view(e)),
        },
{
    let prog = parse_program(cb)?;
    check_collisions(&prog)?;
    let fname = String::from_str(field);
    let li = match crate::decode::find_laid(&prog.laid, &fname) {
        Some(i) => i,
        None => {
            let mut m = String::from_str("no field named ");
            m.append(field);
            return Err(ShimError::BadItem(m));
        },
    };
    let fields = decode_fields(&prog, record, encoding);
    let k = match find_field_idx(&fields, field) {
        Some(k) => k,
        None => {
            let mut m = String::from_str("field ");
            m.append(field);
            push_lit(&mut m, " not decoded");
            return Err(ShimError::BadItem(m));
        },
    };
    let conds = eval_conditions(&prog, record, encoding);
    Ok(explain_body(&prog, record, field, li, &fields[k], &conds, encoding))
}

// ----------------------------------------------------------------------------------------------
// Sorted association lists (keys ordered as strings compare)
// ----------------------------------------------------------------------------------------------

/// Lexicographic order of character sequences (the order of `String` keys).
pub open spec fn str_lt(a: Seq<char>, b: Seq<char>) -> bool
    decreases a.len(),
{
    if a.len() == 0 {
        b.len() > 0
    } else if b.len() == 0 {
        false
    } else if a[0] != b[0] {
        (a[0] as int) < (b[0] as int)
    } else {
        str_lt(a.drop_first(), b.drop_first())
    }
}


/// No text orders before itself.
pub proof fn lemma_str_lt_irrefl(a: Seq<char>)
    ensures
        !str_lt(a, a),
    decreases a.len(),
{
    if a.len() > 0 {
        lemma_str_lt_irrefl(a.drop_first());
    }
}

/// The order of texts is transitive.
pub proof fn lemma_str_lt_trans(a: Seq<char>, b: Seq<char>, c: Seq<char>)
    requires
        str_lt(a, b),
        str_lt(b, c),
    ensures
        str_lt(a, c),
    decreases a.len(),
{
    if a.len() > 0 && b.len() > 0 && c.len() > 0 && a[0] == b[0] && b[0] == c[0] {
        lemma_str_lt_trans(a.drop_first(), b.drop_first(), c.drop_first());
    }
}

/// Of two different texts, one orders before the other.
pub proof fn lemma_str_lt_total(a: Seq<char>, b: Seq<char>)
    requires
        a != b,
    ensures
        str_lt(a, b) || str_lt(b, a),
    decreases a.len(),
{
    if a.len() > 0 && b.len() > 0 && a[0] == b[0] {
        if a.drop_first() == b.drop_first() {
            assert(a =~= seq![a[0]] + a.drop_first());
            assert(b =~= seq![b[0]] + b.drop_first());
        }
        lemma_str_lt_total(a.drop_first(), b.drop_first());
    } else if a.len() == 0 && b.len() == 0 {
        assert(a =~= b);
    }
}

/// The code point of a character.
fn char_code(c: char) -> (r: u32)
    ensures
        r as int == c as int,
{
    c as u32
}

pub fn str_lt_exec(a: &str, b: &str) -> (r: bool)
    ensures
        r == str_lt(a@, b@),
{
    let x = crate::text::chars_of(a);
    let y = crate::text::chars_of(b);
    let mut i: usize = 0;
    assert(x@.skip(0) =~= x@);
    assert(y@.skip(0) =~= y@);
    while i < x.len() && i < y.len() && x[i] == y[i]
        invariant
            i <= x@.len(),
            i <= y@.len(),
            x@ == a@,
            y@ == b@,
            str_lt(x@.skip(i as int), y@.skip(i as int)) == str_lt(a@, b@),
        decreases x@.len() - i,
    {
        assert(x@.skip(i as int).drop_first() =~= x@.skip(i + 1));
        assert(y@.skip(i as int).drop_first() =~= y@.skip(i + 1));
        i += 1;
    }
    if i == x.len() {
        i < y.len()
    } else if i == y.len() {
        false
    } else {
        assert(x@.skip(i as int)[0] == x@[i as int]);
        assert(y@.skip(i as int)[0] == y@[i as int]);
        char_code(x[i]) < char_code(y[i])
    }
}

/// Insert-or-update in a key-ordered association list: an existing key is updated in place; a
/// new key is inserted before the first larger key.
pub open spec fn upsert<T>(list: Seq<(Seq<char>, T)>, key: Seq<char>, fresh: T, upd: spec_fn(T) -> T) -> Seq<(Seq<char>, T)>
    decreases list.len(),
{
    if list.len() == 0 {
        seq![(key, fresh)]
    } else if list[0].0 == key {
        seq![(key, upd(list[0].1))] + list.drop_first()
    } else if str_lt(key, list[0].0) {
        seq![(key, fresh)] + list
    } else {
        seq![list[0]] + upsert(list.drop_first(), key, fresh, upd)
    }
}

proof fn lemma_upsert_skip<T>(list: Seq<(Seq<char>, T)>, key: Seq<char>, fresh: T, upd: spec_fn(T) -> T, i: int)
    requires
        0 <= i <= list.len(),
        forall|j: int| 0 <= j < i ==> list[j].0 != key && !str_lt(key, #[trigger] list[j].0),
    ensures
        upsert(list, key, fresh, upd) == list.take(i) + upsert(list.skip(i), key, fresh, upd),
    decreases i,
{
    if i > 0 {
        assert(list[0].0 != key && !str_lt(key, list[0].0));
        let rest = list.drop_first();
        assert forall|j: int| 0 <= j < i - 1 implies rest[j].0 != key && !str_lt(key, #[trigger] rest[j].0) by {
            assert(rest[j] == list[j + 1]);
        }
        lemma_upsert_skip(rest, key, fresh, upd, i - 1);
        assert(rest.skip(i - 1) =~= list.skip(i));
        assert(seq![list[0]] + rest.take(i - 1) =~= list.take(i));
    } else {
        assert(list.skip(0) =~= list);
        assert(list.take(0) =~= Seq::<(Seq<char>, T)>::empty());
    }
}

/// The sum entry update: saturating add of the value, larger scale.
pub open spec fn sat_i128(x: int) -> int {
    if x > i128::MAX { i128::MAX as int } else if x < i128::MIN { i128::MIN as int } else { x }
}

pub open spec fn sum_upd(v: int, sc: i32) -> spec_fn((int, i32)) -> (int, i32) {
    |e: (int, i32)| (sat_i128(e.0 + v), if e.1 > sc { e.1 } else { sc })
}

pub open spec fn sums_view(v: Seq<(String, (i128, i32))>) -> Seq<(Seq<char>, (int, i32))> {
    v.map_values(|e: (String, (i128, i32))| (e.0@, (e.1.0 as int, e.1.1)))
}

pub open spec fn counts_view(v: Seq<(String, u64)>) -> Seq<(Seq<char>, nat)> {
    v.map_values(|e: (String, u64)| (e.0@, e.1 as nat))
}

fn key_pos<T>(list: &Vec<(String, T)>, key: &str) -> (r: (usize, bool))
    ensures
        r.0 <= list@.len(),
        forall|j: int| 0 <= j < r.0 ==> list@[j].0@ != key@ && !str_lt(key@, #[trigger] list@[j].0@),
        r.1 ==> r.0 < list@.len() && list@[r.0 as int].0@ == key@,
        !r.1 ==> (r.0 == list@.len() || (list@[r.0 as int].0@ != key@ && str_lt(key@, list@[r.0 as int].0@))),
{
    let mut i: usize = 0;
    while i < list.len()
        invariant
            i <= list@.len(),
            forall|j: int| 0 <= j < i ==> list@[j].0@ != key@ && !str_lt(key@, #[trigger] list@[j].0@),
        decreases list@.len() - i,
    {
        if str_eq(list[i].0.as_str(), key) {
            return (i, true);
        }
        if str_lt_exec(key, list[i].0.as_str()) {
            return (i, false);
        }
        i += 1;
    }
    (i, false)
}

fn add_sum(sums: &mut Vec<(String, (i128, i32))>, key: &str, v: i128, sc: i32)
    ensures
        sums_view(final(sums)@) == upsert(sums_view(old(sums)@), key@, (v as int, sc), sum_upd(v as int, sc)),
{
    let ghost sv = sums_view(sums@);
    let (i, found) = key_pos(sums, key);
    proof {
        assert forall|j: int| 0 <= j < i implies sv[j].0 != key@ && !str_lt(key@, #[trigger] sv[j].0) by {
            assert(sv[j].0 == sums@[j].0@);
        }
        lemma_upsert_skip(sv, key@, (v as int, sc), sum_upd(v as int, sc), i as int);
    }
    if found {
        let (s0, c0) = sums[i].1;
        let ns = match s0.checked_add(v) {
            Some(x) => x,
            None => if v > 0 { i128::MAX } else { i128::MIN },
        };
        let nc = if c0 > sc { c0 } else { sc };
        let k = sums[i].0.clone();
        sums.set(i, (k, (ns, nc)));
        proof {
            assert(sv.skip(i as int)[0] == sv[i as int]);
            assert(sv.skip(i as int).drop_first() =~= sv.skip(i + 1));
        }
        assert(sums_view(sums@) =~= sv.take(i as int) + upsert(sv.skip(i as int), key@, (v as int, sc), sum_upd(v as int, sc)));
    } else {
        sums.insert(i, (String::from_str(key), (v, sc)));
        proof {
            if i < sv.len() {
                assert(sv.skip(i as int)[0] == sv[i as int]);
            } else {
                assert(sv.skip(i as int).len() == 0);
            }
        }
        assert(sums_view(sums@) =~= sv.take(i as int) + upsert(sv.skip(i as int), key@, (v as int, sc), sum_upd(v as int, sc)));
    }
}

/// Count one more true `key` (`None` when that count would leave `u64`).
pub open spec fn count_up(list: Seq<(Seq<char>, nat)>, key: Seq<char>) -> Option<Seq<(Seq<char>, nat)>>
    decreases list.len(),
{
    if list.len() == 0 {
        Some(seq![(key, 1nat)])
    } else if list[0].0 == key {
        if list[0].1 + 1 > u64::MAX {
            None
        } else {
            Some(seq![(key, list[0].1 + 1)] + list.drop_first())
        }
    } else if str_lt(key, list[0].0) {
        Some(seq![(key, 1nat)] + list)
    } else {
        match count_up(list.drop_first(), key) {
            Some(r) => Some(seq![list[0]] + r),
            None => None,
        }
    }
}

proof fn lemma_count_up_skip(list: Seq<(Seq<char>, nat)>, key: Seq<char>, i: int)
    requires
        0 <= i <= list.len(),
        forall|j: int| 0 <= j < i ==> list[j].0 != key && !str_lt(key, #[trigger] list[j].0),
    ensures
        count_up(list, key) == (match count_up(list.skip(i), key) {
            Some(r) => Some(list.take(i) + r),
            None => None,
        }),
    decreases i,
{
    if i > 0 {
        assert(list[0].0 != key && !str_lt(key, list[0].0));
        let rest = list.drop_first();
        assert forall|j: int| 0 <= j < i - 1 implies rest[j].0 != key && !str_lt(key, #[trigger] rest[j].0) by {
            assert(rest[j] == list[j + 1]);
        }
        lemma_count_up_skip(rest, key, i - 1);
        assert(rest.skip(i - 1) =~= list.skip(i));
        if let Some(r) = count_up(list.skip(i), key) {
            assert(seq![list[0]] + (rest.take(i - 1) + r) =~= list.take(i) + r);
        }
    } else {
        assert(list.skip(0) =~= list);
        if let Some(r) = count_up(list, key) {
            assert(list.take(0) + r =~= r);
        }
    }
}

fn add_count(counts: &mut Vec<(String, u64)>, key: &str) -> (ok: bool)
    ensures
        match count_up(counts_view(old(counts)@), key@) {
            Some(l) => ok && counts_view(final(counts)@) == l,
            None => !ok,
        },
{
    let ghost cv = counts_view(counts@);
    let (i, found) = key_pos(counts, key);
    proof {
        assert forall|j: int| 0 <= j < i implies cv[j].0 != key@ && !str_lt(key@, #[trigger] cv[j].0) by {
            assert(cv[j].0 == counts@[j].0@);
        }
        lemma_count_up_skip(cv, key@, i as int);
        if i < cv.len() {
            assert(cv.skip(i as int)[0] == cv[i as int]);
            assert(cv.skip(i as int).drop_first() =~= cv.skip(i + 1));
        } else {
            assert(cv.skip(i as int).len() == 0);
        }
    }
    if found {
        let c = counts[i].1;
        if c == u64::MAX {
            return false;
        }
        let k = counts[i].0.clone();
        counts.set(i, (k, c + 1));
        assert(counts_view(counts@) =~= cv.take(i as int) + (seq![(key@, (c + 1) as nat)] + cv.skip(i + 1)));
        true
    } else {
        counts.insert(i, (String::from_str(key), 1));
        assert(counts_view(counts@) =~= cv.take(i as int) + (seq![(key@, 1nat)] + cv.skip(i as int)));
        true
    }
}


// ----------------------------------------------------------------------------------------------
// Control totals
// ----------------------------------------------------------------------------------------------

/// A decoded numeric value as `(scaled integer, fraction digits)`: leading signs skipped (a
/// leading `-` negates), digits with at most one `.`; `None` when a non-digit remains or the digits
/// leave the 128-bit range. The empty text is `(0, 0)`.
pub open spec fn val_to_scaled_spec(s: Seq<char>) -> Option<(int, i32)> {
    let neg = s.len() > 0 && s[0] == '-';
    let t = crate::banking::strip_signs(s);
    let d = crate::banking::dot_at(t);
    let ip = if d < t.len() { t.take(d) } else { t };
    let fp = if d < t.len() { t.skip(d + 1) } else { Seq::<char>::empty() };
    if !crate::copybook::all_digits(ip + fp) || crate::copybook::digits_value(ip + fp) > i128::MAX {
        None
    } else {
        let v = crate::copybook::digits_value(ip + fp) as int;
        Some((if neg { -v } else { v }, fp.len() as i32))
    }
}

pub fn val_to_scaled(s: &str) -> (r: Option<(i128, i32)>)
    ensures
        match val_to_scaled_spec(s@) {
            Some((v, sc)) => r == Some((v as i128, sc)),
            None => r is None,
        },
{
    let all = crate::text::chars_of(s);
    let neg = all.len() > 0 && all[0] == '-';
    let k = crate::banking::strip_signs_len(&all);
    let ghost t = all@.skip(k as int);
    let mut d = k;
    while d < all.len() && all[d] != '.'
        invariant
            k <= d <= all@.len(),
            t == all@.skip(k as int),
            crate::batch_control::find_dot(t, (d - k) as int) == crate::banking::dot_at(t),
        decreases all@.len() - d,
    {
        d += 1;
    }
    let fp_start = if d < all.len() { d + 1 } else { all.len() };
    proof {
        if d < all.len() {
            assert(t[(d - k) as int] == all@[d as int]);
        }
    }
    let mut digits: Vec<char> = Vec::new();
    let mut i = k;
    while i < d
        invariant
            k <= i <= d <= all@.len(),
            digits@ == all@.subrange(k as int, i as int),
        decreases d - i,
    {
        digits.push(all[i]);
        assert(all@.subrange(k as int, i + 1) =~= all@.subrange(k as int, i as int).push(all@[i as int]));
        i += 1;
    }
    let mut j = fp_start;
    while j < all.len()
        invariant
            fp_start <= j <= all@.len(),
            digits@ == all@.subrange(k as int, d as int) + all@.subrange(fp_start as int, j as int),
        decreases all@.len() - j,
    {
        digits.push(all[j]);
        assert(all@.subrange(fp_start as int, j + 1) =~= all@.subrange(fp_start as int, j as int).push(all@[j as int]));
        j += 1;
    }
    let ghost ip = if (d - k) < t.len() { t.take((d - k) as int) } else { t };
    let ghost fp = if (d - k) < t.len() { t.skip((d - k) as int + 1) } else { Seq::<char>::empty() };
    assert(ip =~= all@.subrange(k as int, d as int));
    assert(fp =~= all@.subrange(fp_start as int, all@.len() as int));
    assert(digits@ =~= ip + fp);
    match crate::batch_control::digits_i128(&digits) {
        None => None,
        Some(v) => {
            let flen = all.len() - fp_start;
            Some((if neg { -v } else { v }, #[verifier::truncate] (flen as i32)))
        },
    }
}

/// The rendering of a field sum: a plain integer at scale `<= 0`, else the decimal at that scale
/// (`None` when `10^scale` leaves the 128-bit range).
pub open spec fn fmt_sum_spec(v: int, sc: i32) -> Option<Seq<char>> {
    if sc <= 0 {
        Some(crate::text::dec_int(v))
    } else {
        crate::batch_control::fmt_dec_opt(v, sc as u32)
    }
}

fn fmt_sum(v: i128, sc: i32) -> (r: Option<String>)
    ensures
        match fmt_sum_spec(v as int, sc) {
            Some(t) => r matches Some(x) && x@ == t,
            None => r is None,
        },
{
    if sc <= 0 {
        let mut s = String::new();
        crate::text::push_i128(&mut s, v);
        return Some(s);
    }
    crate::batch_control::fmt_dec(v, sc as u32)
}

pub struct CtAcc {
    pub count: nat,
    pub invalid: nat,
    pub unsupported: nat,
    pub sums: Seq<(Seq<char>, (int, i32))>,
    pub conds: Seq<(Seq<char>, nat)>,
}

/// One decoded field's effect on the totals (`None` when a count would leave `u64`).
pub open spec fn ct_field(acc: CtAcc, f: FieldView, chunk: Seq<u8>, p: ProgramView) -> Option<CtAcc> {
    if f.category == "numeric"@ {
        let (ft, fl): (u16, u16) = match lookup_attr(p.attrs, f.name) {
            Some((a, _)) => (a.field_type, a.flags),
            None => (0, 0),
        };
        let valid = match field_slice(chunk, f.offset, f.size) {
            Some(b) => field_valid_spec(ft, fl, "numeric"@, b),
            None => false,
        };
        if !valid {
            if acc.invalid + 1 > u64::MAX { None } else { Some(CtAcc { invalid: acc.invalid + 1, ..acc }) }
        } else {
            match val_to_scaled_spec(f.value) {
                Some((v, sc)) => Some(CtAcc { sums: upsert(acc.sums, f.name, (v, sc), sum_upd(v, sc)), ..acc }),
                None => Some(acc),
            }
        }
    } else if f.category == "unsupported"@ {
        if acc.unsupported + 1 > u64::MAX { None } else { Some(CtAcc { unsupported: acc.unsupported + 1, ..acc }) }
    } else {
        Some(acc)
    }
}

pub open spec fn ct_fields(acc: CtAcc, fs: Seq<FieldView>, chunk: Seq<u8>, p: ProgramView, n: nat) -> Option<CtAcc>
    decreases n,
{
    if n == 0 || n > fs.len() {
        Some(acc)
    } else {
        match ct_fields(acc, fs, chunk, p, (n - 1) as nat) {
            None => None,
            Some(a) => ct_field(a, fs[n - 1], chunk, p),
        }
    }
}

pub open spec fn ct_conds(acc: CtAcc, cs: Seq<CondView>, n: nat) -> Option<CtAcc>
    decreases n,
{
    if n == 0 || n > cs.len() {
        Some(acc)
    } else {
        match ct_conds(acc, cs, (n - 1) as nat) {
            None => None,
            Some(a) => if cs[n - 1].value == Some(true) {
                match count_up(a.conds, cs[n - 1].name) {
                    Some(l) => Some(CtAcc { conds: l, ..a }),
                    None => None,
                }
            } else {
                Some(a)
            },
        }
    }
}

/// One record's effect: its count, its fields, then its condition truths.
pub open spec fn ct_chunk(acc: CtAcc, chunk: Seq<u8>, p: ProgramView, enc: Encoding) -> Option<CtAcc> {
    if acc.count + 1 > u64::MAX {
        None
    } else {
        let fs = fields_spec(p, chunk, enc);
        match ct_fields(CtAcc { count: acc.count + 1, ..acc }, fs, chunk, p, fs.len()) {
            None => None,
            Some(a) => {
                let cs = conds_spec(p, chunk, enc);
                ct_conds(a, cs, cs.len())
            },
        }
    }
}

pub open spec fn ct_fold(chunks: Seq<Seq<u8>>, p: ProgramView, enc: Encoding, n: nat) -> Option<CtAcc>
    decreases n,
{
    if n == 0 || n > chunks.len() {
        Some(CtAcc { count: 0, invalid: 0, unsupported: 0, sums: seq![], conds: seq![] })
    } else {
        match ct_fold(chunks, p, enc, (n - 1) as nat) {
            None => None,
            Some(a) => ct_chunk(a, chunks[n - 1], p, enc),
        }
    }
}

/// The rendered sums, or `None` when a sum's scale cannot be rendered.
pub open spec fn sum_entries(sums: Seq<(Seq<char>, (int, i32))>) -> Option<Seq<Seq<char>>>
    decreases sums.len(),
{
    if sums.len() == 0 {
        Some(seq![])
    } else {
        match (sum_entries(sums.drop_last()), fmt_sum_spec(sums.last().1.0, sums.last().1.1)) {
            (Some(es), Some(t)) => Some(es.push(jw(sums.last().0) + ":"@ + jw(t))),
            _ => None,
        }
    }
}

pub open spec fn count_entries(conds: Seq<(Seq<char>, nat)>) -> Seq<Seq<char>> {
    conds.map_values(|e: (Seq<char>, nat)| jw(e.0) + ":"@ + dec_nat(e.1))
}

pub open spec fn totals_json(acc: CtAcc, sums: Seq<Seq<char>>, enc: Encoding) -> Seq<char> {
    "{\"record_count\":"@ + dec_nat(acc.count) + ",\"field_sums\":{"@ + join_comma(sums) + "},\"condition_true_counts\":{"@
        + join_comma(count_entries(acc.conds)) + "},\"invalid_field_count\":"@ + dec_nat(acc.invalid)
        + ",\"unsupported_field_count\":"@ + dec_nat(acc.unsupported) + ",\"encoding\":"@ + jw(enc_text(enc))
        + ",\"stale_copybook_risk\":"@ + jw(STALE_COPYBOOK_RISK@) + "}\n"@
}

pub open spec fn totals_overflow() -> ShimErrorView {
    ShimErrorView::Layout("control totals exceed the 64-bit counters or the 128-bit scale range"@)
}

/// The control totals of a fixed-record buffer, or why there are none.
pub open spec fn control_totals_spec(cb: Copybook, data: Seq<u8>, record_len: usize, enc: Encoding) -> Result<Seq<char>, ShimErrorView> {
    if record_len == 0 {
        Err(ShimErrorView::Layout("record_len must be > 0"@))
    } else {
        match program_spec(cb) {
            Err(e) => Err(e),
            Ok(p) => match collision_check(p) {
                Err(e) => Err(e),
                Ok(_) => {
                    let chunks = chunks_spec(data, record_len as nat);
                    match ct_fold(chunks, p, enc, chunks.len()) {
                        None => Err(totals_overflow()),
                        Some(acc) => match sum_entries(acc.sums) {
                            None => Err(totals_overflow()),
                            Some(es) => Ok(totals_json(acc, es, enc)),
                        },
                    }
                },
            },
        }
    }
}

pub struct CtState {
    pub count: u64,
    pub invalid: u64,
    pub unsupported: u64,
    pub sums: Vec<(String, (i128, i32))>,
    pub conds: Vec<(String, u64)>,
}

pub open spec fn ct_view(s: CtState) -> CtAcc {
    CtAcc {
        count: s.count as nat,
        invalid: s.invalid as nat,
        unsupported: s.unsupported as nat,
        sums: sums_view(s.sums@),
        conds: counts_view(s.conds@),
    }
}

fn ct_field_exec(st: &mut CtState, f: &DecodedField, chunk: &[u8], prog: &Program) -> (ok: bool)
    ensures
        match ct_field(ct_view(*old(st)), field_view(*f), chunk@, program_view(*prog)) {
            Some(a) => ok && ct_view(*final(st)) == a,
            None => !ok,
        },
{
    if str_eq(f.category, "numeric") {
        let (ft, fl): (u16, u16) = match find_attr(&prog.attrs, &f.name) {
            Some((a, _)) => (a.field_type, a.flags),
            None => (0, 0),
        };
        let valid = match slice_of(chunk, f.offset, f.size) {
            Some(b) => field_valid(ft, fl, "numeric", b),
            None => false,
        };
        if !valid {
            if st.invalid == u64::MAX {
                return false;
            }
            st.invalid = st.invalid + 1;
            return true;
        }
        match val_to_scaled(f.value.as_str()) {
            Some((v, sc)) => {
                add_sum(&mut st.sums, f.name.as_str(), v, sc);
            },
            None => {},
        }
        true
    } else if str_eq(f.category, "unsupported") {
        if st.unsupported == u64::MAX {
            return false;
        }
        st.unsupported = st.unsupported + 1;
        true
    } else {
        true
    }
}

proof fn lemma_ct_fields_none(acc: CtAcc, fs: Seq<FieldView>, chunk: Seq<u8>, p: ProgramView, a: nat, b: nat)
    requires
        a <= b <= fs.len(),
        ct_fields(acc, fs, chunk, p, a) is None,
    ensures
        ct_fields(acc, fs, chunk, p, b) is None,
    decreases b - a,
{
    if a < b {
        lemma_ct_fields_none(acc, fs, chunk, p, a, (b - 1) as nat);
    }
}

proof fn lemma_ct_conds_none(acc: CtAcc, cs: Seq<CondView>, a: nat, b: nat)
    requires
        a <= b <= cs.len(),
        ct_conds(acc, cs, a) is None,
    ensures
        ct_conds(acc, cs, b) is None,
    decreases b - a,
{
    if a < b {
        lemma_ct_conds_none(acc, cs, a, (b - 1) as nat);
    }
}

proof fn lemma_ct_fold_none(chunks: Seq<Seq<u8>>, p: ProgramView, enc: Encoding, a: nat, b: nat)
    requires
        a <= b <= chunks.len(),
        ct_fold(chunks, p, enc, a) is None,
    ensures
        ct_fold(chunks, p, enc, b) is None,
    decreases b - a,
{
    if a < b {
        lemma_ct_fold_none(chunks, p, enc, a, (b - 1) as nat);
    }
}

#[verifier::rlimit(40)]
fn ct_chunk_exec(st: &mut CtState, chunk: &[u8], prog: &Program, enc: Encoding) -> (ok: bool)
    ensures
        match ct_chunk(ct_view(*old(st)), chunk@, program_view(*prog), enc) {
            Some(a) => ok && ct_view(*final(st)) == a,
            None => !ok,
        },
{
    let ghost pv = program_view(*prog);
    if st.count == u64::MAX {
        return false;
    }
    st.count = st.count + 1;
    let fields = decode_fields(prog, chunk, enc);
    let ghost fs = fields_view(fields@);
    let ghost start = ct_view(*st);
    assert(start == (CtAcc { count: ct_view(*old(st)).count + 1, ..ct_view(*old(st)) }));
    let mut i: usize = 0;
    while i < fields.len()
        invariant
            i <= fields@.len(),
            pv == program_view(*prog),
            fs == fields_view(fields@),
            fs == fields_spec(pv, chunk@, enc),
            start == (CtAcc { count: ct_view(*old(st)).count + 1, ..ct_view(*old(st)) }),
            ct_view(*old(st)).count + 1 <= u64::MAX,
            ct_fields(start, fs, chunk@, pv, i as nat) == Some(ct_view(*st)),
        decreases fields@.len() - i,
    {
        assert(fs[i as int] == field_view(fields@[i as int]));
        if !ct_field_exec(st, &fields[i], chunk, prog) {
            proof {
                lemma_ct_fields_none(start, fs, chunk@, pv, (i + 1) as nat, fs.len());
            }
            return false;
        }
        i += 1;
    }
    assert(fs.len() == fields@.len());
    let conds = eval_conditions(prog, chunk, enc);
    let ghost cs = cond_views(conds@);
    let ghost mid = ct_view(*st);
    assert(ct_fields(start, fs, chunk@, pv, fs.len()) == Some(mid));
    let mut j: usize = 0;
    while j < conds.len()
        invariant
            j <= conds@.len(),
            cs == cond_views(conds@),
            cs == conds_spec(pv, chunk@, enc),
            pv == program_view(*prog),
            fs == fields_spec(pv, chunk@, enc),
            start == (CtAcc { count: ct_view(*old(st)).count + 1, ..ct_view(*old(st)) }),
            ct_view(*old(st)).count + 1 <= u64::MAX,
            ct_fields(start, fs, chunk@, pv, fs.len()) == Some(mid),
            ct_conds(mid, cs, j as nat) == Some(ct_view(*st)),
        decreases conds@.len() - j,
    {        let c = &conds[j];
        assert(cs[j as int] == crate::decode::cond_view(*c));
        if c.value == Some(true) {
            if !add_count(&mut st.conds, c.name.as_str()) {
                proof {
                    lemma_ct_conds_none(mid, cs, (j + 1) as nat, cs.len());
                }
                return false;
            }
        }
        j += 1;
    }
    true
}

fn sum_list(sums: &Vec<(String, (i128, i32))>) -> (r: Option<Vec<String>>)
    ensures
        match sum_entries(sums_view(sums@)) {
            Some(es) => r matches Some(v) && strs_view(v@) == es,
            None => r is None,
        },
{
    let ghost sv = sums_view(sums@);
    let mut out: Vec<String> = Vec::new();
    let mut i: usize = 0;
    assert(sv.take(0) =~= Seq::<(Seq<char>, (int, i32))>::empty());
    while i < sums.len()
        invariant
            i <= sums@.len(),
            sv == sums_view(sums@),
            sum_entries(sv.take(i as int)) == Some(strs_view(out@)),
        decreases sums@.len() - i,
    {
        assert(sv.take(i + 1).drop_last() =~= sv.take(i as int));
        assert(sv.take(i + 1).last() == sv[i as int]);
        let (v, sc) = sums[i].1;
        match fmt_sum(v, sc) {
            None => {
                proof {
                    lemma_sum_entries_none(sv, (i + 1) as nat);
                }
                return None;
            },
            Some(t) => {
                let mut e = String::new();
                push_jw(&mut e, sums[i].0.as_str());
                push_lit(&mut e, ":");
                push_jw(&mut e, t.as_str());
                proof {
                    lemma_strs_push(out@, e);
                }
                out.push(e);
            },
        }
        i += 1;
    }
    assert(sv.take(i as int) =~= sv);
    Some(out)
}

proof fn lemma_sum_entries_none(s: Seq<(Seq<char>, (int, i32))>, n: nat)
    requires
        n <= s.len(),
        sum_entries(s.take(n as int)) is None,
    ensures
        sum_entries(s) is None,
    decreases s.len() - n,
{
    if n < s.len() {
        assert(s.take(n + 1 as int).drop_last() =~= s.take(n as int));
        lemma_sum_entries_none(s, n + 1);
    } else {
        assert(s.take(n as int) =~= s);
    }
}

fn count_list(conds: &Vec<(String, u64)>) -> (r: Vec<String>)
    ensures
        strs_view(r@) == count_entries(counts_view(conds@)),
{
    let ghost ce = count_entries(counts_view(conds@));
    let mut out: Vec<String> = Vec::new();
    let mut i: usize = 0;
    while i < conds.len()
        invariant
            i <= conds@.len(),
            ce == count_entries(counts_view(conds@)),
            strs_view(out@) == ce.take(i as int),
        decreases conds@.len() - i,
    {
        let mut e = String::new();
        push_jw(&mut e, conds[i].0.as_str());
        push_lit(&mut e, ":");
        crate::text::push_u64(&mut e, conds[i].1);
        proof {
            lemma_strs_push(out@, e);
        }
        out.push(e);
        assert(ce.take(i + 1) =~= ce.take(i as int).push(e@));
        i += 1;
    }
    assert(ce.take(i as int) =~= ce);
    out
}

/// Control totals over a fixed-record buffer: record count, per numeric field the sum of its
/// valid values (keys in string order), per condition how often it was true, and the invalid and
/// unsupported field counts, as a JSON object.
#[verifier::rlimit(40)]
pub fn control_totals(cb: &Copybook, data: &[u8], record_len: usize, encoding: Encoding) -> (r: Result<String, ShimError>)
    ensures
        match r {
            Ok(o) => control_totals_spec(*cb, data@, record_len, encoding) == Ok::<Seq<char>, ShimErrorView>(o@),
            Err(e) => control_totals_spec(*cb, data@, record_len, encoding) == Err::<Seq<char>, ShimErrorView>(shim_error_view(e)),
        },
{
    if record_len == 0 {
        return Err(ShimError::Layout(String::from_str("record_len must be > 0")));
    }
    let prog = parse_program(cb)?;
    check_collisions(&prog)?;
    let ghost pv = program_view(prog);
    let ghost n = record_len as nat;
    let ghost chunks = chunks_spec(data@, n);
    let mut st = CtState { count: 0, invalid: 0, unsupported: 0, sums: Vec::new(), conds: Vec::new() };
    assert(Some(ct_view(st)) == ct_fold(chunks, pv, encoding, 0)) by {
        assert(sums_view(st.sums@) =~= seq![]);
        assert(counts_view(st.conds@) =~= seq![]);
    }
    let mut off: usize = 0;
    let mut idx: usize = 0;
    assert(data@.skip(0) =~= data@);
    assert(chunks.skip(0) =~= chunks);
    while off < data.len()
        invariant
            off <= data@.len(),
            record_len > 0,
            n == record_len as nat,
            chunks == chunks_spec(data@, n),
            pv == program_view(prog),
            program_spec(*cb) == Ok::<ProgramView, ShimErrorView>(pv),
            collision_check(pv) == Ok::<(), ShimErrorView>(()),
            idx <= chunks.len(),
            idx <= off,
            chunks_spec(data@.skip(off as int), n) == chunks.skip(idx as int),
            ct_fold(chunks, pv, encoding, idx as nat) == Some(ct_view(st)),
        decreases data@.len() - off,
    {
        let end = if data.len() - off <= record_len { data.len() } else { off + record_len };
        proof {
            lemma_chunks_step(data@, n, off as int);
            lemma_skip_head(chunks, idx as int, data@.subrange(off as int, end as int), chunks_spec(data@.skip(end as int), n));
        }
        let chunk = vstd::slice::slice_subrange(data, off, end);
        if !ct_chunk_exec(&mut st, chunk, &prog, encoding) {
            proof {
                assert(chunks[idx as int] == chunk@);
                assert(ct_fold(chunks, pv, encoding, (idx + 1) as nat) is None);
                lemma_ct_fold_none(chunks, pv, encoding, (idx + 1) as nat, chunks.len());
            }
            return Err(ShimError::Layout(String::from_str("control totals exceed the 64-bit counters or the 128-bit scale range")));
        }
        off = end;
        idx += 1;
    }
    assert(data@.skip(off as int).len() == 0);
    assert(chunks_spec(data@.skip(off as int), n) =~= seq![]);
    assert(idx == chunks.len());
    let sums = match sum_list(&st.sums) {
        Some(v) => v,
        None => {
            assert(ct_fold(chunks, pv, encoding, chunks.len()) == Some(ct_view(st)));
            assert(sum_entries(ct_view(st).sums) is None);
            return Err(ShimError::Layout(String::from_str("control totals exceed the 64-bit counters or the 128-bit scale range")));
        },
    };
    let counts = count_list(&st.conds);
    let mut o = String::new();
    push_lit(&mut o, "{\"record_count\":");
    crate::text::push_u64(&mut o, st.count);
    push_lit(&mut o, ",\"field_sums\":{");
    push_joined(&mut o, &sums);
    push_lit(&mut o, "},\"condition_true_counts\":{");
    push_joined(&mut o, &counts);
    push_lit(&mut o, "},\"invalid_field_count\":");
    crate::text::push_u64(&mut o, st.invalid);
    push_lit(&mut o, ",\"unsupported_field_count\":");
    crate::text::push_u64(&mut o, st.unsupported);
    push_lit(&mut o, ",\"encoding\":");
    push_jw(&mut o, if encoding == Encoding::Cp500 { "cp500" } else { "ascii" });
    push_lit(&mut o, ",\"stale_copybook_risk\":");
    push_jw(&mut o, STALE_COPYBOOK_RISK);
    push_lit(&mut o, "}\n");
    assert(o@ =~= totals_json(ct_view(st), strs_view(sums@), encoding));
    Ok(o)
}

// ----------------------------------------------------------------------------------------------
// Per-record JSON with dirty-data handling
// ----------------------------------------------------------------------------------------------

/// Whether a field is listed in a record object: numeric and alphanumeric fields are.
pub open spec fn listed(f: FieldView) -> bool {
    f.category == "numeric"@ || f.category == "alphanumeric"@
}

/// Whether a field's bytes are valid for the storage its attribute declares.
pub open spec fn fv_valid(f: FieldView, chunk: Seq<u8>, p: ProgramView) -> bool {
    let (ft, fl): (u16, u16) = match lookup_attr(p.attrs, f.name) {
        Some((a, _)) => (a.field_type, a.flags),
        None => (0, 0),
    };
    match field_slice(chunk, f.offset, f.size) {
        Some(b) => field_valid_spec(ft, fl, f.category, b),
        None => false,
    }
}

/// The `"name":"value"` entries of the listed fields among the first `n`.
pub open spec fn listed_entries(fs: Seq<FieldView>, n: nat) -> Seq<Seq<char>>
    decreases n,
{
    if n == 0 || n > fs.len() {
        seq![]
    } else {
        let prev = listed_entries(fs, (n - 1) as nat);
        if listed(fs[n - 1]) {
            prev.push(jw(fs[n - 1].name) + ":"@ + jw(fs[n - 1].value))
        } else {
            prev
        }
    }
}

/// The quoted names of the listed fields among the first `n` whose bytes are invalid.
pub open spec fn invalid_names(fs: Seq<FieldView>, chunk: Seq<u8>, p: ProgramView, n: nat) -> Seq<Seq<char>>
    decreases n,
{
    if n == 0 || n > fs.len() {
        seq![]
    } else {
        let prev = invalid_names(fs, chunk, p, (n - 1) as nat);
        if listed(fs[n - 1]) && !fv_valid(fs[n - 1], chunk, p) {
            prev.push(jw(fs[n - 1].name))
        } else {
            prev
        }
    }
}

/// The first listed field among the first `n` whose bytes are invalid.
pub open spec fn first_invalid(fs: Seq<FieldView>, chunk: Seq<u8>, p: ProgramView, n: nat) -> Option<FieldView>
    decreases n,
{
    if n == 0 || n > fs.len() {
        None
    } else {
        match first_invalid(fs, chunk, p, (n - 1) as nat) {
            Some(f) => Some(f),
            None => if listed(fs[n - 1]) && !fv_valid(fs[n - 1], chunk, p) {
                Some(fs[n - 1])
            } else {
                None
            },
        }
    }
}

/// The JSON line of record `idx`, or the strict-mode refusal of its first invalid field.
pub open spec fn record_json_spec(idx: nat, chunk: Seq<u8>, p: ProgramView, enc: Encoding, mode: DirtyMode) -> Result<Seq<char>, ShimErrorView> {
    let fs = fields_spec(p, chunk, enc);
    match first_invalid(fs, chunk, p, fs.len()) {
        Some(f) if mode == DirtyMode::Strict => Err(ShimErrorView::BadItem(
            "dirty data (strict mode): field "@ + f.name + " in record "@ + dec_nat(idx) + " has invalid bytes "@ + f.raw_hex,
        )),
        _ => Ok("{\"record_index\":"@ + dec_nat(idx) + ",\"fields\":{"@ + join_comma(listed_entries(fs, fs.len()))
            + "},\"invalid_fields\":["@ + join_comma(invalid_names(fs, chunk, p, fs.len())) + "]}\n"@),
    }
}

/// The JSON lines of the first `n` records, or the first refusal.
pub open spec fn records_fold(chunks: Seq<Seq<u8>>, p: ProgramView, enc: Encoding, mode: DirtyMode, n: nat) -> Result<Seq<char>, ShimErrorView>
    decreases n,
{
    if n == 0 || n > chunks.len() {
        Ok(seq![])
    } else {
        match records_fold(chunks, p, enc, mode, (n - 1) as nat) {
            Err(e) => Err(e),
            Ok(s) => match record_json_spec((n - 1) as nat, chunks[n - 1], p, enc, mode) {
                Err(e) => Err(e),
                Ok(r) => Ok(s + r),
            },
        }
    }
}

/// What [`decode_records_json`] returns.
pub open spec fn records_json_spec(cb: Copybook, data: Seq<u8>, record_len: usize, enc: Encoding, mode: DirtyMode) -> Result<Seq<char>, ShimErrorView> {
    if record_len == 0 {
        Err(ShimErrorView::Layout("record_len must be > 0"@))
    } else {
        match program_spec(cb) {
            Err(e) => Err(e),
            Ok(p) => match collision_check(p) {
                Err(e) => Err(e),
                Ok(_) => {
                    let chunks = chunks_spec(data, record_len as nat);
                    records_fold(chunks, p, enc, mode, chunks.len())
                },
            },
        }
    }
}

proof fn lemma_first_invalid_stays(fs: Seq<FieldView>, chunk: Seq<u8>, p: ProgramView, a: nat, b: nat)
    requires
        a <= b <= fs.len(),
        first_invalid(fs, chunk, p, a) is Some,
    ensures
        first_invalid(fs, chunk, p, b) == first_invalid(fs, chunk, p, a),
    decreases b - a,
{
    if a < b {
        lemma_first_invalid_stays(fs, chunk, p, a, (b - 1) as nat);
    }
}

proof fn lemma_records_err_stays(chunks: Seq<Seq<u8>>, p: ProgramView, enc: Encoding, mode: DirtyMode, a: nat, b: nat)
    requires
        a <= b <= chunks.len(),
        records_fold(chunks, p, enc, mode, a) is Err,
    ensures
        records_fold(chunks, p, enc, mode, b) == records_fold(chunks, p, enc, mode, a),
    decreases b - a,
{
    if a < b {
        lemma_records_err_stays(chunks, p, enc, mode, a, (b - 1) as nat);
    }
}


/// A record holds a listed field whose bytes are invalid.
pub open spec fn record_dirty(p: ProgramView, chunk: Seq<u8>, enc: Encoding) -> bool {
    let fs = fields_spec(p, chunk, enc);
    first_invalid(fs, chunk, p, fs.len()) is Some
}

proof fn lemma_fold_modes(chunks: Seq<Seq<u8>>, p: ProgramView, enc: Encoding, n: nat)
    requires
        n <= chunks.len(),
    ensures
        records_fold(chunks, p, enc, DirtyMode::Evidence, n) is Ok,
        records_fold(chunks, p, enc, DirtyMode::Strict, n) is Ok <==> (forall|i: int|
            0 <= i < n ==> !record_dirty(p, #[trigger] chunks[i], enc)),
        records_fold(chunks, p, enc, DirtyMode::Strict, n) is Ok ==> records_fold(chunks, p, enc, DirtyMode::Strict, n)
            == records_fold(chunks, p, enc, DirtyMode::Evidence, n),
    decreases n,
{
    if n > 0 {
        lemma_fold_modes(chunks, p, enc, (n - 1) as nat);
        if records_fold(chunks, p, enc, DirtyMode::Strict, (n - 1) as nat) is Err {
            let i = choose|i: int| 0 <= i < n - 1 && record_dirty(p, #[trigger] chunks[i], enc);
            assert(0 <= i < n && record_dirty(p, chunks[i], enc));
        }
    }
}

/// Strict mode never coerces: it answers exactly what evidence mode answers, or it refuses; and
/// (when the copybook and record length are accepted) it refuses exactly when some record holds
/// a field whose bytes are invalid, the records evidence mode lists under `invalid_fields`.
pub proof fn lemma_strict_is_evidence_or_refusal(cb: Copybook, data: Seq<u8>, record_len: usize, enc: Encoding)
    ensures
        records_json_spec(cb, data, record_len, enc, DirtyMode::Strict) is Ok ==> records_json_spec(
            cb,
            data,
            record_len,
            enc,
            DirtyMode::Strict,
        ) == records_json_spec(cb, data, record_len, enc, DirtyMode::Evidence),
        records_json_spec(cb, data, record_len, enc, DirtyMode::Evidence) is Err ==> records_json_spec(
            cb,
            data,
            record_len,
            enc,
            DirtyMode::Strict,
        ) == records_json_spec(cb, data, record_len, enc, DirtyMode::Evidence),
        records_json_spec(cb, data, record_len, enc, DirtyMode::Evidence) is Ok ==> (records_json_spec(
            cb,
            data,
            record_len,
            enc,
            DirtyMode::Strict,
        ) is Err <==> (program_spec(cb) matches Ok(p) && exists|i: int|
            0 <= i < chunks_spec(data, record_len as nat).len() && record_dirty(
                p,
                #[trigger] chunks_spec(data, record_len as nat)[i],
                enc,
            ))),
{
    if record_len > 0 {
        if let Ok(p) = program_spec(cb) {
            if collision_check(p) is Ok {
                let chunks = chunks_spec(data, record_len as nat);
                lemma_fold_modes(chunks, p, enc, chunks.len());
            }
        }
    }
}

fn field_bytes_valid(f: &DecodedField, chunk: &[u8], prog: &Program) -> (r: bool)
    ensures
        r == fv_valid(field_view(*f), chunk@, program_view(*prog)),
{
    let (ft, fl): (u16, u16) = match find_attr(&prog.attrs, &f.name) {
        Some((a, _)) => (a.field_type, a.flags),
        None => (0, 0),
    };
    match slice_of(chunk, f.offset, f.size) {
        Some(b) => field_valid(ft, fl, f.category, b),
        None => false,
    }
}

#[verifier::rlimit(40)]
fn record_json(idx: usize, chunk: &[u8], prog: &Program, enc: Encoding, mode: DirtyMode) -> (r: Result<String, ShimError>)
    ensures
        match r {
            Ok(s) => record_json_spec(idx as nat, chunk@, program_view(*prog), enc, mode) == Ok::<Seq<char>, ShimErrorView>(s@),
            Err(e) => record_json_spec(idx as nat, chunk@, program_view(*prog), enc, mode) == Err::<Seq<char>, ShimErrorView>(shim_error_view(e)),
        },
{
    let ghost pv = program_view(*prog);
    let fields = decode_fields(prog, chunk, enc);
    let ghost fs = fields_view(fields@);
    let mut entries: Vec<String> = Vec::new();
    let mut invalid: Vec<String> = Vec::new();
    let mut i: usize = 0;
    while i < fields.len()
        invariant
            i <= fields@.len(),
            pv == program_view(*prog),
            fs == fields_view(fields@),
            fs == fields_spec(pv, chunk@, enc),
            strs_view(entries@) == listed_entries(fs, i as nat),
            strs_view(invalid@) == invalid_names(fs, chunk@, pv, i as nat),
            mode == DirtyMode::Strict ==> first_invalid(fs, chunk@, pv, i as nat) is None,
        decreases fields@.len() - i,
    {
        let f = &fields[i];
        assert(fs[i as int] == field_view(*f));
        if str_eq(f.category, "numeric") || str_eq(f.category, "alphanumeric") {
            if !field_bytes_valid(f, chunk, prog) {
                if mode == DirtyMode::Strict {
                    let mut m = String::new();
                    push_lit(&mut m, "dirty data (strict mode): field ");
                    m.append(f.name.as_str());
                    push_lit(&mut m, " in record ");
                    push_usize(&mut m, idx);
                    push_lit(&mut m, " has invalid bytes ");
                    m.append(f.raw_hex.as_str());
                    proof {
                        assert(first_invalid(fs, chunk@, pv, (i + 1) as nat) == Some(fs[i as int]));
                        lemma_first_invalid_stays(fs, chunk@, pv, (i + 1) as nat, fs.len());
                    }
                    return Err(ShimError::BadItem(m));
                }
                let mut q = String::new();
                push_jw(&mut q, f.name.as_str());
                proof {
                    lemma_strs_push(invalid@, q);
                }
                invalid.push(q);
            }
            let mut e = String::new();
            push_jw(&mut e, f.name.as_str());
            push_lit(&mut e, ":");
            push_jw(&mut e, f.value.as_str());
            proof {
                lemma_strs_push(entries@, e);
            }
            entries.push(e);
        }
        i += 1;
    }
    let mut o = String::new();
    push_lit(&mut o, "{\"record_index\":");
    push_usize(&mut o, idx);
    push_lit(&mut o, ",\"fields\":{");
    push_joined(&mut o, &entries);
    push_lit(&mut o, "},\"invalid_fields\":[");
    push_joined(&mut o, &invalid);
    push_lit(&mut o, "]}\n");
    Ok(o)
}

/// Decode every fixed-length record of `data` to one JSON line each: its index, its numeric and
/// alphanumeric fields as `"name":"value"`, and the names of fields whose bytes are invalid for
/// their type. In `Strict` mode the first invalid field refuses the whole buffer instead.
#[verifier::rlimit(40)]
pub fn decode_records_json(cb: &Copybook, data: &[u8], record_len: usize, encoding: Encoding, mode: DirtyMode) -> (r: Result<String, ShimError>)
    ensures
        match r {
            Ok(o) => records_json_spec(*cb, data@, record_len, encoding, mode) == Ok::<Seq<char>, ShimErrorView>(o@),
            Err(e) => records_json_spec(*cb, data@, record_len, encoding, mode) == Err::<Seq<char>, ShimErrorView>(shim_error_view(e)),
        },
{
    if record_len == 0 {
        return Err(ShimError::Layout(String::from_str("record_len must be > 0")));
    }
    let prog = parse_program(cb)?;
    check_collisions(&prog)?;
    let ghost pv = program_view(prog);
    let ghost n = record_len as nat;
    let ghost chunks = chunks_spec(data@, n);
    let mut out = String::new();
    let mut off: usize = 0;
    let mut idx: usize = 0;
    assert(data@.skip(0) =~= data@);
    assert(chunks.skip(0) =~= chunks);
    while off < data.len()
        invariant
            off <= data@.len(),
            record_len > 0,
            n == record_len as nat,
            chunks == chunks_spec(data@, n),
            pv == program_view(prog),
            program_spec(*cb) == Ok::<ProgramView, ShimErrorView>(pv),
            collision_check(pv) == Ok::<(), ShimErrorView>(()),
            idx <= chunks.len(),
            idx <= off,
            chunks_spec(data@.skip(off as int), n) == chunks.skip(idx as int),
            records_fold(chunks, pv, encoding, mode, idx as nat) == Ok::<Seq<char>, ShimErrorView>(out@),
        decreases data@.len() - off,
    {
        let end = if data.len() - off <= record_len { data.len() } else { off + record_len };
        proof {
            lemma_chunks_step(data@, n, off as int);
            lemma_skip_head(chunks, idx as int, data@.subrange(off as int, end as int), chunks_spec(data@.skip(end as int), n));
        }
        let chunk = vstd::slice::slice_subrange(data, off, end);
        assert(chunks[idx as int] == chunk@);
        match record_json(idx, chunk, &prog, encoding, mode) {
            Ok(line) => {
                out.append(line.as_str());
            },
            Err(e) => {
                proof {
                    lemma_records_err_stays(chunks, pv, encoding, mode, (idx + 1) as nat, chunks.len());
                }
                return Err(e);
            },
        }
        off = end;
        idx += 1;
    }
    assert(data@.skip(off as int).len() == 0);
    assert(chunks_spec(data@.skip(off as int), n) =~= seq![]);
    assert(idx == chunks.len());
    Ok(out)
}

/// Two distinct positions among `laid` carry `name`.
pub open spec fn named_twice(laid: Seq<crate::cobol::LaidView>, name: Seq<char>) -> bool {
    exists|i: int, j: int| 0 <= i < j < laid.len() && #[trigger] laid[i].name == name && #[trigger] laid[j].name == name
}

proof fn lemma_key_count(p: ProgramView, laid: Seq<crate::cobol::LaidView>, name: Seq<char>)
    ensures
        key_count(p, laid, name) >= 1 <==> (keyed(p, name) && exists|i: int| 0 <= i < laid.len() && #[trigger] laid[i].name == name),
        key_count(p, laid, name) >= 2 <==> (keyed(p, name) && named_twice(laid, name)),
    decreases laid.len(),
{
    if laid.len() > 0 {
        let pre = laid.drop_last();
        let n = laid.len() - 1;
        lemma_key_count(p, pre, name);
        if keyed(p, name) && exists|i: int| 0 <= i < laid.len() && #[trigger] laid[i].name == name {
            let i = choose|i: int| 0 <= i < laid.len() && #[trigger] laid[i].name == name;
            if i < n {
                assert(pre[i].name == name);
            }
        }
        if exists|i: int| 0 <= i < pre.len() && #[trigger] pre[i].name == name {
            let i = choose|i: int| 0 <= i < pre.len() && #[trigger] pre[i].name == name;
            assert(laid[i].name == name);
        }
        if keyed(p, name) && named_twice(laid, name) {
            let (i, j) = choose|i: int, j: int| 0 <= i < j < laid.len() && #[trigger] laid[i].name == name && #[trigger] laid[j].name == name;
            assert(pre[i].name == name);
            if j < n {
                assert(pre[j].name == name);
                assert(named_twice(pre, name));
            }
        }
        if named_twice(pre, name) {
            let (i, j) = choose|i: int, j: int| 0 <= i < j < pre.len() && #[trigger] pre[i].name == name && #[trigger] pre[j].name == name;
            assert(laid[i].name == name && laid[j].name == name);
        }
        if laid.last().name == name && exists|i: int| 0 <= i < pre.len() && #[trigger] pre[i].name == name {
            let i = choose|i: int| 0 <= i < pre.len() && #[trigger] pre[i].name == name;
            assert(laid[i].name == name && laid[n].name == name);
        }
    }
}

proof fn lemma_collisions_upto(p: ProgramView, n: nat)
    requires
        n <= p.laid.len(),
    ensures
        collisions_upto(p, n).len() > 0 <==> exists|k: int|
            0 <= k < n && keyed(p, #[trigger] p.laid[k].name) && key_count(p, p.laid, p.laid[k].name) >= 2,
    decreases n,
{
    if n > 0 {
        let m = (n - 1) as nat;
        lemma_collisions_upto(p, m);
        if exists|k: int| 0 <= k < n && keyed(p, #[trigger] p.laid[k].name) && key_count(p, p.laid, p.laid[k].name) >= 2 {
            let k = choose|k: int| 0 <= k < n && keyed(p, #[trigger] p.laid[k].name) && key_count(p, p.laid, p.laid[k].name) >= 2;
            if k < m {
                assert(collisions_upto(p, m).len() > 0);
            }
        }
    }
}

/// A program is refused for a key collision exactly when two of its laid-out fields that decode
/// to a value share a name.
pub proof fn lemma_collision_exactly_on_shared_names(p: ProgramView)
    ensures
        collision_check(p) is Err <==> exists|i: int|
            0 <= i < p.laid.len() && keyed(p, #[trigger] p.laid[i].name) && named_twice(p.laid, p.laid[i].name),
{
    lemma_collisions_upto(p, p.laid.len());
    assert forall|i: int| 0 <= i < p.laid.len() implies (keyed(p, #[trigger] p.laid[i].name) && key_count(p, p.laid, p.laid[i].name) >= 2)
        <==> (keyed(p, p.laid[i].name) && named_twice(p.laid, p.laid[i].name)) by {
        lemma_key_count(p, p.laid, p.laid[i].name);
    }
}

// ----------------------------------------------------------------------------------------------
// What the field sums add up
// ----------------------------------------------------------------------------------------------

/// The entry of `key` in an association list, if any (the first one).
pub open spec fn entry_of<T>(list: Seq<(Seq<char>, T)>, key: Seq<char>) -> Option<T>
    decreases list.len(),
{
    if list.len() == 0 {
        None
    } else if list[0].0 == key {
        Some(list[0].1)
    } else {
        entry_of(list.drop_first(), key)
    }
}

/// The keys of an association list ascend strictly.
pub open spec fn keys_ascend<T>(list: Seq<(Seq<char>, T)>) -> bool {
    forall|i: int, j: int| 0 <= i < j < list.len() ==> str_lt(#[trigger] list[i].0, #[trigger] list[j].0)
}

/// `x` held within the 128-bit range: a sum that would leave it stays at the nearer bound.
pub open spec fn clamp_i128(x: int) -> int {
    if x < -0x8000_0000_0000_0000_0000_0000_0000_0000 {
        -0x8000_0000_0000_0000_0000_0000_0000_0000
    } else if x > 0x7fff_ffff_ffff_ffff_ffff_ffff_ffff_ffff {
        0x7fff_ffff_ffff_ffff_ffff_ffff_ffff_ffff
    } else {
        x
    }
}

/// A running sum after one more value: the value itself at its scale when nothing was summed yet,
/// else the previous sum plus the value, held within the 128-bit range, at the larger scale.
pub open spec fn plus_value(e: Option<(int, i32)>, v: int, sc: i32) -> Option<(int, i32)> {
    match e {
        None => Some((v, sc)),
        Some((t, c)) => Some((clamp_i128(t + v), if c > sc { c } else { sc })),
    }
}

/// The scaled value a field contributes to the sum under `key`: only a numeric field of that name
/// whose bytes are valid and whose value reads as a scaled number.
pub open spec fn summed_value(f: FieldView, chunk: Seq<u8>, p: ProgramView, key: Seq<char>) -> Option<(int, i32)> {
    let (ft, fl): (u16, u16) = match lookup_attr(p.attrs, f.name) {
        Some((a, _)) => (a.field_type, a.flags),
        None => (0, 0),
    };
    let valid = match field_slice(chunk, f.offset, f.size) {
        Some(b) => field_valid_spec(ft, fl, "numeric"@, b),
        None => false,
    };
    if f.name == key && f.category == "numeric"@ && valid {
        val_to_scaled_spec(f.value)
    } else {
        None
    }
}

/// The running sum under `key` after the first `n` fields of one record.
pub open spec fn key_sum_fields(e: Option<(int, i32)>, fs: Seq<FieldView>, chunk: Seq<u8>, p: ProgramView, key: Seq<char>, n: nat) -> Option<(int, i32)>
    decreases n,
{
    if n == 0 || n > fs.len() {
        e
    } else {
        let prev = key_sum_fields(e, fs, chunk, p, key, (n - 1) as nat);
        match summed_value(fs[n - 1], chunk, p, key) {
            Some((v, sc)) => plus_value(prev, v, sc),
            None => prev,
        }
    }
}

/// The running sum under `key` after the first `n` records, record after record.
pub open spec fn key_sum(chunks: Seq<Seq<u8>>, p: ProgramView, enc: Encoding, key: Seq<char>, n: nat) -> Option<(int, i32)>
    decreases n,
{
    if n == 0 || n > chunks.len() {
        None
    } else {
        let fs = fields_spec(p, chunks[n - 1], enc);
        key_sum_fields(key_sum(chunks, p, enc, key, (n - 1) as nat), fs, chunks[n - 1], p, key, fs.len())
    }
}

proof fn lemma_entry_absent<T>(list: Seq<(Seq<char>, T)>, key: Seq<char>)
    requires
        forall|j: int| 0 <= j < list.len() ==> #[trigger] list[j].0 != key,
    ensures
        entry_of(list, key) is None,
    decreases list.len(),
{
    if list.len() > 0 {
        assert(list[0].0 != key);
        assert forall|j: int| 0 <= j < list.drop_first().len() implies #[trigger] list.drop_first()[j].0 != key by {
            assert(list.drop_first()[j] == list[j + 1]);
        }
        lemma_entry_absent(list.drop_first(), key);
    }
}

/// Inserting or updating one key keeps the keys ascending, gives that key its fresh or updated
/// entry, and leaves every other key's entry as it was.
pub proof fn lemma_upsert_entries<T>(list: Seq<(Seq<char>, T)>, key: Seq<char>, fresh: T, upd: spec_fn(T) -> T)
    requires
        keys_ascend(list),
    ensures
        keys_ascend(upsert(list, key, fresh, upd)),
        forall|i: int|
            0 <= i < upsert(list, key, fresh, upd).len() ==> #[trigger] upsert(list, key, fresh, upd)[i].0 == key || exists|j: int|
                0 <= j < list.len() && list[j].0 == upsert(list, key, fresh, upd)[i].0,
        entry_of(upsert(list, key, fresh, upd), key) == Some(
            match entry_of(list, key) {
                None => fresh,
                Some(e) => upd(e),
            },
        ),
        forall|k: Seq<char>| k != key ==> #[trigger] entry_of(upsert(list, key, fresh, upd), k) == entry_of(list, k),
    decreases list.len(),
{
    let u = upsert(list, key, fresh, upd);
    if list.len() == 0 {
        assert forall|k: Seq<char>| k != key implies #[trigger] entry_of(u, k) == entry_of(list, k) by {
            assert(u == seq![(key, fresh)]);
            assert(u[0].0 != k);
            assert(u.drop_first().len() == 0);
            assert(entry_of(u.drop_first(), k) is None);
            assert(entry_of(u, k) == entry_of(u.drop_first(), k));
        }
    } else if list[0].0 == key {
        let rest = list.drop_first();
        assert(u.drop_first() =~= rest);
        assert forall|i: int, j: int| 0 <= i < j < u.len() implies str_lt(#[trigger] u[i].0, #[trigger] u[j].0) by {
            assert(u[i].0 == list[i].0 && u[j].0 == list[j].0);
        }
        assert forall|i: int| 0 <= i < u.len() implies #[trigger] u[i].0 == key || exists|j: int|
            0 <= j < list.len() && list[j].0 == u[i].0 by {
            assert(list[i].0 == u[i].0);
        }
        assert forall|k: Seq<char>| k != key implies #[trigger] entry_of(u, k) == entry_of(list, k) by {
            assert(entry_of(u, k) == entry_of(u.drop_first(), k));
        }
    } else if str_lt(key, list[0].0) {
        assert(u.drop_first() =~= list);
        assert forall|j: int| 0 <= j < list.len() implies str_lt(key, #[trigger] list[j].0) by {
            if j > 0 {
                lemma_str_lt_trans(key, list[0].0, list[j].0);
            }
        }
        assert forall|j: int| 0 <= j < list.len() implies #[trigger] list[j].0 != key by {
            assert(str_lt(key, list[j].0));
            lemma_str_lt_irrefl(key);
        }
        lemma_entry_absent(list, key);
        assert forall|i: int, j: int| 0 <= i < j < u.len() implies str_lt(#[trigger] u[i].0, #[trigger] u[j].0) by {
            if i == 0 {
                assert(u[j].0 == list[j - 1].0);
            } else {
                assert(u[i].0 == list[i - 1].0 && u[j].0 == list[j - 1].0);
            }
        }
        assert forall|i: int| 0 <= i < u.len() implies #[trigger] u[i].0 == key || exists|j: int|
            0 <= j < list.len() && list[j].0 == u[i].0 by {
            if i > 0 {
                assert(list[i - 1].0 == u[i].0);
            }
        }
        assert forall|k: Seq<char>| k != key implies #[trigger] entry_of(u, k) == entry_of(list, k) by {
            assert(entry_of(u, k) == entry_of(u.drop_first(), k));
        }
    } else {
        let rest = list.drop_first();
        assert forall|i: int, j: int| 0 <= i < j < rest.len() implies str_lt(#[trigger] rest[i].0, #[trigger] rest[j].0) by {
            assert(rest[i] == list[i + 1] && rest[j] == list[j + 1]);
        }
        lemma_upsert_entries(rest, key, fresh, upd);
        let ur = upsert(rest, key, fresh, upd);
        assert(u.drop_first() =~= ur);
        lemma_str_lt_total(key, list[0].0);
        assert forall|i: int, j: int| 0 <= i < j < u.len() implies str_lt(#[trigger] u[i].0, #[trigger] u[j].0) by {
            if i == 0 {
                assert(u[j] == ur[j - 1]);
                if ur[j - 1].0 != key {
                    let m = choose|m: int| 0 <= m < rest.len() && rest[m].0 == ur[j - 1].0;
                    assert(rest[m] == list[m + 1]);
                }
            } else {
                assert(u[i] == ur[i - 1] && u[j] == ur[j - 1]);
            }
        }
        assert forall|i: int| 0 <= i < u.len() implies #[trigger] u[i].0 == key || exists|j: int|
            0 <= j < list.len() && list[j].0 == u[i].0 by {
            if i == 0 {
                assert(list[0].0 == u[0].0);
            } else {
                assert(u[i] == ur[i - 1]);
                if ur[i - 1].0 != key {
                    let m = choose|m: int| 0 <= m < rest.len() && rest[m].0 == ur[i - 1].0;
                    assert(list[m + 1].0 == u[i].0);
                }
            }
        }
        assert forall|k: Seq<char>| k != key implies #[trigger] entry_of(u, k) == entry_of(list, k) by {
            if list[0].0 != k {
                assert(entry_of(u, k) == entry_of(ur, k));
                assert(entry_of(list, k) == entry_of(rest, k));
            }
        }
    }
}

proof fn lemma_field_sum(acc: CtAcc, f: FieldView, chunk: Seq<u8>, p: ProgramView, key: Seq<char>)
    requires
        keys_ascend(acc.sums),
        ct_field(acc, f, chunk, p) is Some,
    ensures
        keys_ascend(ct_field(acc, f, chunk, p)->Some_0.sums),
        entry_of(ct_field(acc, f, chunk, p)->Some_0.sums, key) == match summed_value(f, chunk, p, key) {
            Some((v, sc)) => plus_value(entry_of(acc.sums, key), v, sc),
            None => entry_of(acc.sums, key),
        },
{
    if f.category == "numeric"@ {
        if let Some((v, sc)) = val_to_scaled_spec(f.value) {
            lemma_upsert_entries(acc.sums, f.name, (v, sc), sum_upd(v, sc));
        }
    }
}

proof fn lemma_fields_sum(acc: CtAcc, fs: Seq<FieldView>, chunk: Seq<u8>, p: ProgramView, key: Seq<char>, n: nat)
    requires
        keys_ascend(acc.sums),
        n <= fs.len(),
        ct_fields(acc, fs, chunk, p, n) is Some,
    ensures
        keys_ascend(ct_fields(acc, fs, chunk, p, n)->Some_0.sums),
        entry_of(ct_fields(acc, fs, chunk, p, n)->Some_0.sums, key) == key_sum_fields(entry_of(acc.sums, key), fs, chunk, p, key, n),
    decreases n,
{
    if n > 0 {
        let m = (n - 1) as nat;
        if ct_fields(acc, fs, chunk, p, m) is None {
            lemma_ct_fields_none(acc, fs, chunk, p, m, n);
        }
        lemma_fields_sum(acc, fs, chunk, p, key, m);
        lemma_field_sum(ct_fields(acc, fs, chunk, p, m)->Some_0, fs[m as int], chunk, p, key);
    }
}

proof fn lemma_conds_keep_sums(acc: CtAcc, cs: Seq<CondView>, n: nat)
    requires
        ct_conds(acc, cs, n) is Some,
    ensures
        ct_conds(acc, cs, n)->Some_0.sums == acc.sums,
    decreases n,
{
    if n > 0 && n <= cs.len() {
        let m = (n - 1) as nat;
        if ct_conds(acc, cs, m) is None {
            lemma_ct_conds_none(acc, cs, m, n);
        }
        lemma_conds_keep_sums(acc, cs, m);
    }
}

proof fn lemma_fold_sums(chunks: Seq<Seq<u8>>, p: ProgramView, enc: Encoding, key: Seq<char>, n: nat)
    requires
        n <= chunks.len(),
        ct_fold(chunks, p, enc, n) is Some,
    ensures
        keys_ascend(ct_fold(chunks, p, enc, n)->Some_0.sums),
        entry_of(ct_fold(chunks, p, enc, n)->Some_0.sums, key) == key_sum(chunks, p, enc, key, n),
    decreases n,
{
    if n > 0 {
        let m = (n - 1) as nat;
        if ct_fold(chunks, p, enc, m) is None {
            lemma_ct_fold_none(chunks, p, enc, m, n);
        }
        lemma_fold_sums(chunks, p, enc, key, m);
        let a = ct_fold(chunks, p, enc, m)->Some_0;
        let chunk = chunks[m as int];
        let fs = fields_spec(p, chunk, enc);
        let a1 = CtAcc { count: a.count + 1, ..a };
        lemma_fields_sum(a1, fs, chunk, p, key, fs.len());
        let a2 = ct_fields(a1, fs, chunk, p, fs.len())->Some_0;
        let cs = conds_spec(p, chunk, enc);
        lemma_conds_keep_sums(a2, cs, cs.len());
    } else {
        assert(entry_of(Seq::<(Seq<char>, (int, i32))>::empty(), key) is None);
    }
}

/// The control totals sum every record: whenever the totals over a buffer's records are
/// computed, the sums are kept one per field name in ascending name order, and the sum under a
/// name is the running sum, record after record and field after field, of the scaled values of
/// the valid numeric fields of that name (each added to what came before, held within the
/// 128-bit range, at the larger scale); a name no such field carries has no sum.
pub proof fn lemma_sums_add_every_record(chunks: Seq<Seq<u8>>, p: ProgramView, enc: Encoding, key: Seq<char>)
    ensures
        ct_fold(chunks, p, enc, chunks.len()) matches Some(acc) ==> {
            &&& keys_ascend(acc.sums)
            &&& entry_of(acc.sums, key) == key_sum(chunks, p, enc, key, chunks.len())
        },
{
    if ct_fold(chunks, p, enc, chunks.len()) is Some {
        lemma_fold_sums(chunks, p, enc, key, chunks.len());
    }
}

/// A numeric field whose bytes are not valid for its declared usage.
pub open spec fn invalid_numeric(f: FieldView, chunk: Seq<u8>, p: ProgramView) -> bool {
    let (ft, fl): (u16, u16) = match lookup_attr(p.attrs, f.name) {
        Some((a, _)) => (a.field_type, a.flags),
        None => (0, 0),
    };
    f.category == "numeric"@ && !match field_slice(chunk, f.offset, f.size) {
        Some(b) => field_valid_spec(ft, fl, "numeric"@, b),
        None => false,
    }
}

/// How many of the first `n` fields of a record satisfy `pred`.
pub open spec fn fields_where(fs: Seq<FieldView>, pred: spec_fn(FieldView) -> bool, n: nat) -> nat
    decreases n,
{
    if n == 0 || n > fs.len() {
        0
    } else {
        fields_where(fs, pred, (n - 1) as nat) + if pred(fs[n - 1]) { 1nat } else { 0nat }
    }
}

/// How many of the first `n` conditions of a record are true under `name`.
pub open spec fn true_conds(cs: Seq<CondView>, name: Seq<char>, n: nat) -> nat
    decreases n,
{
    if n == 0 || n > cs.len() {
        0
    } else {
        true_conds(cs, name, (n - 1) as nat) + if cs[n - 1].name == name && cs[n - 1].value == Some(true) { 1nat } else { 0nat }
    }
}

/// Over the first `n` records: the invalid numeric fields, the unsupported fields, and the true
/// conditions under `name`.
pub open spec fn record_counts(chunks: Seq<Seq<u8>>, p: ProgramView, enc: Encoding, name: Seq<char>, n: nat) -> (nat, nat, nat)
    decreases n,
{
    if n == 0 || n > chunks.len() {
        (0, 0, 0)
    } else {
        let (a, b, c) = record_counts(chunks, p, enc, name, (n - 1) as nat);
        let chunk = chunks[n - 1];
        let fs = fields_spec(p, chunk, enc);
        let cs = conds_spec(p, chunk, enc);
        (
            a + fields_where(fs, |f: FieldView| invalid_numeric(f, chunk, p), fs.len()),
            b + fields_where(fs, |f: FieldView| f.category == "unsupported"@, fs.len()),
            c + true_conds(cs, name, cs.len()),
        )
    }
}

proof fn lemma_count_up_is_upsert(list: Seq<(Seq<char>, nat)>, key: Seq<char>)
    ensures
        count_up(list, key) matches Some(r) ==> r == upsert(list, key, 1nat, |c: nat| c + 1),
    decreases list.len(),
{
    if list.len() > 0 && list[0].0 != key && !str_lt(key, list[0].0) {
        lemma_count_up_is_upsert(list.drop_first(), key);
    }
}

proof fn lemma_field_counts(acc: CtAcc, f: FieldView, chunk: Seq<u8>, p: ProgramView)
    requires
        ct_field(acc, f, chunk, p) is Some,
    ensures
        ct_field(acc, f, chunk, p)->Some_0.count == acc.count,
        ct_field(acc, f, chunk, p)->Some_0.conds == acc.conds,
        ct_field(acc, f, chunk, p)->Some_0.invalid == acc.invalid + if invalid_numeric(f, chunk, p) { 1nat } else { 0nat },
        ct_field(acc, f, chunk, p)->Some_0.unsupported == acc.unsupported + if f.category == "unsupported"@ { 1nat } else { 0nat },
{
    reveal_strlit("numeric");
    reveal_strlit("unsupported");
    assert("numeric"@.len() != "unsupported"@.len());
}

proof fn lemma_fields_counts(acc: CtAcc, fs: Seq<FieldView>, chunk: Seq<u8>, p: ProgramView, n: nat)
    requires
        n <= fs.len(),
        ct_fields(acc, fs, chunk, p, n) is Some,
    ensures
        ct_fields(acc, fs, chunk, p, n)->Some_0.count == acc.count,
        ct_fields(acc, fs, chunk, p, n)->Some_0.conds == acc.conds,
        ct_fields(acc, fs, chunk, p, n)->Some_0.invalid == acc.invalid + fields_where(fs, |f: FieldView| invalid_numeric(f, chunk, p), n),
        ct_fields(acc, fs, chunk, p, n)->Some_0.unsupported == acc.unsupported + fields_where(fs, |f: FieldView| f.category == "unsupported"@, n),
    decreases n,
{
    if n > 0 {
        let m = (n - 1) as nat;
        if ct_fields(acc, fs, chunk, p, m) is None {
            lemma_ct_fields_none(acc, fs, chunk, p, m, n);
        }
        lemma_fields_counts(acc, fs, chunk, p, m);
        lemma_field_counts(ct_fields(acc, fs, chunk, p, m)->Some_0, fs[m as int], chunk, p);
    }
}

proof fn lemma_conds_counts(acc: CtAcc, cs: Seq<CondView>, name: Seq<char>, n: nat)
    requires
        keys_ascend(acc.conds),
        n <= cs.len(),
        ct_conds(acc, cs, n) is Some,
    ensures
        keys_ascend(ct_conds(acc, cs, n)->Some_0.conds),
        ct_conds(acc, cs, n)->Some_0.count == acc.count,
        ct_conds(acc, cs, n)->Some_0.invalid == acc.invalid,
        ct_conds(acc, cs, n)->Some_0.unsupported == acc.unsupported,
        ({
            let before: nat = match entry_of(acc.conds, name) {
                Some(c) => c,
                None => 0,
            };
            let t = true_conds(cs, name, n);
            &&& t > 0 || before > 0 ==> entry_of(ct_conds(acc, cs, n)->Some_0.conds, name) == Some(before + t)
            &&& t == 0 ==> entry_of(ct_conds(acc, cs, n)->Some_0.conds, name) == entry_of(acc.conds, name)
        }),
    decreases n,
{
    if n > 0 {
        let m = (n - 1) as nat;
        if ct_conds(acc, cs, m) is None {
            lemma_ct_conds_none(acc, cs, m, n);
        }
        lemma_conds_counts(acc, cs, name, m);
        let a = ct_conds(acc, cs, m)->Some_0;
        if cs[m as int].value == Some(true) {
            lemma_count_up_is_upsert(a.conds, cs[m as int].name);
            lemma_upsert_entries(a.conds, cs[m as int].name, 1nat, |c: nat| c + 1);
        }
    }
}

/// The control totals count every record: whenever they are computed over a buffer's records,
/// the record count is the number of records, the invalid count is the number of numeric fields
/// whose bytes are not valid for their usage, the unsupported count the number of unsupported
/// fields, and a condition's true count the number of times it is true, over all records (a
/// condition never true has no count).
pub proof fn lemma_counts_cover_every_record(chunks: Seq<Seq<u8>>, p: ProgramView, enc: Encoding, name: Seq<char>, n: nat)
    requires
        n <= chunks.len(),
    ensures
        ct_fold(chunks, p, enc, n) matches Some(acc) ==> {
            let (inv, uns, tr) = record_counts(chunks, p, enc, name, n);
            &&& acc.count == n
            &&& acc.invalid == inv
            &&& acc.unsupported == uns
            &&& keys_ascend(acc.conds)
            &&& entry_of(acc.conds, name) == if tr > 0 { Some(tr) } else { None::<nat> }
        },
    decreases n,
{
    if n > 0 {
        let m = (n - 1) as nat;
        if ct_fold(chunks, p, enc, m) is None {
            lemma_ct_fold_none(chunks, p, enc, m, n);
        }
        lemma_counts_cover_every_record(chunks, p, enc, name, m);
        if let Some(a) = ct_fold(chunks, p, enc, m) {
            let chunk = chunks[m as int];
            let fs = fields_spec(p, chunk, enc);
            let a1 = CtAcc { count: a.count + 1, ..a };
            if let Some(a2) = ct_fields(a1, fs, chunk, p, fs.len()) {
                lemma_fields_counts(a1, fs, chunk, p, fs.len());
                let cs = conds_spec(p, chunk, enc);
                if ct_conds(a2, cs, cs.len()) is Some {
                    lemma_conds_counts(a2, cs, name, cs.len());
                }
            }
        }
    } else {
        assert(entry_of(Seq::<(Seq<char>, nat)>::empty(), name) is None);
    }
}

} // verus!
