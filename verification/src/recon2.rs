//! Declared transformed-record reconciliation.
//!
//! A transform is one of the sealed byte courts applied to one field of a record:
//! `SET condition-name TO TRUE` or `ADD`/`SUBTRACT` a declared amount. The court captures the
//! input bytes, applies the declared transforms in order, captures the output bytes, and decodes
//! both, so the casefile proves before/after bytes, decoded values and the audit delta, and
//! nothing above them (no procedure execution, write-back, ledger or business truth).
use crate::cobol::{
    build_field, cob_arith, COB_TYPE_NUMERIC_PACKED, has_scaling_p, pic_admissible, condition_model, laid_view, laids_view, set_88_true, spec_build_field, spec_cob_arith,
    spec_set_88_true, ArithOp, ConditionModel, FieldAttr, LaidView, PicField, Usage, COB_FLAG_HAVE_SIGN,
    COB_TYPE_NUMERIC_DISPLAY,
};
use crate::decode::{
    conds_view, decode_fields, field_view, fields_spec, fields_view, find_attr, find_laid, first_laid,
    lookup_attr, parse_program, program_spec, program_view, shim_error_view, Category, Copybook, DecodedField,
    Encoding, FieldView, Program, ProgramView, ShimError, ShimErrorView,
};
use crate::sha256::{sha256_hex, spec_sha256_hex};
use crate::text::{
    bool_text, bytes_eq, debug_str, dec_nat, join_comma, js, lemma_strs_push, push_bool, push_joined, push_js,
    push_lit, push_u64, spec_debug_str, str_eq, strs_view,
};
use vstd::prelude::*;

verus! {

// ----------------------------------------------------------------------------------------------
// Declared amounts as DISPLAY operands
// ----------------------------------------------------------------------------------------------

/// `u16 as i16`.
pub open spec fn wrap_i16(n: int) -> int {
    if n > 32767 {
        n - 65536
    } else {
        n
    }
}

pub open spec fn clamp_digits(attr: FieldAttr) -> int {
    if attr.digits >= 1 {
        attr.digits as int
    } else {
        1
    }
}

pub open spec fn clamp_scale(attr: FieldAttr) -> int {
    if attr.scale >= 0 {
        attr.scale as int
    } else {
        0
    }
}

/// The signed integer-digit count of the amount picture.
pub open spec fn lead_digits(attr: FieldAttr) -> int {
    let l = wrap_i16(clamp_digits(attr)) - clamp_scale(attr);
    if l >= 1 {
        l
    } else {
        1
    }
}

/// The picture of the operand an amount is encoded into: the target's digits and scale, signed.
pub open spec fn amount_pic(attr: FieldAttr) -> Seq<char> {
    if clamp_scale(attr) > 0 {
        "S9("@ + dec_nat(lead_digits(attr) as nat) + ")V9("@ + dec_nat(clamp_scale(attr) as nat) + ")"@
    } else {
        "S9("@ + dec_nat(clamp_digits(attr) as nat) + ")"@
    }
}

proof fn lemma_dec_nat_no_p(n: nat)
    ensures
        forall|i: int| 0 <= i < dec_nat(n).len() ==> dec_nat(n)[i] != 'P' && dec_nat(n)[i] != 'p',
    decreases n,
{
    if n >= 10 {
        lemma_dec_nat_no_p(n / 10);
        let d = crate::text::digit_char(n % 10);
        assert(d != 'P' && d != 'p');
        let s = dec_nat(n / 10);
        assert(dec_nat(n) == s.push(d));
        assert forall|i: int| 0 <= i < dec_nat(n).len() implies dec_nat(n)[i] != 'P' && dec_nat(n)[i] != 'p' by {
            if i < s.len() {
                assert(dec_nat(n)[i] == s[i]);
            }
        }
    } else {
        assert(crate::text::digit_char(n) != 'P' && crate::text::digit_char(n) != 'p');
    }
}

/// The operand picture of an amount has no `P` scaling, so the PIC court takes it.
proof fn lemma_amount_pic_admissible(attr: FieldAttr)
    ensures
        pic_admissible(amount_pic(attr)),
{
    reveal_strlit("S9(");
    reveal_strlit(")V9(");
    reveal_strlit(")");
    let p = amount_pic(attr);
    if clamp_scale(attr) > 0 {
        lemma_dec_nat_no_p(lead_digits(attr) as nat);
        lemma_dec_nat_no_p(clamp_scale(attr) as nat);
    } else {
        lemma_dec_nat_no_p(clamp_digits(attr) as nat);
    }
    assert(!has_scaling_p(p));
    reveal(pic_admissible);
}

/// The amount with every leading `-` and `+` removed.
pub open spec fn strip_signs(b: Seq<u8>) -> Seq<u8>
    decreases b.len(),
{
    if b.len() > 0 && (b[0] == 45u8 || b[0] == 43u8) {
        strip_signs(b.drop_first())
    } else {
        b
    }
}

/// The position of the first `.`.
pub open spec fn dot_pos(b: Seq<u8>) -> Option<int>
    decreases b.len(),
{
    if b.len() == 0 {
        None
    } else if b[0] == 46u8 {
        Some(0)
    } else {
        match dot_pos(b.drop_first()) {
            Some(i) => Some(i + 1),
            None => None,
        }
    }
}

pub open spec fn int_part(t: Seq<u8>) -> Seq<u8> {
    match dot_pos(t) {
        Some(i) => t.take(i),
        None => t,
    }
}

pub open spec fn frac_part(t: Seq<u8>) -> Seq<u8> {
    match dot_pos(t) {
        Some(i) => t.skip(i + 1),
        None => seq![],
    }
}

pub open spec fn zeros(n: nat) -> Seq<u8> {
    Seq::new(n, |i: int| 48u8)
}

/// The amount's digit characters aligned to `scale` fractional places (padded with zeros or cut)
/// and to `digits` places in all (zero-filled or cut on the left).
pub open spec fn amount_digits(ab: Seq<u8>, digits: nat, scale: int) -> Seq<u8> {
    let t = strip_signs(ab);
    let d0 = int_part(t) + frac_part(t);
    let have = frac_part(t).len() as int;
    let d1 = if scale > have {
        d0 + zeros((scale - have) as nat)
    } else if scale < have {
        d0.take(d0.len() - (have - scale))
    } else {
        d0
    };
    let d2 = if d1.len() < digits {
        zeros((digits - d1.len()) as nat) + d1
    } else {
        d1
    };
    d2.skip(d2.len() - digits)
}

/// The sign of a negative amount carried in the zone of its last digit.
pub open spec fn signed_last(d: Seq<u8>, neg: bool) -> Seq<u8> {
    if neg && d.len() > 0 {
        d.update(d.len() - 1, d.last() | 0x40u8)
    } else {
        d
    }
}

pub open spec fn amount_bytes_of(amount: Seq<char>) -> Seq<u8> {
    vstd::utf8::encode_utf8(amount)
}

/// The amount encoded as a signed DISPLAY operand whose scale matches the target field.
pub open spec fn amount_spec(amount: Seq<char>, attr: FieldAttr) -> (Seq<u8>, FieldAttr) {
    let ab = amount_bytes_of(amount);
    match spec_build_field(amount_pic(attr), Usage::Display, false, false) {
        Some(pf) => (
            signed_last(amount_digits(ab, pf.attr.digits as nat, pf.attr.scale as int), ab.len() > 0 && ab[0] == 45u8),
            FieldAttr { field_type: COB_TYPE_NUMERIC_DISPLAY, digits: pf.attr.digits, scale: pf.attr.scale, flags: COB_FLAG_HAVE_SIGN },
        ),
        None => (seq![], attr),
    }
}

/// The inputs on which an amount can be encoded: the operand picture builds with a non-negative
/// scale, the signed digit arithmetic stays in `i16`, the fractional part has at most 32767
/// characters, and no digit byte lies below `'0'`.
pub open spec fn amount_ok(amount: Seq<char>, attr: FieldAttr) -> bool {
    let t = strip_signs(amount_bytes_of(amount));
    let d0 = int_part(t) + frac_part(t);
    &&& clamp_scale(attr) > 0 ==> wrap_i16(clamp_digits(attr)) - clamp_scale(attr) >= -32768
    &&& spec_build_field(amount_pic(attr), Usage::Display, false, false) matches Some(pf) && pf.attr.scale >= 0
    &&& frac_part(t).len() <= 32767
    &&& forall|i: int| 0 <= i < d0.len() ==> #[trigger] d0[i] >= 48u8
}

fn amount_pic_exec(attr: &FieldAttr) -> (r: String)
    ensures
        r@ == amount_pic(*attr),
{
    let digits: u16 = if attr.digits >= 1 { attr.digits } else { 1 };
    let scale: i16 = if attr.scale >= 0 { attr.scale } else { 0 };
    let mut p = String::new();
    if scale > 0 {
        let w: i32 = if digits > 32767 { digits as i32 - 65536 } else { digits as i32 };
        let l: i32 = w - scale as i32;
        let lead: i32 = if l >= 1 { l } else { 1 };
        push_lit(&mut p, "S9(");
        push_u64(&mut p, lead as u64);
        push_lit(&mut p, ")V9(");
        push_u64(&mut p, scale as u64);
        push_lit(&mut p, ")");
    } else {
        push_lit(&mut p, "S9(");
        push_u64(&mut p, digits as u64);
        push_lit(&mut p, ")");
    }
    p
}

fn strip_signs_start(b: &[u8]) -> (k: usize)
    ensures
        k <= b@.len(),
        strip_signs(b@) == b@.skip(k as int),
{
    let mut k: usize = 0;
    assert(b@.skip(0) =~= b@);
    while k < b.len() && (b[k] == 45u8 || b[k] == 43u8)
        invariant
            k <= b@.len(),
            strip_signs(b@) == strip_signs(b@.skip(k as int)),
        decreases b@.len() - k,
    {
        assert(b@.skip(k as int).drop_first() =~= b@.skip(k + 1));
        k += 1;
    }
    k
}

proof fn lemma_dot_first(s: Seq<u8>, i: int)
    requires
        0 <= i < s.len(),
        s[i] == 46u8,
        forall|m: int| 0 <= m < i ==> s[m] != 46u8,
    ensures
        dot_pos(s) == Some(i),
    decreases i,
{
    if i > 0 {
        lemma_dot_first(s.drop_first(), i - 1);
    }
}

proof fn lemma_dot_bound(s: Seq<u8>)
    ensures
        dot_pos(s) matches Some(i) ==> 0 <= i < s.len() && s[i] == 46u8,
    decreases s.len(),
{
    if s.len() > 0 {
        lemma_dot_bound(s.drop_first());
    }
}

proof fn lemma_dot_none(s: Seq<u8>)
    requires
        forall|m: int| 0 <= m < s.len() ==> s[m] != 46u8,
    ensures
        dot_pos(s) is None,
    decreases s.len(),
{
    if s.len() > 0 {
        lemma_dot_none(s.drop_first());
    }
}

fn find_dot(t: &[u8], from: usize) -> (r: Option<usize>)
    requires
        from <= t@.len(),
    ensures
        match dot_pos(t@.skip(from as int)) {
            Some(i) => r == Some((from + i) as usize),
            None => r is None,
        },
        match r {
            Some(j) => from <= j < t@.len(),
            None => true,
        },
{
    let mut j: usize = from;
    while j < t.len()
        invariant
            from <= j <= t@.len(),
            forall|m: int| from <= m < j ==> t@[m] != 46u8,
        decreases t@.len() - j,
    {
        if t[j] == 46u8 {
            proof {
                lemma_dot_first(t@.skip(from as int), j - from);
            }
            return Some(j);
        }
        j += 1;
    }
    proof {
        lemma_dot_none(t@.skip(from as int));
    }
    None
}

fn push_zeros(v: &mut Vec<u8>, n: usize)
    ensures
        final(v)@ == old(v)@ + zeros(n as nat),
{
    let mut k: usize = 0;
    while k < n
        invariant
            k <= n,
            v@ == old(v)@ + zeros(k as nat),
        decreases n - k,
    {
        v.push(48u8);
        assert(old(v)@ + zeros((k + 1) as nat) =~= old(v)@ + zeros(k as nat) + seq![48u8]);
        k += 1;
    }
}

fn push_range(v: &mut Vec<u8>, src: &[u8], a: usize, b: usize)
    requires
        a <= b <= src@.len(),
    ensures
        final(v)@ == old(v)@ + src@.subrange(a as int, b as int),
{
    let mut k: usize = a;
    while k < b
        invariant
            a <= k <= b,
            b <= src@.len(),
            v@ == old(v)@ + src@.subrange(a as int, k as int),
        decreases b - k,
    {
        v.push(src[k]);
        assert(src@.subrange(a as int, k + 1) =~= src@.subrange(a as int, k as int).push(src@[k as int]));
        k += 1;
    }
}

/// Encode a decimal amount literal into a signed DISPLAY operand whose scale matches `field`, so
/// the arithmetic court aligns the two.
#[verifier::rlimit(90)]
fn amount_bytes(amount: &str, field: &FieldAttr) -> (r: (Vec<u8>, FieldAttr))
    requires
        amount_ok(amount@, *field),
    ensures
        (r.0@, r.1) == amount_spec(amount@, *field),
{
    let pic = amount_pic_exec(field);
    assert(pic_admissible(pic@)) by {
        lemma_amount_pic_admissible(*field);
    }
    let pf = match build_field(pic.as_str(), Usage::Display, false, false) {
        Some(pf) => pf,
        None => {
            return (Vec::new(), *field);
        },
    };
    let ab = amount.as_bytes();
    let ghost abv = amount_bytes_of(amount@);
    assert(ab@ == abv);
    let neg = ab.len() > 0 && ab[0] == 45u8;
    let k = strip_signs_start(ab);
    let ghost t = ab@.skip(k as int);
    let dot = find_dot(ab, k);
    let mut ip_end: usize = ab.len();
    let mut fp_start: usize = ab.len();
    if let Some(j) = dot {
        ip_end = j;
        fp_start = j + 1;
    }
    proof {
        lemma_dot_bound(t);
        match dot_pos(t) {
            Some(i) => {
                assert(dot == Some((k + i) as usize));
                assert(ip_end == k + i);
                assert(t.take(i) =~= ab@.subrange(k as int, ip_end as int));
                assert(t.skip(i + 1) =~= ab@.subrange(fp_start as int, ab@.len() as int));
            },
            None => {
                assert(t =~= ab@.subrange(k as int, ip_end as int));
                assert(ab@.subrange(fp_start as int, ab@.len() as int) =~= Seq::<u8>::empty());
            },
        }
    }
    assert(int_part(t) == ab@.subrange(k as int, ip_end as int));
    assert(frac_part(t) == ab@.subrange(fp_start as int, ab@.len() as int));
    let mut d: Vec<u8> = Vec::new();
    push_range(&mut d, ab, k, ip_end);
    push_range(&mut d, ab, fp_start, ab.len());
    let ghost d0 = d@;
    assert(d0 =~= int_part(t) + frac_part(t));
    let have: i16 = (ab.len() - fp_start) as i16;
    let scale = pf.attr.scale;
    let mut d1: Vec<u8> = Vec::new();
    if scale > have {
        push_range(&mut d1, d.as_slice(), 0, d.len());
        push_zeros(&mut d1, (scale - have) as usize);
        assert(d1@ =~= d0 + zeros((scale - have) as nat));
    } else if scale < have {
        let cut = (have - scale) as usize;
        push_range(&mut d1, d.as_slice(), 0, d.len() - cut);
        assert(d1@ =~= d0.take(d0.len() - (have - scale)));
    } else {
        push_range(&mut d1, d.as_slice(), 0, d.len());
        assert(d1@ =~= d0);
    }
    let digits = pf.attr.digits as usize;
    let mut out: Vec<u8> = Vec::new();
    if d1.len() < digits {
        push_zeros(&mut out, digits - d1.len());
        push_range(&mut out, d1.as_slice(), 0, d1.len());
        let ghost d2 = zeros((digits - d1@.len()) as nat) + d1@;
        assert(out@ =~= d2);
        assert(d2.skip(d2.len() - digits) =~= d2);
    } else {
        push_range(&mut out, d1.as_slice(), d1.len() - digits, d1.len());
        assert(out@ =~= d1@.skip(d1@.len() - digits));
    }
    assert(out@ == amount_digits(abv, pf.attr.digits as nat, pf.attr.scale as int));
    if neg && out.len() > 0 {
        let last = out.len() - 1;
        let b = out[last] | 0x40u8;
        out.set(last, b);
    }
    let attr = FieldAttr { field_type: COB_TYPE_NUMERIC_DISPLAY, digits: pf.attr.digits, scale: pf.attr.scale, flags: COB_FLAG_HAVE_SIGN };
    (out, attr)
}


// ----------------------------------------------------------------------------------------------
// Transforms
// ----------------------------------------------------------------------------------------------

/// A declared transform operation over one field, each a sealed court.
#[derive(Debug, Clone, Copy, PartialEq, Eq, Structural)]
pub enum TransformOp {
    /// `SET condition-name TO TRUE`.
    SetTrue,
    /// `ADD amount TO field`.
    Add,
    /// `SUBTRACT amount FROM field`.
    Subtract,
}

/// One declared transform: an op, the target (a condition for `SetTrue`, else a field), and the
/// decimal amount literal of `Add`/`Subtract`.
pub struct Transform<'a> {
    pub op: TransformOp,
    pub target: &'a str,
    pub amount: Option<&'a str>,
}

pub struct TransformView {
    pub op: TransformOp,
    pub target: Seq<char>,
    pub amount: Option<Seq<char>>,
}

pub open spec fn transform_view(t: Transform) -> TransformView {
    TransformView {
        op: t.op,
        target: t.target@,
        amount: match t.amount {
            Some(a) => Some(a@),
            None => None,
        },
    }
}

pub open spec fn transforms_view(v: Seq<Transform>) -> Seq<TransformView> {
    v.map_values(|t: Transform| transform_view(t))
}

/// The result of a declared transformed-record reconciliation.
pub struct ReconTransformResult {
    pub before: Vec<u8>,
    pub after: Vec<u8>,
    pub applied: Vec<String>,
    pub findings: Vec<(String, String)>,
    pub casefile_json: String,
}

pub open spec fn pairs_view(v: Seq<(String, String)>) -> Seq<(Seq<char>, Seq<char>)> {
    v.map_values(|p: (String, String)| (p.0@, p.1@))
}

/// The state the transforms are applied to, in order.
pub struct TState {
    pub after: Seq<u8>,
    pub applied: Seq<Seq<char>>,
    pub findings: Seq<(Seq<char>, Seq<char>)>,
    pub set_used: bool,
    pub arith_used: bool,
}

/// The first declared condition named `name`, with its parent.
pub open spec fn first_cond(conds: Seq<(Seq<char>, ConditionModel)>, name: Seq<char>) -> Option<(Seq<char>, ConditionModel)>
    decreases conds.len(),
{
    if conds.len() == 0 {
        None
    } else if conds[0].1.name == name {
        Some(conds[0])
    } else {
        first_cond(conds.drop_first(), name)
    }
}

pub open spec fn finding(st: TState, rule: Seq<char>, msg: Seq<char>) -> TState {
    TState { findings: st.findings.push((rule, msg)), ..st }
}

/// `bytes` written over `after` from `off`.
pub open spec fn splice(after: Seq<u8>, off: nat, bytes: Seq<u8>) -> Seq<u8> {
    after.take(off as int) + bytes + after.skip((off + bytes.len()) as int)
}

pub open spec fn arith_op(op: TransformOp) -> ArithOp {
    if op == TransformOp::Add {
        ArithOp::Add
    } else {
        ArithOp::Subtract
    }
}

pub open spec fn verb(op: TransformOp) -> Seq<char> {
    if op == TransformOp::Add {
        "ADD"@
    } else {
        "SUBTRACT"@
    }
}

pub open spec fn prep(op: TransformOp) -> Seq<char> {
    if op == TransformOp::Add {
        "TO"@
    } else {
        "FROM"@
    }
}

/// The message of an arithmetic refused because its packed operand holds no byte.
pub const EMPTY_PACKED: &'static str = "empty packed operand";

/// The arithmetic court's answer, with an empty packed operand (no digits to read) refused.
pub open spec fn arith_spec(op: ArithOp, a: Seq<u8>, a_attr: FieldAttr, b: Seq<u8>, b_attr: FieldAttr) -> Result<Seq<u8>, Seq<char>> {
    if (a_attr.field_type == COB_TYPE_NUMERIC_PACKED && a.len() == 0) || (b_attr.field_type == COB_TYPE_NUMERIC_PACKED
        && b.len() == 0) {
        Err(EMPTY_PACKED@)
    } else {
        spec_cob_arith(op, a, a_attr, b, b_attr)
    }
}

/// One transform applied: the bytes it writes and the line it adds to the manifest, or the
/// finding that says why it was refused.
pub open spec fn step(p: ProgramView, st: TState, t: TransformView) -> TState {
    let dbg = spec_debug_str(t.target);
    if t.op == TransformOp::SetTrue {
        match first_cond(p.conds, t.target) {
            None => finding(st, "KOBOLD-RECON2-UNDECLARED-CONDITION"@, "no LEVEL-88 named "@ + dbg),
            Some((parent, cond)) => match (first_laid(p.laid, parent), lookup_attr(p.attrs, parent)) {
                (Some(l), Some((attr, _))) => match spec_set_88_true(attr, l.size, cond) {
                    Some(b) if b.len() == l.size => TState {
                        after: splice(st.after, l.offset as nat, b),
                        applied: st.applied.push("SET "@ + t.target + " TO TRUE (GNURUST.12)"@),
                        set_used: true,
                        ..st
                    },
                    _ => finding(st, "KOBOLD-RECON2-SET-FAILED"@, "SET "@ + t.target + " TO TRUE failed closed"@),
                },
                _ => finding(st, "KOBOLD-RECON2-NO-PARENT"@, "condition "@ + dbg + " parent not laid out"@),
            },
        }
    } else {
        match t.amount {
            None => finding(st, "KOBOLD-RECON2-NO-AMOUNT"@, dbg + " needs an amount"@),
            Some(amt) => match (first_laid(p.laid, t.target), lookup_attr(p.attrs, t.target)) {
                (Some(l), Some((attr, cat))) => if cat != Category::Numeric {
                    finding(st, "KOBOLD-RECON2-NOT-NUMERIC"@, dbg + " is not a numeric field"@)
                } else {
                    let (bb, battr) = amount_spec(amt, attr);
                    match arith_spec(arith_op(t.op), st.after.subrange(l.offset as int, l.offset + l.size), attr, bb, battr) {
                        Ok(b) => if b.len() == l.size {
                            TState {
                                after: splice(st.after, l.offset as nat, b),
                                applied: st.applied.push(verb(t.op) + " "@ + amt + " "@ + prep(t.op) + " "@ + t.target + " (GNURUST.7)"@),
                                arith_used: true,
                                ..st
                            }
                        } else {
                            finding(st, "KOBOLD-RECON2-SIZE"@, dbg + " result size mismatch"@)
                        },
                        Err(e) => finding(st, "KOBOLD-RECON2-ARITH-FAILED"@, verb(t.op) + " on "@ + dbg + " failed closed: "@ + e),
                    }
                },
                _ => finding(st, "KOBOLD-RECON2-UNDECLARED-FIELD"@, "no field named "@ + dbg),
            },
        }
    }
}

/// The inputs on which a transform can run: the bytes it writes lie inside the record, and a
/// declared amount can be encoded for its target.
pub open spec fn transform_safe(p: ProgramView, t: TransformView, n: nat) -> bool {
    if t.op == TransformOp::SetTrue {
        match first_cond(p.conds, t.target) {
            None => true,
            Some((parent, cond)) => match (first_laid(p.laid, parent), lookup_attr(p.attrs, parent)) {
                (Some(l), Some((attr, _))) => match spec_set_88_true(attr, l.size, cond) {
                    Some(b) => b.len() == l.size ==> l.offset + l.size <= n,
                    None => true,
                },
                _ => true,
            },
        }
    } else {
        match t.amount {
            None => true,
            Some(amt) => match (first_laid(p.laid, t.target), lookup_attr(p.attrs, t.target)) {
                (Some(l), Some((attr, cat))) => cat == Category::Numeric ==> (l.offset + l.size <= n && amount_ok(amt, attr)),
                _ => true,
            },
        }
    }
}

pub open spec fn all_safe(p: ProgramView, ts: Seq<TransformView>, n: nat) -> bool {
    forall|i: int| 0 <= i < ts.len() ==> transform_safe(p, #[trigger] ts[i], n)
}

/// The first `k` transforms applied to `input`.
pub open spec fn tfold(p: ProgramView, ts: Seq<TransformView>, input: Seq<u8>, k: nat) -> TState
    decreases k,
{
    if k == 0 || k > ts.len() {
        TState { after: input, applied: seq![], findings: seq![], set_used: false, arith_used: false }
    } else {
        step(p, tfold(p, ts, input, (k - 1) as nat), ts[k - 1])
    }
}

pub open spec fn delta_entry(b: FieldView, a: FieldView) -> Seq<char> {
    js(b.name) + ":{\"before\":"@ + js(b.value) + ",\"after\":"@ + js(a.value) + "}"@
}

/// The fields whose decoded value changed, before and after.
pub open spec fn delta_entries(bf: Seq<FieldView>, af: Seq<FieldView>, n: nat) -> Seq<Seq<char>>
    decreases n,
{
    if n == 0 || n > bf.len() || n > af.len() {
        seq![]
    } else {
        let prev = delta_entries(bf, af, (n - 1) as nat);
        if bf[n - 1].value != af[n - 1].value {
            prev.push(delta_entry(bf[n - 1], af[n - 1]))
        } else {
            prev
        }
    }
}

pub open spec fn min_len(a: nat, b: nat) -> nat {
    if a <= b {
        a
    } else {
        b
    }
}

pub const ARITH_COURT: &'static str = "ADD/SUBTRACT (GNURUST.7)";

pub const SET_COURT: &'static str = "SET-88-TRUE (GNURUST.12)";

/// The claims and non-claims of every transform casefile.
pub const RECON2_CLAIMS: &'static str = "},\"read_truth\":{\"claimed\":true},\"transform_truth\":{\"claimed\":true,\"scope\":\"declared sealed transform only\"},\"write_back_truth\":{\"claimed\":false},\"posting_truth\":{\"claimed\":false},\"ledger_truth\":{\"claimed\":false},\"business_truth\":{\"claimed\":false},\"negative_capabilities\":[\"NEG.RECON.PROCEDURE_DIVISION\",\"NEG.RECON.WRITE_BACK_PRODUCTION\",\"NEG.RECON.BUSINESS_TRUTH\",\"NEG.RECON.UNDECLARED_TRANSFORM\",\"NEG.RECON.SIDE_EFFECTS\",\"NEG.RECON.FILE_REWRITE_PARITY\",\"NEG.RECON.LEDGER_ACCEPTANCE\"],\"findings\":[";

/// The courts used, sorted and without repeats.
pub open spec fn courts_list(st: TState) -> Seq<Seq<char>> {
    (if st.arith_used { seq![js(ARITH_COURT@)] } else { Seq::<Seq<char>>::empty() }) + (if st.set_used {
        seq![js(SET_COURT@)]
    } else {
        Seq::<Seq<char>>::empty()
    })
}

pub open spec fn finding_json(f: (Seq<char>, Seq<char>)) -> Seq<char> {
    "{\"ruleId\":"@ + js(f.0) + ",\"level\":\"warning\",\"message\":"@ + js(f.1) + "}"@
}

pub open spec fn casefile_spec(before: Seq<u8>, st: TState, delta: Seq<Seq<char>>) -> Seq<char> {
    "{\"schema\":\"kobold-recon2-forensic-casefile-v1\",\"court\":\"KOBOLD.RECON.2\",\"input_sha256\":"@ + js(spec_sha256_hex(before))
        + ",\"output_sha256\":"@ + js(spec_sha256_hex(st.after)) + ",\"bytes_changed\":"@ + bool_text(before != st.after)
        + ",\"transform_manifest\":{\"applied\":["@ + join_comma(st.applied.map_values(|a: Seq<char>| js(a)))
        + "],\"sealed_courts\":["@ + join_comma(courts_list(st)) + "]},\"audit_delta\":{"@ + join_comma(delta) + RECON2_CLAIMS@
        + join_comma(st.findings.map_values(|f: (Seq<char>, Seq<char>)| finding_json(f))) + "]}\n"@
}

pub struct ReconTransformView {
    pub before: Seq<u8>,
    pub after: Seq<u8>,
    pub applied: Seq<Seq<char>>,
    pub findings: Seq<(Seq<char>, Seq<char>)>,
    pub casefile: Seq<char>,
}

pub open spec fn recon_transform_view(r: ReconTransformResult) -> ReconTransformView {
    ReconTransformView {
        before: r.before@,
        after: r.after@,
        applied: strs_view(r.applied@),
        findings: pairs_view(r.findings@),
        casefile: r.casefile_json@,
    }
}

/// What [`reconcile_transform`] returns once the program is parsed.
pub open spec fn transform_result(p: ProgramView, input: Seq<u8>, ts: Seq<TransformView>, enc: Encoding) -> ReconTransformView {
    let st = tfold(p, ts, input, ts.len());
    let bf = fields_spec(p, input, enc);
    let af = fields_spec(p, st.after, enc);
    ReconTransformView {
        before: input,
        after: st.after,
        applied: st.applied,
        findings: st.findings,
        casefile: casefile_spec(input, st, delta_entries(bf, af, min_len(bf.len(), af.len()))),
    }
}

pub open spec fn recon_transform_spec(cb: Copybook, input: Seq<u8>, ts: Seq<TransformView>, enc: Encoding) -> Result<ReconTransformView, ShimErrorView> {
    match program_spec(cb) {
        Err(e) => Err(e),
        Ok(p) => Ok(transform_result(p, input, ts, enc)),
    }
}


/// One transform either is applied (one more manifest line, no finding) or is refused (one more
/// finding, and the bytes and the manifest stay exactly as they were).
pub proof fn lemma_step_applies_or_refuses(p: ProgramView, st: TState, t: TransformView)
    ensures
        ({
            let s2 = step(p, st, t);
            ||| (s2.findings == st.findings && s2.applied.len() == st.applied.len() + 1 && s2.applied.drop_last()
                == st.applied)
            ||| (s2.after == st.after && s2.applied == st.applied && s2.findings.len() == st.findings.len() + 1
                && s2.findings.drop_last() == st.findings)
        }),
{
    let s2 = step(p, st, t);
    assert(s2.applied.drop_last() =~= st.applied || s2.findings.drop_last() =~= st.findings);
}

proof fn lemma_tfold_counts(p: ProgramView, ts: Seq<TransformView>, input: Seq<u8>, k: nat)
    requires
        k <= ts.len(),
    ensures
        tfold(p, ts, input, k).applied.len() + tfold(p, ts, input, k).findings.len() == k,
        tfold(p, ts, input, k).applied.len() == 0 ==> tfold(p, ts, input, k).after == input,
    decreases k,
{
    if k > 0 {
        lemma_tfold_counts(p, ts, input, (k - 1) as nat);
        lemma_step_applies_or_refuses(p, tfold(p, ts, input, (k - 1) as nat), ts[k - 1]);
    }
}

/// Every declared transform is accounted for: each one is either in the manifest or answered by
/// a finding, and when none was applied the output bytes are the input bytes (a refused or
/// undeclared transform has no side effect).
pub proof fn lemma_refused_transforms_change_nothing(cb: Copybook, input: Seq<u8>, ts: Seq<TransformView>, enc: Encoding)
    ensures
        recon_transform_spec(cb, input, ts, enc) matches Ok(v) ==> {
            &&& v.applied.len() + v.findings.len() == ts.len()
            &&& v.applied.len() == 0 ==> v.after == v.before
        },
{
    if let Ok(pv) = program_spec(cb) {
        lemma_tfold_counts(pv, ts, input, ts.len());
    }
}


/// The item a transform writes: the parent of the named condition, or the named field.
pub open spec fn target_item(p: ProgramView, t: TransformView) -> Option<LaidView> {
    if t.op == TransformOp::SetTrue {
        match first_cond(p.conds, t.target) {
            Some((parent, _)) => first_laid(p.laid, parent),
            None => None,
        }
    } else {
        first_laid(p.laid, t.target)
    }
}

/// Byte `i` lies inside the item transform `t` writes.
pub open spec fn in_target(p: ProgramView, t: TransformView, i: int) -> bool {
    target_item(p, t) matches Some(l) && l.offset <= i < l.offset + l.size
}

proof fn lemma_step_touches_only_target(p: ProgramView, st: TState, t: TransformView)
    requires
        transform_safe(p, t, st.after.len()),
    ensures
        step(p, st, t).after.len() == st.after.len(),
        forall|i: int| 0 <= i < st.after.len() && !in_target(p, t, i) ==> #[trigger] step(p, st, t).after[i] == st.after[i],
{
    let s2 = step(p, st, t);
    if s2.after != st.after {
        let l = target_item(p, t)->0;
        assert forall|i: int| 0 <= i < st.after.len() && !in_target(p, t, i) implies #[trigger] s2.after[i]
            == st.after[i] by {
            if i >= l.offset + l.size {
                assert(s2.after[i] == st.after.skip(l.offset + l.size)[i - l.offset - l.size]);
            }
        }
    }
}

/// Transform `j` was applied: it added a line to the manifest.
pub open spec fn applied_at(p: ProgramView, ts: Seq<TransformView>, input: Seq<u8>, j: int) -> bool {
    tfold(p, ts, input, (j + 1) as nat).applied.len() > tfold(p, ts, input, j as nat).applied.len()
}

proof fn lemma_tfold_touches_only_targets(p: ProgramView, ts: Seq<TransformView>, input: Seq<u8>, k: nat)
    requires
        k <= ts.len(),
        all_safe(p, ts, input.len()),
    ensures
        tfold(p, ts, input, k).after.len() == input.len(),
        forall|i: int|
            0 <= i < input.len() && (forall|j: int| 0 <= j < k && applied_at(p, ts, input, j) ==> !in_target(p, #[trigger] ts[j], i))
                ==> #[trigger] tfold(p, ts, input, k).after[i] == input[i],
    decreases k,
{
    if k > 0 {
        let prev = tfold(p, ts, input, (k - 1) as nat);
        lemma_tfold_touches_only_targets(p, ts, input, (k - 1) as nat);
        assert(transform_safe(p, ts[k - 1], input.len()));
        lemma_step_touches_only_target(p, prev, ts[k - 1]);
        lemma_step_applies_or_refuses(p, prev, ts[k - 1]);
        assert(tfold(p, ts, input, k) == step(p, prev, ts[k - 1]));
        assert forall|i: int|
            0 <= i < input.len() && (forall|j: int| 0 <= j < k && applied_at(p, ts, input, j) ==> !in_target(p, #[trigger] ts[j], i))
                implies #[trigger] tfold(p, ts, input, k).after[i] == input[i] by {
            assert forall|j: int| 0 <= j < k - 1 && applied_at(p, ts, input, j) implies !in_target(p, #[trigger] ts[j], i) by {
                assert(!in_target(p, ts[j], i));
            }
            assert(prev.after[i] == input[i]);
            if applied_at(p, ts, input, k - 1) {
                assert(!in_target(p, ts[k - 1], i));
            }
        }
    }
}

/// Nothing outside the targets of the applied transforms is touched: the output has the input's
/// length, and a byte that lies inside the target item (a condition's parent field, or the named
/// field) of no applied transform keeps its input value; refused and undeclared transforms touch
/// nothing at all.
pub proof fn lemma_transforms_touch_only_targets(p: ProgramView, input: Seq<u8>, ts: Seq<TransformView>, enc: Encoding, i: int)
    requires
        all_safe(p, ts, input.len()),
        0 <= i < input.len(),
        forall|j: int| 0 <= j < ts.len() && applied_at(p, ts, input, j) ==> !in_target(p, #[trigger] ts[j], i),
    ensures
        transform_result(p, input, ts, enc).after.len() == input.len(),
        transform_result(p, input, ts, enc).after[i] == input[i],
{
    lemma_tfold_touches_only_targets(p, ts, input, ts.len());
}

// ---- executable state ----

struct TStateExec {
    after: Vec<u8>,
    applied: Vec<String>,
    findings: Vec<(String, String)>,
    set_used: bool,
    arith_used: bool,
}

spec fn tstate_view(s: TStateExec) -> TState {
    TState {
        after: s.after@,
        applied: strs_view(s.applied@),
        findings: pairs_view(s.findings@),
        set_used: s.set_used,
        arith_used: s.arith_used,
    }
}

fn add_finding(st: &mut TStateExec, rule: &str, msg: String)
    ensures
        tstate_view(*final(st)) == finding(tstate_view(*old(st)), rule@, msg@),
{
    let ghost before = st.findings@;
    st.findings.push((String::from_str(rule), msg));
    assert(pairs_view(st.findings@) =~= pairs_view(before).push((rule@, msg@)));
}

fn find_cond(prog: &Program, name: &str) -> (r: Option<usize>)
    ensures
        match r {
            Some(i) => i < prog.conditions@.len() && first_cond(program_view(*prog).conds, name@) == Some(
                program_view(*prog).conds[i as int],
            ),
            None => first_cond(program_view(*prog).conds, name@) is None,
        },
{
    let ghost cv = program_view(*prog).conds;
    let mut i: usize = 0;
    assert(cv.skip(0) =~= cv);
    while i < prog.conditions.len()
        invariant
            i <= prog.conditions@.len(),
            cv == program_view(*prog).conds,
            cv.len() == prog.conditions@.len(),
            first_cond(cv, name@) == first_cond(cv.skip(i as int), name@),
        decreases prog.conditions@.len() - i,
    {
        assert(cv[i as int].1.name == prog.conditions@[i as int].1.name@);
        if str_eq(prog.conditions[i].1.name.as_str(), name) {
            assert(cv.skip(i as int)[0] == cv[i as int]);
            return Some(i);
        }
        assert(cv.skip(i as int).drop_first() =~= cv.skip(i + 1));
        i += 1;
    }
    assert(cv.skip(i as int) =~= Seq::<(Seq<char>, ConditionModel)>::empty());
    None
}

fn write_bytes(after: &mut Vec<u8>, off: usize, bytes: &Vec<u8>)
    requires
        off + bytes@.len() <= old(after)@.len(),
    ensures
        final(after)@ == splice(old(after)@, off as nat, bytes@),
        final(after)@.len() == old(after)@.len(),
{
    let n = after.len();
    let mut k: usize = 0;
    while k < bytes.len()
        invariant
            k <= bytes@.len(),
            n == old(after)@.len(),
            after@.len() == n,
            off + bytes@.len() <= old(after)@.len(),
            after@ == old(after)@.take(off as int) + bytes@.take(k as int) + old(after)@.skip(off + k),
        decreases bytes@.len() - k,
    {
        after.set(off + k, bytes[k]);
        assert(after@ =~= old(after)@.take(off as int) + bytes@.take(k + 1) + old(after)@.skip(off + k + 1));
        k += 1;
    }
    assert(bytes@.take(k as int) =~= bytes@);
}

fn apply_set(st: &mut TStateExec, prog: &Program, t: &Transform, n: Ghost<nat>)
    requires
        t.op == TransformOp::SetTrue,
        transform_safe(program_view(*prog), transform_view(*t), n@),
        old(st).after@.len() == n@,
    ensures
        tstate_view(*final(st)) == step(program_view(*prog), tstate_view(*old(st)), transform_view(*t)),
        final(st).after@.len() == n@,
{
    let ghost pv = program_view(*prog);
    let ci = match find_cond(prog, t.target) {
        Some(i) => i,
        None => {
            let mut m = String::new();
            push_lit(&mut m, "no LEVEL-88 named ");
            let d = debug_str(t.target);
            m.append(d.as_str());
            add_finding(st, "KOBOLD-RECON2-UNDECLARED-CONDITION", m);
            return;
        },
    };
    let parent = &prog.conditions[ci].0;
    let cond = &prog.conditions[ci].1;
    assert(pv.conds[ci as int] == (parent@, condition_model(*cond)));
    let li = find_laid(&prog.laid, parent);
    let fa = find_attr(&prog.attrs, parent);
    if li.is_none() || fa.is_none() {
        let mut m = String::new();
        push_lit(&mut m, "condition ");
        let d = debug_str(t.target);
        m.append(d.as_str());
        push_lit(&mut m, " parent not laid out");
        add_finding(st, "KOBOLD-RECON2-NO-PARENT", m);
        return;
    }
    let l = &prog.laid[li.unwrap()];
    let (attr, _) = fa.unwrap();
    match set_88_true(&attr, l.size, cond) {
        Some(bytes) => {
            if bytes.len() == l.size {
                write_bytes(&mut st.after, l.offset, &bytes);
                let mut a = String::new();
                push_lit(&mut a, "SET ");
                a.append(t.target);
                push_lit(&mut a, " TO TRUE (GNURUST.12)");
                let ghost before = st.applied@;
                st.applied.push(a);
                assert(strs_view(st.applied@) =~= strs_view(before).push(a@));
                st.set_used = true;
                return;
            }
        },
        None => {},
    }
    let mut m = String::new();
    push_lit(&mut m, "SET ");
    m.append(t.target);
    push_lit(&mut m, " TO TRUE failed closed");
    add_finding(st, "KOBOLD-RECON2-SET-FAILED", m);
}

#[verifier::rlimit(40)]
fn apply_arith(st: &mut TStateExec, prog: &Program, t: &Transform, n: Ghost<nat>)
    requires
        t.op != TransformOp::SetTrue,
        transform_safe(program_view(*prog), transform_view(*t), n@),
        old(st).after@.len() == n@,
    ensures
        tstate_view(*final(st)) == step(program_view(*prog), tstate_view(*old(st)), transform_view(*t)),
        final(st).after@.len() == n@,
{
    let ghost pv = program_view(*prog);
    let amt = match t.amount {
        Some(a) => a,
        None => {
            let d = debug_str(t.target);
            let mut m = String::new();
            m.append(d.as_str());
            push_lit(&mut m, " needs an amount");
            add_finding(st, "KOBOLD-RECON2-NO-AMOUNT", m);
            return;
        },
    };
    let name = String::from_str(t.target);
    let li = find_laid(&prog.laid, &name);
    let fa = find_attr(&prog.attrs, &name);
    if li.is_none() || fa.is_none() {
        let mut m = String::new();
        push_lit(&mut m, "no field named ");
        let d = debug_str(t.target);
        m.append(d.as_str());
        add_finding(st, "KOBOLD-RECON2-UNDECLARED-FIELD", m);
        return;
    }
    let l = &prog.laid[li.unwrap()];
    let (attr, cat) = fa.unwrap();
    if cat != Category::Numeric {
        let d = debug_str(t.target);
        let mut m = String::new();
        m.append(d.as_str());
        push_lit(&mut m, " is not a numeric field");
        add_finding(st, "KOBOLD-RECON2-NOT-NUMERIC", m);
        return;
    }
    proof {
        assert(transform_view(*t).amount == Some(amt@));
        assert(transform_view(*t).target == name@);
        assert(first_laid(pv.laid, name@) == Some(laid_view(*l)));
        assert(lookup_attr(pv.attrs, name@) == Some((attr, cat)));
        assert(transform_safe(pv, transform_view(*t), n@));
        assert(l.offset + l.size <= n@);
    }
    let alen = st.after.len();
    assert(l.offset + l.size <= alen);
    let (bb, battr) = amount_bytes(amt, &attr);
    let is_add = t.op == TransformOp::Add;
    let op = if is_add { ArithOp::Add } else { ArithOp::Subtract };
    let verb_s: &str = if is_add { "ADD" } else { "SUBTRACT" };
    let prep_s: &str = if is_add { "TO" } else { "FROM" };
    let cur = vstd::slice::slice_subrange(st.after.as_slice(), l.offset, l.offset + l.size);
    let res = if attr.field_type == COB_TYPE_NUMERIC_PACKED && cur.len() == 0 {
        Err(String::from_str(EMPTY_PACKED))
    } else {
        cob_arith(op, cur, &attr, bb.as_slice(), &battr)
    };
    match res {
        Ok(bytes) => {
            if bytes.len() == l.size {
                write_bytes(&mut st.after, l.offset, &bytes);
                let mut a = String::new();
                push_lit(&mut a, verb_s);
                push_lit(&mut a, " ");
                a.append(amt);
                push_lit(&mut a, " ");
                push_lit(&mut a, prep_s);
                push_lit(&mut a, " ");
                a.append(t.target);
                push_lit(&mut a, " (GNURUST.7)");
                let ghost before = st.applied@;
                st.applied.push(a);
                assert(strs_view(st.applied@) =~= strs_view(before).push(a@));
                st.arith_used = true;
            } else {
                let d = debug_str(t.target);
                let mut m = String::new();
                m.append(d.as_str());
                push_lit(&mut m, " result size mismatch");
                add_finding(st, "KOBOLD-RECON2-SIZE", m);
            }
        },
        Err(e) => {
            let d = debug_str(t.target);
            let mut m = String::new();
            push_lit(&mut m, verb_s);
            push_lit(&mut m, " on ");
            m.append(d.as_str());
            push_lit(&mut m, " failed closed: ");
            m.append(e.as_str());
            add_finding(st, "KOBOLD-RECON2-ARITH-FAILED", m);
        },
    }
}


fn copy_bytes(input: &[u8]) -> (v: Vec<u8>)
    ensures
        v@ == input@,
{
    let mut v: Vec<u8> = Vec::new();
    push_range(&mut v, input, 0, input.len());
    assert(v@ =~= input@);
    v
}

fn delta_exec(bf: &Vec<DecodedField>, af: &Vec<DecodedField>) -> (r: Vec<String>)
    ensures
        strs_view(r@) == delta_entries(fields_view(bf@), fields_view(af@), min_len(bf@.len(), af@.len())),
{
    let ghost bv = fields_view(bf@);
    let ghost av = fields_view(af@);
    let m = if bf.len() <= af.len() { bf.len() } else { af.len() };
    let mut out: Vec<String> = Vec::new();
    let mut i: usize = 0;
    while i < m
        invariant
            i <= m,
            m <= bf@.len(),
            m <= af@.len(),
            bv == fields_view(bf@),
            av == fields_view(af@),
            strs_view(out@) == delta_entries(bv, av, i as nat),
        decreases m - i,
    {
        assert(bv[i as int] == field_view(bf@[i as int]));
        assert(av[i as int] == field_view(af@[i as int]));
        if !str_eq(bf[i].value.as_str(), af[i].value.as_str()) {
            let mut e = String::new();
            push_js(&mut e, bf[i].name.as_str());
            push_lit(&mut e, ":{\"before\":");
            push_js(&mut e, bf[i].value.as_str());
            push_lit(&mut e, ",\"after\":");
            push_js(&mut e, af[i].value.as_str());
            push_lit(&mut e, "}");
            proof {
                lemma_strs_push(out@, e);
            }
            out.push(e);
        }
        i += 1;
    }
    out
}

fn quoted_list(v: &Vec<String>) -> (r: Vec<String>)
    ensures
        strs_view(r@) == strs_view(v@).map_values(|a: Seq<char>| js(a)),
{
    let ghost want = strs_view(v@).map_values(|a: Seq<char>| js(a));
    let mut out: Vec<String> = Vec::new();
    let mut i: usize = 0;
    while i < v.len()
        invariant
            i <= v@.len(),
            want == strs_view(v@).map_values(|a: Seq<char>| js(a)),
            strs_view(out@) == want.take(i as int),
        decreases v@.len() - i,
    {
        let mut q = String::new();
        push_js(&mut q, v[i].as_str());
        proof {
            lemma_strs_push(out@, q);
        }
        out.push(q);
        assert(want.take(i + 1) =~= want.take(i as int).push(q@));
        i += 1;
    }
    assert(want.take(i as int) =~= want);
    out
}

fn findings_list(v: &Vec<(String, String)>) -> (r: Vec<String>)
    ensures
        strs_view(r@) == pairs_view(v@).map_values(|f: (Seq<char>, Seq<char>)| finding_json(f)),
{
    let ghost want = pairs_view(v@).map_values(|f: (Seq<char>, Seq<char>)| finding_json(f));
    let mut out: Vec<String> = Vec::new();
    let mut i: usize = 0;
    while i < v.len()
        invariant
            i <= v@.len(),
            want == pairs_view(v@).map_values(|f: (Seq<char>, Seq<char>)| finding_json(f)),
            strs_view(out@) == want.take(i as int),
        decreases v@.len() - i,
    {
        let mut q = String::new();
        push_lit(&mut q, "{\"ruleId\":");
        push_js(&mut q, v[i].0.as_str());
        push_lit(&mut q, ",\"level\":\"warning\",\"message\":");
        push_js(&mut q, v[i].1.as_str());
        push_lit(&mut q, "}");
        proof {
            lemma_strs_push(out@, q);
        }
        out.push(q);
        assert(want.take(i + 1) =~= want.take(i as int).push(q@));
        i += 1;
    }
    assert(want.take(i as int) =~= want);
    out
}

#[verifier::rlimit(30)]
fn casefile_exec(before: &Vec<u8>, st: &TStateExec, delta: &Vec<String>) -> (r: String)
    ensures
        r@ == casefile_spec(before@, tstate_view(*st), strs_view(delta@)),
{
    let in_sha = sha256_hex(before.as_slice());
    let out_sha = sha256_hex(st.after.as_slice());
    let changed = !bytes_eq(before.as_slice(), st.after.as_slice());
    let applied = quoted_list(&st.applied);
    let mut courts: Vec<String> = Vec::new();
    if st.arith_used {
        let mut c = String::new();
        push_js(&mut c, ARITH_COURT);
        courts.push(c);
    }
    if st.set_used {
        let mut c = String::new();
        push_js(&mut c, SET_COURT);
        courts.push(c);
    }
    assert(strs_view(courts@) =~= courts_list(tstate_view(*st)));
    let finds = findings_list(&st.findings);
    let mut o = String::new();
    push_lit(&mut o, "{\"schema\":\"kobold-recon2-forensic-casefile-v1\",\"court\":\"KOBOLD.RECON.2\",\"input_sha256\":");
    push_js(&mut o, in_sha.as_str());
    push_lit(&mut o, ",\"output_sha256\":");
    push_js(&mut o, out_sha.as_str());
    push_lit(&mut o, ",\"bytes_changed\":");
    push_bool(&mut o, changed);
    push_lit(&mut o, ",\"transform_manifest\":{\"applied\":[");
    push_joined(&mut o, &applied);
    push_lit(&mut o, "],\"sealed_courts\":[");
    push_joined(&mut o, &courts);
    push_lit(&mut o, "]},\"audit_delta\":{");
    push_joined(&mut o, delta);
    push_lit(&mut o, RECON2_CLAIMS);
    push_joined(&mut o, &finds);
    push_lit(&mut o, "]}\n");
    o
}

/// Apply a sequence of declared transforms to `input`, proving before/after bytes and the decoded
/// delta. Each transform either applies (its bytes written, its line in the manifest) or is refused
/// with a finding; the record length never changes.
#[verifier::rlimit(40)]
pub fn reconcile_transform(cb: &Copybook, input: &[u8], transforms: &[Transform], encoding: Encoding) -> (r: Result<ReconTransformResult, ShimError>)
    requires
        program_spec(*cb) matches Ok(p) ==> all_safe(p, transforms_view(transforms@), input@.len()),
    ensures
        match r {
            Ok(v) => recon_transform_spec(*cb, input@, transforms_view(transforms@), encoding) == Ok::<ReconTransformView, ShimErrorView>(recon_transform_view(v)),
            Err(e) => recon_transform_spec(*cb, input@, transforms_view(transforms@), encoding) == Err::<ReconTransformView, ShimErrorView>(shim_error_view(e)),
        },
        r matches Ok(v) ==> v.after@.len() == input@.len() && v.before@ == input@,
{
    let prog = parse_program(cb)?;
    let ghost pv = program_view(prog);
    let ghost tv = transforms_view(transforms@);
    let ghost n = input@.len();
    let before = copy_bytes(input);
    let mut st = TStateExec { after: copy_bytes(input), applied: Vec::new(), findings: Vec::new(), set_used: false, arith_used: false };
    proof {
        assert(strs_view(st.applied@) =~= Seq::<Seq<char>>::empty());
        assert(pairs_view(st.findings@) =~= Seq::<(Seq<char>, Seq<char>)>::empty());
    }
    let mut i: usize = 0;
    while i < transforms.len()
        invariant
            i <= transforms@.len(),
            pv == program_view(prog),
            tv == transforms_view(transforms@),
            n == input@.len(),
            all_safe(pv, tv, n),
            st.after@.len() == n,
            tstate_view(st) == tfold(pv, tv, input@, i as nat),
        decreases transforms@.len() - i,
    {
        let t = &transforms[i];
        assert(tv[i as int] == transform_view(*t));
        assert(transform_safe(pv, tv[i as int], n));
        if t.op == TransformOp::SetTrue {
            apply_set(&mut st, &prog, t, Ghost(n));
        } else {
            apply_arith(&mut st, &prog, t, Ghost(n));
        }
        i += 1;
    }
    let bf = decode_fields(&prog, before.as_slice(), encoding);
    let af = decode_fields(&prog, st.after.as_slice(), encoding);
    let delta = delta_exec(&bf, &af);
    let casefile_json = casefile_exec(&before, &st, &delta);
    let TStateExec { after, applied, findings, set_used: _, arith_used: _ } = st;
    Ok(ReconTransformResult { before, after, applied, findings, casefile_json })
}

// ---- checking the inputs first ----

fn amount_is_ok(amount: &str, attr: &FieldAttr) -> (r: bool)
    ensures
        r == amount_ok(amount@, *attr),
{
    let digits: u16 = if attr.digits >= 1 { attr.digits } else { 1 };
    let scale: i16 = if attr.scale >= 0 { attr.scale } else { 0 };
    let w: i32 = if digits > 32767 { digits as i32 - 65536 } else { digits as i32 };
    if scale > 0 && w - (scale as i32) < -32768 {
        return false;
    }
    let pic = amount_pic_exec(attr);
    proof {
        lemma_amount_pic_admissible(*attr);
    }
    match build_field(pic.as_str(), Usage::Display, false, false) {
        Some(pf) => {
            if pf.attr.scale < 0 {
                return false;
            }
        },
        None => {
            return false;
        },
    }
    let ab = amount.as_bytes();
    let ghost abv = amount_bytes_of(amount@);
    assert(ab@ == abv);
    let k = strip_signs_start(ab);
    let ghost t = ab@.skip(k as int);
    let dot = find_dot(ab, k);
    let mut ip_end: usize = ab.len();
    let mut fp_start: usize = ab.len();
    if let Some(j) = dot {
        ip_end = j;
        fp_start = j + 1;
    }
    proof {
        lemma_dot_bound(t);
        match dot_pos(t) {
            Some(i) => {
                assert(dot == Some((k + i) as usize));
                assert(t.take(i) =~= ab@.subrange(k as int, ip_end as int));
                assert(t.skip(i + 1) =~= ab@.subrange(fp_start as int, ab@.len() as int));
            },
            None => {
                assert(t =~= ab@.subrange(k as int, ip_end as int));
                assert(ab@.subrange(fp_start as int, ab@.len() as int) =~= Seq::<u8>::empty());
            },
        }
    }
    let ghost ipv = ab@.subrange(k as int, ip_end as int);
    let ghost fpv = ab@.subrange(fp_start as int, ab@.len() as int);
    assert(int_part(t) == ipv);
    assert(frac_part(t) == fpv);
    assert(t == strip_signs(amount_bytes_of(amount@)));
    if ab.len() - fp_start > 32767 {
        return false;
    }
    let mut j: usize = k;
    while j < ip_end
        invariant
            k <= j <= ip_end,
            ip_end <= ab@.len(),
            ipv == ab@.subrange(k as int, ip_end as int),
            int_part(strip_signs(amount_bytes_of(amount@))) + frac_part(strip_signs(amount_bytes_of(amount@))) == ipv + fpv,
            forall|m: int| 0 <= m < j - k ==> ipv[m] >= 48u8,
        decreases ip_end - j,
    {
        if ab[j] < 48u8 {
            assert(ipv[j - k] == ab@[j as int]);
            assert((ipv + fpv)[j - k] < 48u8);
            return false;
        }
        j += 1;
    }
    let mut j: usize = fp_start;
    while j < ab.len()
        invariant
            fp_start <= j <= ab@.len(),
            fpv == ab@.subrange(fp_start as int, ab@.len() as int),
            int_part(strip_signs(amount_bytes_of(amount@))) + frac_part(strip_signs(amount_bytes_of(amount@))) == ipv + fpv,
            forall|m: int| 0 <= m < j - fp_start ==> fpv[m] >= 48u8,
        decreases ab@.len() - j,
    {
        if ab[j] < 48u8 {
            assert(fpv[j - fp_start] == ab@[j as int]);
            assert((ipv + fpv)[ipv.len() + j - fp_start] < 48u8);
            return false;
        }
        j += 1;
    }
    assert forall|m: int| 0 <= m < (ipv + fpv).len() implies #[trigger] (ipv + fpv)[m] >= 48u8 by {
        if m < ipv.len() {
        } else {
            assert((ipv + fpv)[m] == fpv[m - ipv.len()]);
        }
    }
    true
}

fn transform_is_safe(prog: &Program, t: &Transform, n: usize) -> (r: bool)
    ensures
        r == transform_safe(program_view(*prog), transform_view(*t), n as nat),
{
    let ghost pv = program_view(*prog);
    if t.op == TransformOp::SetTrue {
        let ci = match find_cond(prog, t.target) {
            Some(i) => i,
            None => {
                return true;
            },
        };
        let parent = &prog.conditions[ci].0;
        let cond = &prog.conditions[ci].1;
        assert(pv.conds[ci as int] == (parent@, condition_model(*cond)));
        let li = find_laid(&prog.laid, parent);
        let fa = find_attr(&prog.attrs, parent);
        if li.is_none() || fa.is_none() {
            return true;
        }
        let l = &prog.laid[li.unwrap()];
        let (attr, _) = fa.unwrap();
        match set_88_true(&attr, l.size, cond) {
            Some(bytes) => {
                if bytes.len() == l.size {
                    l.offset <= n && l.size <= n - l.offset
                } else {
                    true
                }
            },
            None => true,
        }
    } else {
        let amt = match t.amount {
            Some(a) => a,
            None => {
                return true;
            },
        };
        let name = String::from_str(t.target);
        let li = find_laid(&prog.laid, &name);
        let fa = find_attr(&prog.attrs, &name);
        if li.is_none() || fa.is_none() {
            return true;
        }
        let l = &prog.laid[li.unwrap()];
        let (attr, cat) = fa.unwrap();
        if cat != Category::Numeric {
            return true;
        }
        l.offset <= n && l.size <= n - l.offset && amount_is_ok(amt, &attr)
    }
}

/// [`reconcile_transform`] for any input: it first checks that every transform can run on
/// `input` (its bytes inside the record, its amount encodable) and returns `None` when one cannot.
pub fn reconcile_transform_checked(cb: &Copybook, input: &[u8], transforms: &[Transform], encoding: Encoding) -> (r: Option<Result<ReconTransformResult, ShimError>>)
    ensures
        match r {
            None => program_spec(*cb) matches Ok(p) && !all_safe(p, transforms_view(transforms@), input@.len()),
            Some(Ok(v)) => recon_transform_spec(*cb, input@, transforms_view(transforms@), encoding) == Ok::<ReconTransformView, ShimErrorView>(recon_transform_view(v)),
            Some(Err(e)) => recon_transform_spec(*cb, input@, transforms_view(transforms@), encoding) == Err::<ReconTransformView, ShimErrorView>(shim_error_view(e)),
        },
{
    let prog = match parse_program(cb) {
        Ok(p) => p,
        Err(e) => {
            return Some(Err(e));
        },
    };
    let ghost pv = program_view(prog);
    let ghost tv = transforms_view(transforms@);
    let mut i: usize = 0;
    while i < transforms.len()
        invariant
            i <= transforms@.len(),
            pv == program_view(prog),
            program_spec(*cb) == Ok::<ProgramView, ShimErrorView>(pv),
            tv == transforms_view(transforms@),
            forall|j: int| 0 <= j < i ==> transform_safe(pv, #[trigger] tv[j], input@.len()),
        decreases transforms@.len() - i,
    {
        assert(tv[i as int] == transform_view(transforms@[i as int]));
        if !transform_is_safe(&prog, &transforms[i], input.len()) {
            assert(!transform_safe(pv, tv[i as int], input@.len()));
            return None;
        }
        i += 1;
    }
    Some(reconcile_transform(cb, input, transforms, encoding))
}

} // verus!

