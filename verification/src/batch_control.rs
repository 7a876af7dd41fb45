//! Header/trailer control-total validation.
//!
//! A trailer declares the record count and a control total (the sum of an amount field over the
//! detail records). The declared fields are decoded and compared with the observed detail count and
//! the observed sum of the declared amount field, as evidence. A match means the declared and
//! observed control fields agree; it does not mean the batch is complete, correct or settled. A
//! mismatch is evidence of a discrepancy, not its cause.
//!
//! The decimal arithmetic is exact and checked: a value or sum outside the 128-bit range is
//! reported as an error, never wrapped.
use crate::copybook::{all_digits, digits_value, lemma_digits_value_prefix_grows, trim_ws, trimmed_chars};
use crate::decode::{
    decode_record_encoded, decode_record_spec, fields_view, record_view, shim_error_view, zero_pad, Copybook,
    DecodedField, Encoding, FieldView, RecordView, ShimError, ShimErrorView,
};
use crate::sha256::{sha256_hex, spec_sha256_hex};
use crate::text::{bool_text, dec_digits_u128, dec_nat, js, push_bool, push_char, push_chars, push_js, push_lit, push_u128, push_usize, str_eq};
use vstd::prelude::*;

verus! {

/// The batch-control validation result.
pub struct BatchControl {
    pub manifest_json: String,
    pub casefile_json: String,
    pub count_match: bool,
    pub total_match: bool,
}

// ----------------------------------------------------------------------------------------------
// Plain decimals
// ----------------------------------------------------------------------------------------------

pub open spec fn pow10(n: nat) -> nat
    decreases n,
{
    if n == 0 {
        1
    } else {
        10 * pow10((n - 1) as nat)
    }
}

pub open spec fn fits_i128(x: int) -> bool {
    i128::MIN <= x <= i128::MAX
}

/// Index of the first `.` at or after `k` (the length when there is none).
pub open spec fn find_dot(t: Seq<char>, k: int) -> int
    decreases t.len() - k,
{
    if k < 0 || k >= t.len() {
        t.len() as int
    } else if t[k] == '.' {
        k
    } else {
        find_dot(t, k + 1)
    }
}

/// A plain decimal: surrounding whitespace, an optional sign, digits with at most one `.`, and at
/// least one digit on either side. The result is `(negative, digits as an integer, fraction digit
/// count)`, so that the value is `(-1)^negative * scaled * 10^-scale`. `None` when the text is not
/// such a decimal or its digits exceed the 128-bit range.
pub open spec fn parse_dec_spec(s: Seq<char>) -> Option<(bool, int, u32)> {
    let t = trim_ws(s);
    let neg = t.len() > 0 && t[0] == '-';
    let start: int = if t.len() > 0 && (t[0] == '-' || t[0] == '+') { 1 } else { 0 };
    let dot = find_dot(t, start);
    let ip = t.subrange(start, dot);
    let fp = if dot < t.len() { t.skip(dot + 1) } else { Seq::<char>::empty() };
    if ip.len() == 0 && fp.len() == 0 {
        None
    } else if !all_digits(ip + fp) || digits_value(ip + fp) > i128::MAX {
        None
    } else {
        Some((neg, digits_value(ip + fp) as int, fp.len() as u32))
    }
}

proof fn lemma_find_dot_bounds(t: Seq<char>, k: int)
    requires
        0 <= k <= t.len(),
    ensures
        k <= find_dot(t, k) <= t.len(),
        find_dot(t, k) < t.len() ==> t[find_dot(t, k)] == '.',
        forall|j: int| k <= j < find_dot(t, k) ==> t[j] != '.',
    decreases t.len() - k,
{
    if k < t.len() && t[k] != '.' {
        lemma_find_dot_bounds(t, k + 1);
    }
}

fn copy_chars(v: &Vec<char>, a: usize, b: usize, out: &mut Vec<char>)
    requires
        a <= b <= v@.len(),
    ensures
        final(out)@ == old(out)@ + v@.subrange(a as int, b as int),
{
    let mut i = a;
    while i < b
        invariant
            a <= i <= b <= v@.len(),
            out@ == old(out)@ + v@.subrange(a as int, i as int),
        decreases b - i,
    {
        out.push(v[i]);
        assert(v@.subrange(a as int, i + 1) =~= v@.subrange(a as int, i as int).push(v@[i as int]));
        i += 1;
    }
}

/// The value of a digit string, or `None` when a character is not a digit or the value exceeds
/// the 128-bit range.
pub fn digits_i128(d: &Vec<char>) -> (r: Option<i128>)
    ensures
        match r {
            Some(v) => all_digits(d@) && digits_value(d@) <= i128::MAX && v == digits_value(d@),
            None => !all_digits(d@) || digits_value(d@) > i128::MAX,
        },
{
    let mut v: i128 = 0;
    let mut i: usize = 0;
    while i < d.len()
        invariant
            i <= d@.len(),
            all_digits(d@.take(i as int)),
            0 <= v == digits_value(d@.take(i as int)),
        decreases d@.len() - i,
    {
        let c = d[i];
        if !('0' <= c && c <= '9') {
            assert(!all_digits(d@)) by {
                assert(d@[i as int] == c);
            }
            return None;
        }
        let x = (c as u32 - 0x30) as i128;
        assert(d@.take(i + 1).drop_last() =~= d@.take(i as int));
        assert(d@.take(i + 1).last() == c);
        assert(all_digits(d@.take(i + 1)));
        match v.checked_mul(10) {
            None => {
                proof {
                    if all_digits(d@) {
                        lemma_digits_value_prefix_grows(d@, i + 1);
                    }
                }
                return None;
            },
            Some(m) => match m.checked_add(x) {
                None => {
                    proof {
                        if all_digits(d@) {
                            lemma_digits_value_prefix_grows(d@, i + 1);
                        }
                    }
                    return None;
                },
                Some(nv) => {
                    v = nv;
                },
            },
        }
        i += 1;
    }
    assert(d@.take(i as int) =~= d@);
    Some(v)
}

/// Parse a plain decimal (see [`parse_dec_spec`]).
pub fn parse_dec(s: &str) -> (r: Option<(bool, i128, u32)>)
    ensures
        match parse_dec_spec(s@) {
            Some((n, v, sc)) => r == Some((n, v as i128, sc)),
            None => r is None,
        },
{
    let t = trimmed_chars(s);
    let neg = t.len() > 0 && t[0] == '-';
    let start: usize = if t.len() > 0 && (t[0] == '-' || t[0] == '+') { 1 } else { 0 };
    let mut dot = start;
    while dot < t.len() && t[dot] != '.'
        invariant
            start <= dot <= t@.len(),
            find_dot(t@, dot as int) == find_dot(t@, start as int),
        decreases t@.len() - dot,
    {
        dot += 1;
    }
    let fp_start = if dot < t.len() { dot + 1 } else { t.len() };
    if dot == start && fp_start == t.len() {
        assert(t@.subrange(start as int, dot as int).len() == 0);
        return None;
    }
    let mut all: Vec<char> = Vec::new();
    copy_chars(&t, start, dot, &mut all);
    copy_chars(&t, fp_start, t.len(), &mut all);
    let ghost fp = if dot < t@.len() { t@.skip(dot + 1) } else { Seq::<char>::empty() };
    assert(t@.subrange(fp_start as int, t@.len() as int) =~= fp);
    assert(all@ =~= t@.subrange(start as int, dot as int) + fp);
    match digits_i128(&all) {
        None => None,
        Some(v) => {
            let flen = t.len() - fp_start;
            Some((neg, v, flen as u32))
        },
    }
}

/// `10^n`, when it fits (`n <= 38`).
pub open spec fn pow10_opt(n: nat) -> Option<int> {
    if n <= 38 {
        Some(pow10(n) as int)
    } else {
        None
    }
}

proof fn lemma_pow10_pos(n: nat)
    ensures
        pow10(n) >= 1,
    decreases n,
{
    if n > 0 {
        lemma_pow10_pos((n - 1) as nat);
    }
}

proof fn lemma_pow10_top()
    ensures
        pow10(38) == 100_000_000_000_000_000_000_000_000_000_000_000_000,
{
    reveal_with_fuel(pow10, 40);
}

proof fn lemma_pow10_bound(n: nat)
    requires
        n <= 38,
    ensures
        1 <= pow10(n) <= 100_000_000_000_000_000_000_000_000_000_000_000_000,
    decreases 38 - n,
{
    lemma_pow10_pos(n);
    if n < 38 {
        lemma_pow10_bound(n + 1);
    } else {
        lemma_pow10_top();
    }
}

fn pow10_exec(n: u32) -> (r: Option<i128>)
    ensures
        match pow10_opt(n as nat) {
            Some(p) => r == Some(p as i128),
            None => r is None,
        },
{
    if n > 38 {
        return None;
    }
    let mut p: i128 = 1;
    let mut i: u32 = 0;
    while i < n
        invariant
            i <= n <= 38,
            p == pow10(i as nat),
        decreases n - i,
    {
        proof {
            lemma_pow10_bound(i as nat);
            lemma_pow10_bound((i + 1) as nat);
        }
        p = p * 10;
        i += 1;
    }
    Some(p)
}

/// A signed decimal value moved to scale `target`: multiplied up (checked) or divided down
/// (truncating); `None` when a power of ten or the product leaves the 128-bit range.
pub open spec fn at_scale_opt(neg: bool, scaled: int, scale: u32, target: u32) -> Option<int> {
    let mag = if scale <= target {
        match pow10_opt((target - scale) as nat) {
            Some(p) => if fits_i128(scaled * p) { Some(scaled * p) } else { None },
            None => None,
        }
    } else {
        match pow10_opt((scale - target) as nat) {
            Some(p) => Some(scaled / p),
            None => None,
        }
    };
    match mag {
        Some(m) => Some(if neg { -m } else { m }),
        None => None,
    }
}

fn at_scale(neg: bool, scaled: i128, scale: u32, target: u32) -> (r: Option<i128>)
    requires
        scaled >= 0,
    ensures
        match at_scale_opt(neg, scaled as int, scale, target) {
            Some(v) => r matches Some(x) && x as int == v,
            None => r is None,
        },
{
    if scale <= target {
        let k = target - scale;
        match pow10_exec(k) {
            Some(p) => {
                proof {
                    lemma_pow10_bound(k as nat);
                    assert(scaled * p >= 0) by (nonlinear_arith)
                        requires
                            scaled >= 0,
                            p >= 1,
                    ;
                }
                match scaled.checked_mul(p) {
                    Some(m) => {
                        assert(m as int == scaled * p);
                        Some(if neg { -m } else { m })
                    },
                    None => None,
                }
            },
            None => None,
        }
    } else {
        let k = scale - target;
        match pow10_exec(k) {
            Some(p) => {
                proof {
                    lemma_pow10_bound(k as nat);
                }
                let m = scaled / p;
                assert(m >= 0);
                Some(if neg { -m } else { m })
            },
            None => None,
        }
    }
}

/// The largest fraction-digit count of the amounts (`0` when there are none).
pub open spec fn max_scale(a: Seq<(bool, int, u32)>) -> u32
    decreases a.len(),
{
    if a.len() == 0 {
        0
    } else {
        let m = max_scale(a.drop_last());
        if a.last().2 > m {
            a.last().2
        } else {
            m
        }
    }
}

/// The sum of the amounts at scale `target` (`None` on 128-bit overflow).
pub open spec fn sum_opt(a: Seq<(bool, int, u32)>, target: u32) -> Option<int>
    decreases a.len(),
{
    if a.len() == 0 {
        Some(0)
    } else {
        match (sum_opt(a.drop_last(), target), at_scale_opt(a.last().0, a.last().1, a.last().2, target)) {
            (Some(s), Some(x)) => if fits_i128(s + x) { Some(s + x) } else { None },
            _ => None,
        }
    }
}

/// Canonical text of `signed * 10^-scale`: sign, integer part, and `scale` zero-padded fraction
/// digits (`None` when `10^scale` leaves the 128-bit range).
pub open spec fn fmt_dec_opt(signed: int, scale: u32) -> Option<Seq<char>> {
    let sign = if signed < 0 { seq!['-'] } else { Seq::<char>::empty() };
    let mag: nat = if signed < 0 { (-signed) as nat } else { signed as nat };
    if scale == 0 {
        Some(sign + dec_nat(mag))
    } else if scale > 38 {
        None
    } else {
        Some(sign + dec_nat(mag / pow10(scale as nat)) + seq!['.'] + zero_pad(dec_nat(mag % pow10(scale as nat)), scale as nat))
    }
}

pub fn fmt_dec(signed: i128, scale: u32) -> (r: Option<String>)
    ensures
        match fmt_dec_opt(signed as int, scale) {
            Some(t) => r matches Some(s) && s@ == t,
            None => r is None,
        },
{
    let mut s = String::new();
    if signed < 0 {
        push_char(&mut s, '-');
    }
    let mag: u128 = if signed < 0 {
        if signed == i128::MIN {
            0x8000_0000_0000_0000_0000_0000_0000_0000u128
        } else {
            (-signed) as u128
        }
    } else {
        signed as u128
    };
    if scale == 0 {
        push_u128(&mut s, mag);
        return Some(s);
    }
    if scale > 38 {
        return None;
    }
    let d: i128 = match pow10_exec(scale) {
        Some(p) => p,
        None => {
            return None;
        },
    };
    proof {
        lemma_pow10_bound(scale as nat);
    }
    let du = d as u128;
    push_u128(&mut s, mag / du);
    push_char(&mut s, '.');
    let frac = dec_digits_u128(mag % du);
    let ghost before = s@;
    let mut pad: usize = 0;
    let need: usize = scale as usize;
    if frac.len() < need {
        let k = need - frac.len();
        while pad < k
            invariant
                pad <= k,
                s@ == before + Seq::new(pad as nat, |i: int| '0'),
            decreases k - pad,
        {
            push_char(&mut s, '0');
            assert(Seq::new((pad + 1) as nat, |i: int| '0') =~= Seq::new(pad as nat, |i: int| '0').push('0'));
            pad += 1;
        }
    }
    push_chars(&mut s, &frac);
    proof {
        let t = fmt_dec_opt(signed as int, scale)->0;
    }
    Some(s)
}

// ----------------------------------------------------------------------------------------------
// The batch-control court
// ----------------------------------------------------------------------------------------------

/// The first field with this name.
pub open spec fn first_field(fs: Seq<FieldView>, name: Seq<char>) -> Option<FieldView>
    decreases fs.len(),
{
    if fs.len() == 0 {
        None
    } else if fs[0].name == name {
        Some(fs[0])
    } else {
        first_field(fs.drop_first(), name)
    }
}

/// The value of the first field with this name (`""` when there is none).
pub open spec fn value_of(fs: Seq<FieldView>, name: Seq<char>) -> Seq<char> {
    match first_field(fs, name) {
        Some(f) => f.value,
        None => seq![],
    }
}

/// The parsed amounts of the first `n` detail records (records whose amount field is missing or
/// not a plain decimal contribute nothing); the first record that fails to decode stops it.
pub open spec fn amounts_fold(details: Seq<Seq<u8>>, cb: Copybook, name: Seq<char>, enc: Encoding, n: nat) -> Result<
    Seq<(bool, int, u32)>,
    ShimErrorView,
>
    decreases n,
{
    if n == 0 || n > details.len() {
        Ok(seq![])
    } else {
        match amounts_fold(details, cb, name, enc, (n - 1) as nat) {
            Err(e) => Err(e),
            Ok(a) => match decode_record_spec(cb, details[n - 1], enc) {
                Err(e) => Err(e),
                Ok(rv) => match first_field(rv.fields, name) {
                    Some(f) => match parse_dec_spec(f.value) {
                        Some(d) => Ok(a.push(d)),
                        None => Ok(a),
                    },
                    None => Ok(a),
                },
            },
        }
    }
}

pub proof fn lemma_amounts_err_sticky(details: Seq<Seq<u8>>, cb: Copybook, name: Seq<char>, enc: Encoding, a: nat, b: nat)
    requires
        a <= b <= details.len(),
        amounts_fold(details, cb, name, enc, a) is Err,
    ensures
        amounts_fold(details, cb, name, enc, b) == amounts_fold(details, cb, name, enc, a),
    decreases b - a,
{
    if a < b {
        lemma_amounts_err_sticky(details, cb, name, enc, a, (b - 1) as nat);
    }
}

/// Whether the declared total equals the observed total once both are at the larger scale
/// (`false` when either is not a plain decimal; `None` on 128-bit overflow).
pub open spec fn totals_agree(declared: Seq<char>, observed: Seq<char>) -> Option<bool> {
    match (parse_dec_spec(declared), parse_dec_spec(observed)) {
        (Some((dn, ds, dsc)), Some((on, os, osc))) => {
            let t = if dsc > osc { dsc } else { osc };
            match (at_scale_opt(dn, ds, dsc, t), at_scale_opt(on, os, osc, t)) {
                (Some(x), Some(y)) => Some(x == y),
                _ => None,
            }
        },
        _ => Some(false),
    }
}

pub open spec fn count_agrees(declared: Seq<char>, observed: nat) -> bool {
    match parse_dec_spec(declared) {
        Some((_, v, _)) => v == observed,
        None => false,
    }
}

pub open spec fn bc_manifest(trailer: Seq<u8>, dcount: Seq<char>, n: nat, cm: bool, dtotal: Seq<char>, ototal: Seq<char>, amount_field: Seq<char>, tm: bool) -> Seq<char> {
    "{\"schema\":\"kobold-batch-control-manifest-v1\",\"court\":\"KOBOLD.BATCH.CONTROL.1\",\"trailer_sha256\":"@
        + js(spec_sha256_hex(trailer)) + ",\"count\":{\"declared\":"@ + js(dcount) + ",\"observed\":"@
        + dec_nat(n) + ",\"match\":"@ + bool_text(cm) + "},\"total\":{\"declared\":"@ + js(dtotal)
        + ",\"observed\":"@ + js(ototal) + ",\"amount_field\":"@ + js(amount_field) + ",\"match\":"@
        + bool_text(tm) + "}}"@
}

pub open spec fn bc_casefile(manifest: Seq<char>, reconciled: bool) -> Seq<char> {
    "{\"schema\":\"kobold-batch-control-forensic-casefile-v1\",\"court\":\"KOBOLD.BATCH.CONTROL.1\",\"manifest\":"@
        + manifest + ",\"truth_layers\":{\"control_field_truth\":true,\"reconciliation_truth\":"@ + bool_text(
        reconciled,
    )
        + ",\"batch_correctness\":false,\"settlement_truth\":false,\"business_meaning\":false},\"negative_capabilities\":[\"NEG.BATCH_CONTROL.MATCH_NOT_CORRECTNESS\",\"NEG.BATCH_CONTROL.MISMATCH_NOT_CAUSE\",\"NEG.BATCH_CONTROL.NO_SETTLEMENT\",\"NEG.BATCH_CONTROL.REQUIRES_DECLARED_FIELDS\",\"NEG.BATCH_CONTROL.NO_RESTART_CHECKPOINT\",\"NEG.BATCH_CONTROL.WRITE_BACK_NOT_CLAIMED\"]}\n"@
}

pub struct BatchControlView {
    pub manifest: Seq<char>,
    pub casefile: Seq<char>,
    pub count_match: bool,
    pub total_match: bool,
}

/// The message of the error reported when the control arithmetic leaves the 128-bit range.
pub open spec fn overflow_error() -> ShimErrorView {
    ShimErrorView::Layout("control total arithmetic exceeds the 128-bit range"@)
}

/// The batch-control outcome: detail decode failures first (in record order), then the observed
/// total, then the trailer decode, then the comparison.
pub open spec fn batch_control_spec(
    details: Seq<Seq<u8>>,
    dcb: Copybook,
    amount_field: Seq<char>,
    trailer: Seq<u8>,
    tcb: Copybook,
    count_field: Seq<char>,
    total_field: Seq<char>,
    enc: Encoding,
) -> Result<BatchControlView, ShimErrorView> {
    match amounts_fold(details, dcb, amount_field, enc, details.len()) {
        Err(e) => Err(e),
        Ok(a) => {
            let sc = max_scale(a);
            match sum_opt(a, sc) {
                None => Err(overflow_error()),
                Some(sum) => match fmt_dec_opt(sum, sc) {
                    None => Err(overflow_error()),
                    Some(ototal) => match decode_record_spec(tcb, trailer, enc) {
                        Err(e) => Err(e),
                        Ok(tv) => {
                            let dcount = value_of(tv.fields, count_field);
                            let dtotal = value_of(tv.fields, total_field);
                            let cm = count_agrees(dcount, details.len());
                            match totals_agree(dtotal, ototal) {
                                None => Err(overflow_error()),
                                Some(tm) => {
                                    let m = bc_manifest(trailer, dcount, details.len(), cm, dtotal, ototal, amount_field, tm);
                                    Ok(BatchControlView { manifest: m, casefile: bc_casefile(m, cm && tm), count_match: cm, total_match: tm })
                                },
                            }
                        },
                    },
                },
            }
        },
    }
}

fn overflow() -> (e: ShimError)
    ensures
        shim_error_view(e) == overflow_error(),
{
    ShimError::Layout(String::from_str("control total arithmetic exceeds the 128-bit range"))
}

fn find_value(fields: &Vec<DecodedField>, name: &str) -> (r: String)
    ensures
        r@ == value_of(fields_view(fields@), name@),
{
    let ghost fv = fields_view(fields@);
    let mut i: usize = 0;
    assert(fv.skip(0) =~= fv);
    while i < fields.len()
        invariant
            i <= fields@.len(),
            fv == fields_view(fields@),
            first_field(fv.skip(i as int), name@) == first_field(fv, name@),
        decreases fields@.len() - i,
    {
        assert(fv.skip(i as int).drop_first() =~= fv.skip(i + 1));
        assert(fv.skip(i as int)[0] == fv[i as int]);
        if str_eq(fields[i].name.as_str(), name) {
            return fields[i].value.clone();
        }
        i += 1;
    }
    assert(fv.skip(i as int).len() == 0);
    String::new()
}

pub open spec fn recs_view(records: Seq<&[u8]>) -> Seq<Seq<u8>> {
    records.map_values(|r: &[u8]| r@)
}

/// Validate a batch's trailer control fields against the observed detail records: the detail
/// count against the trailer's `count_field`, and the sum of `amount_field` over the details
/// against the trailer's `total_field`.
#[verifier::rlimit(40)]
pub fn batch_control(
    detail_records: &[&[u8]],
    detail_copybook: &Copybook,
    amount_field: &str,
    trailer_record: &[u8],
    trailer_copybook: &Copybook,
    count_field: &str,
    total_field: &str,
    encoding: Encoding,
) -> (r: Result<BatchControl, ShimError>)
    ensures
        match r {
            Ok(b) => batch_control_spec(
                recs_view(detail_records@),
                *detail_copybook,
                amount_field@,
                trailer_record@,
                *trailer_copybook,
                count_field@,
                total_field@,
                encoding,
            ) == Ok::<BatchControlView, ShimErrorView>(
                BatchControlView {
                    manifest: b.manifest_json@,
                    casefile: b.casefile_json@,
                    count_match: b.count_match,
                    total_match: b.total_match,
                },
            ),
            Err(e) => batch_control_spec(
                recs_view(detail_records@),
                *detail_copybook,
                amount_field@,
                trailer_record@,
                *trailer_copybook,
                count_field@,
                total_field@,
                encoding,
            ) == Err::<BatchControlView, ShimErrorView>(shim_error_view(e)),
        },
{
    let ghost dv = recs_view(detail_records@);
    let observed_count = detail_records.len();
    // The parsed amounts, in record order.
    let mut amounts: Vec<(bool, i128, u32)> = Vec::new();
    let mut i: usize = 0;
    assert(amounts@.map_values(|d: (bool, i128, u32)| (d.0, d.1 as int, d.2)) =~= seq![]);
    while i < detail_records.len()
        invariant
            i <= detail_records@.len(),
            dv == recs_view(detail_records@),
            amounts_fold(dv, *detail_copybook, amount_field@, encoding, i as nat) == Ok::<
                Seq<(bool, int, u32)>,
                ShimErrorView,
            >(amounts@.map_values(|d: (bool, i128, u32)| (d.0, d.1 as int, d.2))),
            forall|k: int| 0 <= k < amounts@.len() ==> #[trigger] amounts@[k].1 >= 0,
        decreases detail_records@.len() - i,
    {
        let rec: &[u8] = detail_records[i];
        assert(dv[i as int] == rec@);
        let decoded = match decode_record_encoded(detail_copybook, rec, encoding) {
            Ok(d) => d,
            Err(e) => {
                proof {
                    lemma_amounts_err_sticky(dv, *detail_copybook, amount_field@, encoding, (i + 1) as nat, dv.len());
                }
                return Err(e);
            },
        };
        let ghost fv = record_view(decoded).fields;
        let ghost before = amounts@.map_values(|d: (bool, i128, u32)| (d.0, d.1 as int, d.2));
        let mut k: usize = 0;
        assert(fv.skip(0) =~= fv);
        while k < decoded.fields.len()
            invariant
                k <= decoded.fields@.len(),
                fv == fields_view(decoded.fields@),
                first_field(fv.skip(k as int), amount_field@) == first_field(fv, amount_field@),
            ensures
                k <= decoded.fields@.len(),
                first_field(fv.skip(k as int), amount_field@) == first_field(fv, amount_field@),
                k < decoded.fields@.len() ==> decoded.fields@[k as int].name@ == amount_field@,
            decreases decoded.fields@.len() - k,
        {
            assert(fv.skip(k as int).drop_first() =~= fv.skip(k + 1));
            assert(fv.skip(k as int)[0] == fv[k as int]);
            if str_eq(decoded.fields[k].name.as_str(), amount_field) {
                break;
            }
            k += 1;
        }
        if k < decoded.fields.len() {
            assert(fv.skip(k as int)[0] == fv[k as int]);
            assert(first_field(fv, amount_field@) == Some(fv[k as int]));
            match parse_dec(decoded.fields[k].value.as_str()) {
                Some(d) => {
                    amounts.push(d);
                    assert(amounts@.map_values(|d: (bool, i128, u32)| (d.0, d.1 as int, d.2)) =~= before.push(
                        (d.0, d.1 as int, d.2),
                    ));
                },
                None => {},
            }
        } else {
            assert(fv.skip(k as int).len() == 0);
        }
        i += 1;
    }
    let ghost av = amounts@.map_values(|d: (bool, i128, u32)| (d.0, d.1 as int, d.2));
    assert(dv.len() == detail_records@.len());
    // The scale of the observed sum: the largest fraction-digit count.
    let mut sum_scale: u32 = 0;
    let mut j: usize = 0;
    while j < amounts.len()
        invariant
            j <= amounts@.len(),
            av == amounts@.map_values(|d: (bool, i128, u32)| (d.0, d.1 as int, d.2)),
            sum_scale == max_scale(av.take(j as int)),
        decreases amounts@.len() - j,
    {
        assert(av.take(j + 1).drop_last() =~= av.take(j as int));
        if amounts[j].2 > sum_scale {
            sum_scale = amounts[j].2;
        }
        j += 1;
    }
    assert(av.take(j as int) =~= av);
    let mut sum: i128 = 0;
    let mut j: usize = 0;
    assert(av.take(0) =~= seq![]);
    while j < amounts.len()
        invariant
            j <= amounts@.len(),
            av == amounts@.map_values(|d: (bool, i128, u32)| (d.0, d.1 as int, d.2)),
            forall|k: int| 0 <= k < amounts@.len() ==> #[trigger] amounts@[k].1 >= 0,
            sum_opt(av.take(j as int), sum_scale) == Some(sum as int),
            sum_scale == max_scale(av),
            dv == recs_view(detail_records@),
            dv.len() == detail_records@.len(),
            amounts_fold(dv, *detail_copybook, amount_field@, encoding, dv.len()) == Ok::<Seq<(bool, int, u32)>, ShimErrorView>(av),
        decreases amounts@.len() - j,
    {
        assert(av.take(j + 1).drop_last() =~= av.take(j as int));
        assert(av.take(j + 1).last() == av[j as int]);
        let (n, sc, s) = amounts[j];
        assert(amounts@[j as int].1 >= 0);
        assert(av[j as int] == (n, sc as int, s));
        let x = match at_scale(n, sc, s, sum_scale) {
            Some(x) => x,
            None => {
                proof {
                    assert(sum_opt(av.take(j + 1), sum_scale) is None);
                    lemma_sum_none_sticky(av, sum_scale, (j + 1) as nat);
                }
                return Err(overflow());
            },
        };
        sum = match sum.checked_add(x) {
            Some(t) => t,
            None => {
                proof {
                    assert(sum_opt(av.take(j + 1), sum_scale) is None);
                    lemma_sum_none_sticky(av, sum_scale, (j + 1) as nat);
                }
                return Err(overflow());
            },
        };
        j += 1;
    }
    assert(av.take(j as int) =~= av);
    let observed_total = match fmt_dec(sum, sum_scale) {
        Some(t) => t,
        None => {
            return Err(overflow());
        },
    };
    let trailer = decode_record_encoded(trailer_copybook, trailer_record, encoding)?;
    let declared_count_raw = find_value(&trailer.fields, count_field);
    let declared_total_raw = find_value(&trailer.fields, total_field);
    let count_match = match parse_dec(declared_count_raw.as_str()) {
        Some((_, v, _)) => v == observed_count as i128,
        None => false,
    };
    let total_match = match (parse_dec(declared_total_raw.as_str()), parse_dec(observed_total.as_str())) {
        (Some((dn, ds, dsc)), Some((on, os, osc))) => {
            let t = if dsc > osc { dsc } else { osc };
            match (at_scale(dn, ds, dsc, t), at_scale(on, os, osc, t)) {
                (Some(x), Some(y)) => x == y,
                _ => {
                    return Err(overflow());
                },
            }
        },
        _ => false,
    };
    let manifest_json = bc_manifest_exec(
        trailer_record,
        &declared_count_raw,
        observed_count,
        count_match,
        &declared_total_raw,
        &observed_total,
        amount_field,
        total_match,
    );
    let mut casefile_json = String::new();
    push_lit(
        &mut casefile_json,
        "{\"schema\":\"kobold-batch-control-forensic-casefile-v1\",\"court\":\"KOBOLD.BATCH.CONTROL.1\",\"manifest\":",
    );
    casefile_json.append(manifest_json.as_str());
    push_lit(&mut casefile_json, ",\"truth_layers\":{\"control_field_truth\":true,\"reconciliation_truth\":");
    push_bool(&mut casefile_json, count_match && total_match);
    push_lit(
        &mut casefile_json,
        ",\"batch_correctness\":false,\"settlement_truth\":false,\"business_meaning\":false},\"negative_capabilities\":[\"NEG.BATCH_CONTROL.MATCH_NOT_CORRECTNESS\",\"NEG.BATCH_CONTROL.MISMATCH_NOT_CAUSE\",\"NEG.BATCH_CONTROL.NO_SETTLEMENT\",\"NEG.BATCH_CONTROL.REQUIRES_DECLARED_FIELDS\",\"NEG.BATCH_CONTROL.NO_RESTART_CHECKPOINT\",\"NEG.BATCH_CONTROL.WRITE_BACK_NOT_CLAIMED\"]}\n",
    );
    assert(casefile_json@ =~= bc_casefile(manifest_json@, count_match && total_match));
    Ok(BatchControl { manifest_json, casefile_json, count_match, total_match })
}

pub proof fn lemma_sum_none_sticky(a: Seq<(bool, int, u32)>, target: u32, n: nat)
    requires
        n <= a.len(),
        sum_opt(a.take(n as int), target) is None,
    ensures
        sum_opt(a, target) is None,
    decreases a.len() - n,
{
    if n < a.len() {
        assert(a.take(n + 1 as int).drop_last() =~= a.take(n as int));
        lemma_sum_none_sticky(a, target, n + 1);
    } else {
        assert(a.take(n as int) =~= a);
    }
}

fn bc_manifest_exec(
    trailer: &[u8],
    dcount: &String,
    n: usize,
    cm: bool,
    dtotal: &String,
    ototal: &String,
    amount_field: &str,
    tm: bool,
) -> (s: String)
    ensures
        s@ == bc_manifest(trailer@, dcount@, n as nat, cm, dtotal@, ototal@, amount_field@, tm),
{
    let mut s = String::new();
    push_lit(&mut s, "{\"schema\":\"kobold-batch-control-manifest-v1\",\"court\":\"KOBOLD.BATCH.CONTROL.1\",\"trailer_sha256\":");
    let h = sha256_hex(trailer);
    push_js(&mut s, h.as_str());
    push_lit(&mut s, ",\"count\":{\"declared\":");
    push_js(&mut s, dcount.as_str());
    push_lit(&mut s, ",\"observed\":");
    push_usize(&mut s, n);
    push_lit(&mut s, ",\"match\":");
    push_bool(&mut s, cm);
    push_lit(&mut s, "},\"total\":{\"declared\":");
    push_js(&mut s, dtotal.as_str());
    push_lit(&mut s, ",\"observed\":");
    push_js(&mut s, ototal.as_str());
    push_lit(&mut s, ",\"amount_field\":");
    push_js(&mut s, amount_field);
    push_lit(&mut s, ",\"match\":");
    push_bool(&mut s, tm);
    push_lit(&mut s, "}}");
    assert(s@ =~= bc_manifest(trailer@, dcount@, n as nat, cm, dtotal@, ototal@, amount_field@, tm));
    s
}

} // verus!
