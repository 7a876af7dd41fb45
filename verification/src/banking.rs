//! Header/detail/trailer banking court: declared-vs-observed control totals.
//!
//! The court does not promote decoded records into banking truth. It routes records by a
//! declared variant discriminator and reconciles the trailer's declared control totals against the
//! observed totals. Everything is driven by a caller-declared profile: nothing is auto-detected,
//! and debit/credit polarity is taken only from the declared indicator field, never from a numeric
//! sign. A balanced file is not a correct file; a matched trailer is not ledger acceptance.
//!
//! Amounts are whole cents in `i64`; a running total that would leave that range is reported as an
//! error rather than wrapped.
use crate::batch_control::first_field;
use crate::copybook::{all_digits, digits_value, lemma_digits_value_prefix_grows, parse_unsigned, trim_ws, trimmed_chars};
use crate::decode::{
    chunks_spec, decode_record_encoded, decode_record_spec, fields_view, lemma_chunks_step, lemma_skip_head, record_view,
    shim_error_view, zero_pad, Copybook, DecodedField, Encoding, FieldView, ShimError, ShimErrorView,
};
use crate::file::{exit_code_value, ExitCode};
use crate::sha256::{sha256_hex, spec_sha256_hex};
use crate::text::{
    bool_text, chars_of, debug_str, dec_int, dec_nat, escape_spec, hex_spec, join_comma, js, lemma_strs_push,
    push_bool, push_char, push_escaped, push_i64, push_joined, push_js, push_lit, push_u128, push_u64, push_usize,
    spec_debug_str, str_eq, strs_view, bytes_eq, string_of, push_range,
};
use vstd::prelude::*;

verus! {

/// A record-type variant: the discriminator bytes that select it, a name, and its copybook.
pub struct Variant<'a> {
    pub discriminator: &'a [u8],
    pub name: &'a str,
    pub copybook: &'a Copybook,
}

/// The declared variant-routing profile: where the discriminator lives, and the variant table.
pub struct VariantSpec<'a> {
    pub discriminator_offset: usize,
    pub discriminator_len: usize,
    pub variants: &'a [Variant<'a>],
}

/// The declared numeric role of a field. Only `Amount` fields are summed into debit/credit
/// totals; identifiers, codes, rates, sequences and counts are numeric but never money.
#[derive(Debug, Clone, Copy, PartialEq, Eq, Structural)]
pub enum NumericRole {
    Amount,
    Rate,
    Identifier,
    Code,
    Sequence,
    Count,
    Unknown,
}

pub open spec fn role_text(r: NumericRole) -> Seq<char> {
    match r {
        NumericRole::Amount => "amount"@,
        NumericRole::Rate => "rate"@,
        NumericRole::Identifier => "identifier"@,
        NumericRole::Code => "code"@,
        NumericRole::Sequence => "sequence"@,
        NumericRole::Count => "count"@,
        NumericRole::Unknown => "unknown"@,
    }
}

impl NumericRole {
    /// The role's name in the accounting profile.
    pub fn as_str(self) -> (s: &'static str)
        ensures
            s@ == role_text(self),
    {
        match self {
            NumericRole::Amount => "amount",
            NumericRole::Rate => "rate",
            NumericRole::Identifier => "identifier",
            NumericRole::Code => "code",
            NumericRole::Sequence => "sequence",
            NumericRole::Count => "count",
            NumericRole::Unknown => "unknown",
        }
    }
}

/// A declared debit/credit polarity profile: the posting side comes only from `source_field`'s
/// value against the declared value tables; an unknown value fails closed.
pub struct PolarityProfile<'a> {
    pub amount_field: &'a str,
    pub source_field: &'a str,
    pub debit_values: &'a [&'a str],
    pub credit_values: &'a [&'a str],
}

/// The declared accounting profile: numeric roles per field, and the polarity profile.
pub struct AccountingProfile<'a> {
    pub numeric_roles: &'a [(&'a str, NumericRole)],
    pub polarity: PolarityProfile<'a>,
}

/// The role declared for a field (the first declaration wins; `Unknown` when undeclared).
pub open spec fn role_of(roles: Seq<(&str, NumericRole)>, field: Seq<char>) -> NumericRole
    decreases roles.len(),
{
    if roles.len() == 0 {
        NumericRole::Unknown
    } else if roles[0].0@ == field {
        roles[0].1
    } else {
        role_of(roles.drop_first(), field)
    }
}

impl<'a> AccountingProfile<'a> {
    /// The declared role of `field`.
    pub fn role(&self, field: &str) -> (r: NumericRole)
        ensures
            r == role_of(self.numeric_roles@, field@),
    {
        let roles = self.numeric_roles;
        let mut i: usize = 0;
        assert(roles@.skip(0) =~= roles@);
        while i < roles.len()
            invariant
                i <= roles@.len(),
                roles@ == self.numeric_roles@,
                role_of(roles@.skip(i as int), field@) == role_of(roles@, field@),
            decreases roles@.len() - i,
        {
            assert(roles@.skip(i as int).drop_first() =~= roles@.skip(i + 1));
            assert(roles@.skip(i as int)[0] == roles@[i as int]);
            if str_eq(roles[i].0, field) {
                return roles[i].1;
            }
            i += 1;
        }
        assert(roles@.skip(i as int).len() == 0);
        NumericRole::Unknown
    }
}

/// The declared control profile: variant names, trailer-total fields, and the accounting profile.
pub struct ControlSpec<'a> {
    pub detail_variant: &'a str,
    pub trailer_variant: &'a str,
    pub trailer_count_field: &'a str,
    pub trailer_debit_field: &'a str,
    pub trailer_credit_field: &'a str,
    pub accounting: AccountingProfile<'a>,
}

/// The banking reconciliation outcome.
pub struct BankingResult {
    pub casefile_json: String,
    pub balanced: bool,
    pub verdict: ExitCode,
    /// Findings (rule id, message): non-empty iff the file did not reconcile.
    pub findings: Vec<(String, String)>,
    /// The declared-vs-observed numbers, structurally.
    pub summary: BankingSummary,
}

/// The declared-vs-observed control numbers.
#[derive(Debug, Clone, PartialEq, Eq, Structural)]
pub struct BankingSummary {
    pub declared_count: Option<u64>,
    pub observed_count: u64,
    pub declared_debit_cents: Option<i64>,
    pub observed_debit_cents: i64,
    pub declared_credit_cents: Option<i64>,
    pub observed_credit_cents: i64,
    pub unknown_record_type_count: usize,
    pub unknown_polarity_count: usize,
}

impl Default for BankingSummary {
    fn default() -> (s: Self)
        ensures
            s == (BankingSummary {
                declared_count: None,
                observed_count: 0,
                declared_debit_cents: None,
                observed_debit_cents: 0,
                declared_credit_cents: None,
                observed_credit_cents: 0,
                unknown_record_type_count: 0,
                unknown_polarity_count: 0,
            }),
    {
        BankingSummary {
            declared_count: None,
            observed_count: 0,
            declared_debit_cents: None,
            observed_debit_cents: 0,
            declared_credit_cents: None,
            observed_credit_cents: 0,
            unknown_record_type_count: 0,
            unknown_polarity_count: 0,
        }
    }
}

// ----------------------------------------------------------------------------------------------
// Cents
// ----------------------------------------------------------------------------------------------

/// `s` with every leading `-` and `+` removed.
pub open spec fn strip_signs(s: Seq<char>) -> Seq<char>
    decreases s.len(),
{
    if s.len() > 0 && (s[0] == '-' || s[0] == '+') {
        strip_signs(s.drop_first())
    } else {
        s
    }
}

/// Index of the first `.` (the length when there is none).
pub open spec fn dot_at(t: Seq<char>) -> int {
    crate::batch_control::find_dot(t, 0)
}

/// A clean two-decimal amount (`"-12.30"`, `"100.00"`) as signed whole cents: a leading `-`
/// makes it negative, any run of leading signs is skipped, then digits, `.`, exactly two digits.
/// `None` when the text is not such an amount or its cents leave the `i64` range.
pub open spec fn to_cents_spec(v: Seq<char>) -> Option<int> {
    let neg = v.len() > 0 && v[0] == '-';
    let t = strip_signs(v);
    let d = dot_at(t);
    if d >= t.len() {
        None
    } else {
        let ip = t.take(d);
        let fp = t.skip(d + 1);
        if fp.len() != 2 || !all_digits(ip + fp) || ip.len() == 0 {
            None
        } else {
            let cents = digits_value(ip) * 100 + digits_value(fp);
            if digits_value(ip) > i64::MAX || cents > i64::MAX {
                None
            } else {
                Some(if neg { -cents } else { cents as int })
            }
        }
    }
}

pub fn strip_signs_len(v: &Vec<char>) -> (k: usize)
    ensures
        k <= v@.len(),
        v@.skip(k as int) == strip_signs(v@),
{
    let mut k: usize = 0;
    assert(v@.skip(0) =~= v@);
    while k < v.len() && (v[k] == '-' || v[k] == '+')
        invariant
            k <= v@.len(),
            strip_signs(v@.skip(k as int)) == strip_signs(v@),
        decreases v@.len() - k,
    {
        assert(v@.skip(k as int).drop_first() =~= v@.skip(k + 1));
        k += 1;
    }
    k
}

pub fn digits_u64(d: &Vec<char>, a: usize, b: usize) -> (r: Option<u64>)
    requires
        a <= b <= d@.len(),
    ensures
        match r {
            Some(v) => all_digits(d@.subrange(a as int, b as int)) && v == digits_value(d@.subrange(a as int, b as int)),
            None => !all_digits(d@.subrange(a as int, b as int)) || digits_value(d@.subrange(a as int, b as int)) > u64::MAX,
        },
{
    let ghost s = d@.subrange(a as int, b as int);
    let mut v: u64 = 0;
    let mut i: usize = a;
    while i < b
        invariant
            a <= i <= b <= d@.len(),
            s == d@.subrange(a as int, b as int),
            all_digits(s.take(i - a)),
            v == digits_value(s.take(i - a)),
        decreases b - i,
    {
        let c = d[i];
        assert(s[i - a] == c);
        if !('0' <= c && c <= '9') {
            return None;
        }
        let x = (c as u32 - 0x30) as u64;
        assert(s.take(i + 1 - a).drop_last() =~= s.take(i - a));
        assert(all_digits(s.take(i + 1 - a)));
        match v.checked_mul(10) {
            None => {
                proof {
                    if all_digits(s) {
                        lemma_digits_value_prefix_grows(s, i + 1 - a);
                    }
                }
                return None;
            },
            Some(m) => match m.checked_add(x) {
                None => {
                    proof {
                        if all_digits(s) {
                            lemma_digits_value_prefix_grows(s, i + 1 - a);
                        }
                    }
                    return None;
                },
                Some(nv) => {
                    v = nv;
                },
            },
        }
        i += 1;
    }
    assert(s.take(i - a) =~= s);
    Some(v)
}

proof fn lemma_two_digits(s: Seq<char>)
    requires
        s.len() == 2,
        all_digits(s),
    ensures
        digits_value(s) < 100,
{
    assert(s.drop_last().drop_last() =~= Seq::<char>::empty());
    assert('0' <= s[0] <= '9');
    assert('0' <= s[1] <= '9');
    assert(s.drop_last()[0] == s[0]);
    reveal_with_fuel(digits_value, 3);
}

proof fn lemma_digits_concat(ip: Seq<char>, fp: Seq<char>)
    ensures
        all_digits(ip + fp) <==> (all_digits(ip) && all_digits(fp)),
{
    if all_digits(ip + fp) {
        assert forall|i: int| 0 <= i < ip.len() implies '0' <= #[trigger] ip[i] && ip[i] <= '9' by {
            assert((ip + fp)[i] == ip[i]);
        }
        assert forall|i: int| 0 <= i < fp.len() implies '0' <= #[trigger] fp[i] && fp[i] <= '9' by {
            assert((ip + fp)[ip.len() + i] == fp[i]);
        }
    }
    if all_digits(ip) && all_digits(fp) {
        assert forall|i: int| 0 <= i < (ip + fp).len() implies '0' <= #[trigger] (ip + fp)[i] && (ip + fp)[i] <= '9' by {
            if i < ip.len() {
                assert((ip + fp)[i] == ip[i]);
            } else {
                assert((ip + fp)[i] == fp[i - ip.len()]);
            }
        }
    }
}

/// Parse a clean two-decimal amount to signed whole cents (see [`to_cents_spec`]).
pub fn to_cents(v: &str) -> (r: Option<i64>)
    ensures
        match to_cents_spec(v@) {
            Some(c) => r matches Some(x) && x as int == c,
            None => r is None,
        },
{
    let all = chars_of(v);
    let neg = all.len() > 0 && all[0] == '-';
    let k = strip_signs_len(&all);
    let ghost t = all@.skip(k as int);
    let mut d = k;
    while d < all.len() && all[d] != '.'
        invariant
            k <= d <= all@.len(),
            t == all@.skip(k as int),
            crate::batch_control::find_dot(t, (d - k) as int) == dot_at(t),
        decreases all@.len() - d,
    {
        d += 1;
    }
    if d >= all.len() {
        assert(dot_at(t) == t.len());
        return None;
    }
    assert(t[(d - k) as int] == all@[d as int]);
    assert(dot_at(t) == d - k);
    let ghost ip = t.take((d - k) as int);
    let ghost fp = t.skip((d - k) as int + 1);
    assert(ip =~= all@.subrange(k as int, d as int));
    assert(fp =~= all@.subrange(d + 1, all@.len() as int));
    proof {
        lemma_digits_concat(ip, fp);
    }
    if all.len() - (d + 1) != 2 || d == k {
        return None;
    }
    let ipv = match digits_u64(&all, k, d) {
        Some(x) => x,
        None => {
            return None;
        },
    };
    let fpv = match digits_u64(&all, d + 1, all.len()) {
        Some(x) => x,
        None => {
            proof {
                if all_digits(fp) {
                    lemma_two_digits(fp);
                }
            }
            return None;
        },
    };
    proof {
        lemma_two_digits(fp);
    }
    if ipv > 92_233_720_368_547_758u64 {
        return None;
    }
    let cents: u64 = ipv * 100 + fpv;
    if cents > 9_223_372_036_854_775_807u64 {
        return None;
    }
    let c = cents as i64;
    Some(if neg { -c } else { c })
}

/// Cents as `[-]units.cc`.
pub open spec fn money_spec(c: int) -> Seq<char> {
    let m: nat = if c < 0 { (-c) as nat } else { c as nat };
    (if c < 0 { seq!['-'] } else { Seq::<char>::empty() }) + dec_nat(m / 100) + seq!['.'] + zero_pad(dec_nat(m % 100), 2)
}

pub fn money(cents: i64) -> (s: String)
    ensures
        s@ == money_spec(cents as int),
{
    let mut s = String::new();
    let m: u128 = if cents < 0 { (-(cents as i128)) as u128 } else { cents as u128 };
    if cents < 0 {
        push_char(&mut s, '-');
    }
    push_u128(&mut s, m / 100);
    push_char(&mut s, '.');
    if m % 100 < 10 {
        push_char(&mut s, '0');
        proof {
            reveal_with_fuel(dec_nat, 2);
        }
    } else {
        proof {
            reveal_with_fuel(dec_nat, 3);
        }
    }
    push_u128(&mut s, m % 100);
    assert(s@ =~= money_spec(cents as int));
    s
}

// ----------------------------------------------------------------------------------------------
// The reconciliation model
// ----------------------------------------------------------------------------------------------

/// The value of the named field of a record decoded under `cb` (`None` when the record does not
/// decode or has no such field).
pub open spec fn field_value(cb: Copybook, rec: Seq<u8>, name: Seq<char>, enc: Encoding) -> Option<Seq<char>> {
    match decode_record_spec(cb, rec, enc) {
        Err(_) => None,
        Ok(rv) => match first_field(rv.fields, name) {
            Some(f) => Some(f.value),
            None => None,
        },
    }
}

pub open spec fn disc_of(rec: Seq<u8>, off: usize, len: usize) -> Seq<u8> {
    if off + len <= rec.len() {
        rec.subrange(off as int, off + len)
    } else {
        seq![]
    }
}

/// The first variant (from `k` on) whose discriminator is `disc`.
pub open spec fn first_variant(vs: Seq<Variant>, disc: Seq<u8>, k: int) -> Option<int>
    decreases vs.len() - k,
{
    if k < 0 || k >= vs.len() {
        None
    } else if vs[k].discriminator@ == disc {
        Some(k)
    } else {
        first_variant(vs, disc, k + 1)
    }
}

/// Whether one of the declared values is `i`.
pub open spec fn declared(vals: Seq<&str>, i: Seq<char>) -> bool {
    exists|j: int| 0 <= j < vals.len() && #[trigger] vals[j]@ == i
}

/// The index of the tally entry for `name` (from `k` on).
pub open spec fn tally_index(vc: Seq<(Seq<char>, nat)>, name: Seq<char>, k: int) -> Option<int>
    decreases vc.len() - k,
{
    if k < 0 || k >= vc.len() {
        None
    } else if vc[k].0 == name {
        Some(k)
    } else {
        tally_index(vc, name, k + 1)
    }
}

/// One more record of a variant.
pub open spec fn bump(vc: Seq<(Seq<char>, nat)>, name: Seq<char>) -> Seq<(Seq<char>, nat)> {
    match tally_index(vc, name, 0) {
        Some(k) => vc.update(k, (name, vc[k].1 + 1)),
        None => vc.push((name, 1)),
    }
}

pub struct BankAcc {
    pub findings: Seq<(Seq<char>, Seq<char>)>,
    pub obs_count: nat,
    pub obs_debit: int,
    pub obs_credit: int,
    pub vcounts: Seq<(Seq<char>, nat)>,
    pub decl_count: Option<u64>,
    pub decl_debit: Option<int>,
    pub decl_credit: Option<int>,
}

pub open spec fn fits_i64(x: int) -> bool {
    i64::MIN <= x <= i64::MAX
}

pub open spec fn unknown_type_msg(idx: nat, disc: Seq<u8>) -> Seq<char> {
    "record "@ + dec_nat(idx) + ": unknown discriminator "@ + hex_spec(disc) + " (fail closed)"@
}

pub open spec fn unknown_polarity_msg(idx: nat, v: Seq<char>) -> Seq<char> {
    "record "@ + dec_nat(idx) + ": polarity value "@ + spec_debug_str(v) + " not in declared profile (fail closed)"@
}

pub open spec fn dirty_detail_msg(idx: nat) -> Seq<char> {
    "record "@ + dec_nat(idx) + ": amount/polarity not cleanly decodable"@
}

/// A detail record's effect: the amount goes to the side its declared indicator selects, and only
/// when the amount field is declared with role `Amount` (a rate, identifier or code is numeric but
/// never summed as money); an undeclared indicator or an undecodable amount/indicator is a finding.
/// `None` when a running total leaves the `i64` range.
pub open spec fn post_detail(acc: BankAcc, idx: nat, cb: Copybook, rec: Seq<u8>, control: ControlSpec, enc: Encoding) -> Option<BankAcc> {
    let p = control.accounting.polarity;
    let amt = match field_value(cb, rec, p.amount_field@, enc) {
        Some(s) => to_cents_spec(s),
        None => None,
    };
    let ind = match field_value(cb, rec, p.source_field@, enc) {
        Some(s) => Some(trim_ws(s)),
        None => None,
    };
    let acc1 = BankAcc { obs_count: acc.obs_count + 1, ..acc };
    let summed = role_of(control.accounting.numeric_roles@, p.amount_field@) == NumericRole::Amount;
    match (amt, ind) {
        (Some(c), Some(i)) => if declared(p.debit_values@, i) {
            if !summed {
                Some(acc1)
            } else if fits_i64(acc.obs_debit + c) {
                Some(BankAcc { obs_debit: acc.obs_debit + c, ..acc1 })
            } else {
                None
            }
        } else if declared(p.credit_values@, i) {
            if !summed {
                Some(acc1)
            } else if fits_i64(acc.obs_credit + c) {
                Some(BankAcc { obs_credit: acc.obs_credit + c, ..acc1 })
            } else {
                None
            }
        } else {
            Some(BankAcc { findings: acc.findings.push(("KOBOLD-BANK-UNKNOWN-POLARITY"@, unknown_polarity_msg(idx, i))), ..acc1 })
        },
        _ => Some(BankAcc { findings: acc.findings.push(("KOBOLD-BANK-DIRTY-DETAIL"@, dirty_detail_msg(idx))), ..acc1 }),
    }
}

/// A trailer record's effect: the declared count and totals (a later trailer replaces them).
pub open spec fn read_trailer(acc: BankAcc, cb: Copybook, rec: Seq<u8>, control: ControlSpec, enc: Encoding) -> BankAcc {
    BankAcc {
        decl_count: match field_value(cb, rec, control.trailer_count_field@, enc) {
            Some(s) => match parse_unsigned(trim_ws(s), u64::MAX as nat) {
                Some(n) => Some(n as u64),
                None => None,
            },
            None => None,
        },
        decl_debit: match field_value(cb, rec, control.trailer_debit_field@, enc) {
            Some(s) => to_cents_spec(s),
            None => None,
        },
        decl_credit: match field_value(cb, rec, control.trailer_credit_field@, enc) {
            Some(s) => to_cents_spec(s),
            None => None,
        },
        ..acc
    }
}

/// One record's effect on the reconciliation.
pub open spec fn bank_step(acc: BankAcc, idx: nat, rec: Seq<u8>, variant: VariantSpec, control: ControlSpec, enc: Encoding) -> Option<BankAcc> {
    let vs = variant.variants@;
    let d = disc_of(rec, variant.discriminator_offset, variant.discriminator_len);
    match first_variant(vs, d, 0) {
        None => Some(BankAcc { findings: acc.findings.push(("KOBOLD-BANK-UNKNOWN-RECORD-TYPE"@, unknown_type_msg(idx, d))), ..acc }),
        Some(m) => {
            let v = vs[m];
            let acc2 = BankAcc { vcounts: bump(acc.vcounts, v.name@), ..acc };
            if v.name@ == control.detail_variant@ {
                post_detail(acc2, idx, *v.copybook, rec, control, enc)
            } else if v.name@ == control.trailer_variant@ {
                Some(read_trailer(acc2, *v.copybook, rec, control, enc))
            } else {
                Some(acc2)
            }
        },
    }
}

pub open spec fn profile_msg(amount_field: Seq<char>) -> Seq<char> {
    "polarity.amount_field "@ + spec_debug_str(amount_field) + " is not declared numeric role=amount (refusing to sum)"@
}

/// The profile check: the summed field must be declared `Amount`.
pub open spec fn initial_findings(control: ControlSpec) -> Seq<(Seq<char>, Seq<char>)> {
    let a = control.accounting;
    if role_of(a.numeric_roles@, a.polarity.amount_field@) != NumericRole::Amount {
        seq![("KOBOLD-BANK-PROFILE-INCONSISTENT"@, profile_msg(a.polarity.amount_field@))]
    } else {
        seq![]
    }
}

/// Reconcile the first `n` chunks (`None` on `i64` overflow of a running total).
pub open spec fn bank_fold(chunks: Seq<Seq<u8>>, variant: VariantSpec, control: ControlSpec, enc: Encoding, n: nat) -> Option<BankAcc>
    decreases n,
{
    if n == 0 || n > chunks.len() {
        Some(BankAcc {
            findings: initial_findings(control),
            obs_count: 0,
            obs_debit: 0,
            obs_credit: 0,
            vcounts: seq![],
            decl_count: None,
            decl_debit: None,
            decl_credit: None,
        })
    } else {
        match bank_fold(chunks, variant, control, enc, (n - 1) as nat) {
            None => None,
            Some(acc) => bank_step(acc, (n - 1) as nat, chunks[n - 1], variant, control, enc),
        }
    }
}

pub open spec fn num_text(x: int, money_fmt: bool) -> Seq<char> {
    if money_fmt {
        money_spec(x)
    } else {
        dec_int(x)
    }
}

/// The findings of one declared-vs-observed check.
pub open spec fn check_findings(what: Seq<char>, decl: Option<int>, obs: int, money_fmt: bool) -> Seq<(Seq<char>, Seq<char>)> {
    match decl {
        Some(d) => if d == obs {
            seq![]
        } else {
            seq![("KOBOLD-BANK-CONTROL-MISMATCH"@, what + ": declared "@ + num_text(d, money_fmt) + " != observed "@ + num_text(obs, money_fmt))]
        },
        None => seq![("KOBOLD-BANK-NO-TRAILER"@, what + ": no declared trailer total"@)],
    }
}

pub open spec fn count_decl(acc: BankAcc) -> Option<int> {
    match acc.decl_count {
        Some(c) => Some((c as i64) as int),
        None => None,
    }
}

pub open spec fn final_findings(acc: BankAcc) -> Seq<(Seq<char>, Seq<char>)> {
    acc.findings + check_findings("record_count"@, count_decl(acc), ((acc.obs_count as u64) as i64) as int, false)
        + check_findings("debit_total"@, acc.decl_debit, acc.obs_debit, true) + check_findings(
        "credit_total"@,
        acc.decl_credit,
        acc.obs_credit,
        true,
    )
}

pub open spec fn is_balanced(acc: BankAcc) -> bool {
    final_findings(acc).len() == 0
}

/// `s` without the double quotes at its end.
pub open spec fn trim_end_quotes(s: Seq<char>) -> Seq<char>
    decreases s.len(),
{
    if s.len() > 0 && s.last() == '"' {
        trim_end_quotes(s.drop_last())
    } else {
        s
    }
}

/// A variant name in the tally: its JSON literal with the quotes trimmed from both ends (an
/// escaped quote at the end of the name goes with them; none can stand at the start).
pub open spec fn tally_name(name: Seq<char>) -> Seq<char> {
    trim_end_quotes(escape_spec(name, false))
}

pub open spec fn vc_entries(vc: Seq<(Seq<char>, nat)>) -> Seq<Seq<char>> {
    vc.map_values(|p: (Seq<char>, nat)| tally_name(p.0) + ":"@ + dec_nat(p.1))
}

pub open spec fn finding_entries(f: Seq<(Seq<char>, Seq<char>)>) -> Seq<Seq<char>> {
    f.map_values(|p: (Seq<char>, Seq<char>)| "{\"ruleId\":"@ + js(p.0) + ",\"level\":\"warning\",\"message\":"@ + js(p.1) + "}"@)
}

pub open spec fn role_entries(roles: Seq<(&str, NumericRole)>) -> Seq<Seq<char>> {
    roles.map_values(|p: (&str, NumericRole)| js(p.0@) + ":"@ + js(role_text(p.1)))
}

pub open spec fn value_entries(vals: Seq<&str>) -> Seq<Seq<char>> {
    vals.map_values(|v: &str| js(v@))
}

pub open spec fn acct_json(a: AccountingProfile) -> Seq<char> {
    "{\"schema\":\"kobold-accounting-profile-v1\",\"numeric_roles\":{"@ + join_comma(role_entries(a.numeric_roles@))
        + "},\"polarity\":{\"amount_field\":"@ + js(a.polarity.amount_field@) + ",\"source_field\":"@ + js(
        a.polarity.source_field@,
    ) + ",\"debit_values\":["@ + join_comma(value_entries(a.polarity.debit_values@)) + "],\"credit_values\":["@
        + join_comma(value_entries(a.polarity.credit_values@))
        + "],\"unknown_value_policy\":\"fail_closed\",\"numeric_sign_policy\":\"not_polarity\",\"presentation_marker_policy\":\"not_polarity\",\"field_name_heuristics\":\"not_used\"}}"@
}

pub open spec fn opt_money(c: Option<int>) -> Seq<char> {
    match c {
        Some(x) => js(money_spec(x)),
        None => "null"@,
    }
}

pub open spec fn opt_count(c: Option<u64>) -> Seq<char> {
    match c {
        Some(x) => dec_nat(x as nat),
        None => "null"@,
    }
}

pub open spec fn verdict_of(balanced: bool) -> ExitCode {
    if balanced {
        ExitCode::Success
    } else {
        ExitCode::DecodedWithEvidenceWarnings
    }
}

pub open spec fn banking_casefile(data: Seq<u8>, record_len: nat, acc: BankAcc, control: ControlSpec) -> Seq<char> {
    let b = is_balanced(acc);
    "{\"schema\":\"kobold-banking-forensic-casefile-v1\",\"court\":\"KOBOLD.BANK.2 (ACCOUNTING.PROFILE.1)\",\"input_sha256\":"@
        + js(spec_sha256_hex(data)) + ",\"record_len\":"@ + dec_nat(record_len) + ",\"record_count\":"@ + dec_nat(
        data.len() / record_len,
    )
        + ",\"byte_truth\":{\"proven\":true,\"court\":\"KOBOLD.FILE.1 + sealed gnucobol-rs courts\"},\"record_truth\":{\"proven\":true,\"variant_counts\":{"@
        + join_comma(vc_entries(acc.vcounts)) + "}},\"accounting_profile\":"@ + acct_json(control.accounting)
        + ",\"control_totals\":{\"declared\":{\"count\":"@ + opt_count(acc.decl_count) + ",\"debit\":"@ + opt_money(
        acc.decl_debit,
    ) + ",\"credit\":"@ + opt_money(acc.decl_credit) + "},\"observed\":{\"count\":"@ + dec_nat(acc.obs_count)
        + ",\"debit\":"@ + js(money_spec(acc.obs_debit)) + ",\"credit\":"@ + js(money_spec(acc.obs_credit))
        + "},\"balanced\":"@ + bool_text(b)
        + "},\"posting_truth\":{\"claimed\":false,\"requires\":\"declared posting/balancing profile\"},\"ledger_truth\":{\"claimed\":false},\"business_truth\":{\"claimed\":false},\"negative_capabilities\":[\"NEG.BANKING.SIGN_IS_NOT_POLARITY\",\"NEG.BANKING.CR_DB_IS_NOT_POSTING_SIDE\",\"NEG.NUMERIC.ROLE\",\"NEG.IDENTIFIER.NUMERIC_COERCION\",\"NEG.CURRENCY.SCALE\",\"NEG.REVERSAL.INFERENCE\",\"NEG.BANKING.BALANCED_FILE_IS_NOT_CORRECT_FILE\",\"NEG.BANKING.TRAILER_MATCH_IS_NOT_LEDGER_ACCEPTANCE\",\"NEG.BANKING.POSTING_TRUTH\"],\"findings\":["@
        + join_comma(finding_entries(final_findings(acc))) + "],\"verdict\":"@ + dec_int(
        exit_code_value(verdict_of(b)) as int,
    ) + "}\n"@
}

/// Number of findings with this rule id.
pub open spec fn count_rule(f: Seq<(Seq<char>, Seq<char>)>, rule: Seq<char>) -> nat
    decreases f.len(),
{
    if f.len() == 0 {
        0
    } else {
        count_rule(f.drop_last(), rule) + if f.last().0 == rule { 1nat } else { 0nat }
    }
}

pub struct BankingView {
    pub casefile: Seq<char>,
    pub balanced: bool,
    pub verdict: ExitCode,
    pub findings: Seq<(Seq<char>, Seq<char>)>,
    pub summary: BankingSummary,
}

pub open spec fn overflow_error() -> ShimErrorView {
    ShimErrorView::Layout("banking totals exceed the i64 cents range"@)
}

/// The reconciliation of a header/detail/trailer file under the declared profiles.
pub open spec fn banking_spec(data: Seq<u8>, record_len: usize, variant: VariantSpec, control: ControlSpec, enc: Encoding) -> Result<
    BankingView,
    ShimErrorView,
> {
    if record_len == 0 {
        Err(ShimErrorView::Layout("record_len must be > 0"@))
    } else {
        let chunks = chunks_spec(data, record_len as nat);
        match bank_fold(chunks, variant, control, enc, chunks.len()) {
            None => Err(overflow_error()),
            Some(acc) => {
                let f = final_findings(acc);
                let b = is_balanced(acc);
                Ok(BankingView {
                    casefile: banking_casefile(data, record_len as nat, acc, control),
                    balanced: b,
                    verdict: verdict_of(b),
                    findings: f,
                    summary: BankingSummary {
                        declared_count: acc.decl_count,
                        observed_count: acc.obs_count as u64,
                        declared_debit_cents: match acc.decl_debit {
                            Some(x) => Some(x as i64),
                            None => None,
                        },
                        observed_debit_cents: acc.obs_debit as i64,
                        declared_credit_cents: match acc.decl_credit {
                            Some(x) => Some(x as i64),
                            None => None,
                        },
                        observed_credit_cents: acc.obs_credit as i64,
                        unknown_record_type_count: count_rule(f, "KOBOLD-BANK-UNKNOWN-RECORD-TYPE"@) as usize,
                        unknown_polarity_count: count_rule(f, "KOBOLD-BANK-UNKNOWN-POLARITY"@) as usize,
                    },
                })
            },
        }
    }
}

// ----------------------------------------------------------------------------------------------
// The executable reconciliation
// ----------------------------------------------------------------------------------------------

pub open spec fn pairs_view(v: Seq<(String, String)>) -> Seq<(Seq<char>, Seq<char>)> {
    v.map_values(|p: (String, String)| (p.0@, p.1@))
}

pub open spec fn tally_view(v: Seq<(String, u64)>) -> Seq<(Seq<char>, nat)> {
    v.map_values(|p: (String, u64)| (p.0@, p.1 as nat))
}

/// The running state of the reconciliation.
pub struct BankState {
    pub findings: Vec<(String, String)>,
    pub obs_count: u64,
    pub obs_debit: i64,
    pub obs_credit: i64,
    pub vcounts: Vec<(String, u64)>,
    pub decl_count: Option<u64>,
    pub decl_debit: Option<i64>,
    pub decl_credit: Option<i64>,
}

pub open spec fn state_view(s: BankState) -> BankAcc {
    BankAcc {
        findings: pairs_view(s.findings@),
        obs_count: s.obs_count as nat,
        obs_debit: s.obs_debit as int,
        obs_credit: s.obs_credit as int,
        vcounts: tally_view(s.vcounts@),
        decl_count: s.decl_count,
        decl_debit: match s.decl_debit {
            Some(x) => Some(x as int),
            None => None,
        },
        decl_credit: match s.decl_credit {
            Some(x) => Some(x as int),
            None => None,
        },
    }
}

/// Counts stay below the number of records seen.
pub open spec fn state_bounded(s: BankState, n: nat) -> bool {
    &&& s.obs_count <= n
    &&& forall|k: int| 0 <= k < s.vcounts@.len() ==> #[trigger] s.vcounts@[k].1 <= n
}

fn push_finding(st: &mut BankState, rule: &str, msg: String)
    ensures
        final(st).findings@.len() == old(st).findings@.len() + 1,
        state_view(*final(st)) == (BankAcc { findings: state_view(*old(st)).findings.push((rule@, msg@)), ..state_view(*old(st)) }),
        final(st).obs_count == old(st).obs_count,
        final(st).vcounts@ == old(st).vcounts@,
{
    let ghost before = pairs_view(st.findings@);
    st.findings.push((String::from_str(rule), msg));
    assert(pairs_view(st.findings@) =~= before.push((rule@, msg@)));
}

pub fn field_value_exec(cb: &Copybook, rec: &[u8], name: &str, enc: Encoding) -> (r: Option<String>)
    ensures
        match r {
            Some(s) => field_value(*cb, rec@, name@, enc) == Some(s@),
            None => field_value(*cb, rec@, name@, enc) is None,
        },
{
    let d = match decode_record_encoded(cb, rec, enc) {
        Ok(d) => d,
        Err(_) => {
            return None;
        },
    };
    let ghost fv = record_view(d).fields;
    let mut i: usize = 0;
    assert(fv.skip(0) =~= fv);
    while i < d.fields.len()
        invariant
            i <= d.fields@.len(),
            fv == fields_view(d.fields@),
            decode_record_spec(*cb, rec@, enc) == Ok::<crate::decode::RecordView, ShimErrorView>(record_view(d)),
            first_field(fv.skip(i as int), name@) == first_field(fv, name@),
        decreases d.fields@.len() - i,
    {
        assert(fv.skip(i as int).drop_first() =~= fv.skip(i + 1));
        assert(fv.skip(i as int)[0] == fv[i as int]);
        if str_eq(d.fields[i].name.as_str(), name) {
            return Some(d.fields[i].value.clone());
        }
        i += 1;
    }
    assert(fv.skip(i as int).len() == 0);
    None
}

fn is_declared(vals: &[&str], v: &Vec<char>) -> (r: bool)
    ensures
        r == declared(vals@, v@),
{
    let s = string_of(v);
    let mut j: usize = 0;
    while j < vals.len()
        invariant
            j <= vals@.len(),
            s@ == v@,
            forall|k: int| 0 <= k < j ==> #[trigger] vals@[k]@ != v@,
        decreases vals@.len() - j,
    {
        if str_eq(vals[j], s.as_str()) {
            return true;
        }
        j += 1;
    }
    false
}

fn find_variant(vs: &[Variant], disc: &[u8]) -> (r: Option<usize>)
    ensures
        match r {
            Some(m) => m < vs@.len() && first_variant(vs@, disc@, 0) == Some(m as int),
            None => first_variant(vs@, disc@, 0) is None,
        },
{
    let mut k: usize = 0;
    while k < vs.len()
        invariant
            k <= vs@.len(),
            first_variant(vs@, disc@, k as int) == first_variant(vs@, disc@, 0),
        decreases vs@.len() - k,
    {
        if bytes_eq(vs[k].discriminator, disc) {
            return Some(k);
        }
        k += 1;
    }
    None
}

fn bump_exec(vc: &mut Vec<(String, u64)>, name: &str, n: Ghost<nat>)
    requires
        forall|k: int| 0 <= k < old(vc)@.len() ==> #[trigger] old(vc)@[k].1 < n@,
        1 <= n@ <= u64::MAX,
    ensures
        tally_view(final(vc)@) == bump(tally_view(old(vc)@), name@),
        forall|k: int| 0 <= k < final(vc)@.len() ==> #[trigger] final(vc)@[k].1 <= n@,
{
    let ghost tv = tally_view(vc@);
    let mut k: usize = 0;
    while k < vc.len()
        invariant
            k <= vc@.len(),
            tv == tally_view(vc@),
            tv == tally_view(old(vc)@),
            tally_index(tv, name@, k as int) == tally_index(tv, name@, 0),
            forall|j: int| 0 <= j < vc@.len() ==> #[trigger] vc@[j].1 < n@,
            1 <= n@ <= u64::MAX,
        decreases vc@.len() - k,
    {
        assert(tv[k as int].0 == vc@[k as int].0@);
        assert(tally_index(tv, name@, k as int) == (if tv[k as int].0 == name@ { Some(k as int) } else { tally_index(tv, name@, k + 1) }));
        if str_eq(vc[k].0.as_str(), name) {
            let c = vc[k].1;
            let nm = vc[k].0.clone();
            assert(nm@ == name@);
            vc.set(k, (nm, c + 1));
            assert(tally_view(vc@) =~= tv.update(k as int, (name@, tv[k as int].1 + 1)));
            return;
        }
        k += 1;
    }
    vc.push((String::from_str(name), 1));
    assert(tally_view(vc@) =~= tv.push((name@, 1)));
}

pub fn parse_count(s: &String) -> (r: Option<u64>)
    ensures
        match parse_unsigned(trim_ws(s@), u64::MAX as nat) {
            Some(n) => r == Some(n as u64),
            None => r is None,
        },
{
    let t = trimmed_chars(s.as_str());
    let start: usize = if t.len() > 0 && t[0] == '+' { 1 } else { 0 };
    if start >= t.len() {
        return None;
    }
    let ghost body = if t@.len() > 0 && t@[0] == '+' { t@.drop_first() } else { t@ };
    assert(body =~= t@.subrange(start as int, t@.len() as int));
    digits_u64(&t, start, t.len())
}

#[verifier::rlimit(40)]
fn post_detail_exec(st: &mut BankState, idx: usize, cb: &Copybook, rec: &[u8], control: &ControlSpec, enc: Encoding) -> (ok: bool)
    requires
        old(st).obs_count < u64::MAX,
    ensures
        ok ==> post_detail(state_view(*old(st)), idx as nat, *cb, rec@, *control, enc) == Some(state_view(*final(st))),
        !ok ==> post_detail(state_view(*old(st)), idx as nat, *cb, rec@, *control, enc) is None,
        final(st).obs_count == old(st).obs_count + 1 || !ok,
        final(st).vcounts@ == old(st).vcounts@,
{
    let p = &control.accounting.polarity;
    let amt = match field_value_exec(cb, rec, p.amount_field, enc) {
        Some(s) => to_cents(s.as_str()),
        None => None,
    };
    let ind = match field_value_exec(cb, rec, p.source_field, enc) {
        Some(s) => Some(trimmed_chars(s.as_str())),
        None => None,
    };
    let summed = control.accounting.role(p.amount_field) == NumericRole::Amount;
    match (amt, ind) {
        (Some(c), Some(i)) => {
            if is_declared(p.debit_values, &i) && !summed {
                st.obs_count = st.obs_count + 1;
                true
            } else if is_declared(p.debit_values, &i) {
                match st.obs_debit.checked_add(c) {
                    Some(t) => {
                        st.obs_debit = t;
                        st.obs_count = st.obs_count + 1;
                        true
                    },
                    None => false,
                }
            } else if is_declared(p.credit_values, &i) && !summed {
                st.obs_count = st.obs_count + 1;
                true
            } else if is_declared(p.credit_values, &i) {
                match st.obs_credit.checked_add(c) {
                    Some(t) => {
                        st.obs_credit = t;
                        st.obs_count = st.obs_count + 1;
                        true
                    },
                    None => false,
                }
            } else {
                st.obs_count = st.obs_count + 1;
                let mut m = String::from_str("record ");
                push_usize(&mut m, idx);
                push_lit(&mut m, ": polarity value ");
                let is = string_of(&i);
                let dbg = debug_str(is.as_str());
                m.append(dbg.as_str());
                push_lit(&mut m, " not in declared profile (fail closed)");
                assert(m@ =~= unknown_polarity_msg(idx as nat, i@));
                push_finding(st, "KOBOLD-BANK-UNKNOWN-POLARITY", m);
                true
            }
        },
        _ => {
            st.obs_count = st.obs_count + 1;
            let mut m = String::from_str("record ");
            push_usize(&mut m, idx);
            push_lit(&mut m, ": amount/polarity not cleanly decodable");
            assert(m@ =~= dirty_detail_msg(idx as nat));
            push_finding(st, "KOBOLD-BANK-DIRTY-DETAIL", m);
            true
        },
    }
}

fn disc_slice(rec: &[u8], off: usize, len: usize) -> (d: &[u8])
    ensures
        d@ == disc_of(rec@, off, len),
{
    if off <= rec.len() && len <= rec.len() - off {
        vstd::slice::slice_subrange(rec, off, off + len)
    } else {
        &[]
    }
}

#[verifier::rlimit(40)]
fn bank_one(st: &mut BankState, idx: usize, rec: &[u8], variant: &VariantSpec, control: &ControlSpec, enc: Encoding) -> (ok: bool)
    requires
        state_bounded(*old(st), idx as nat),
        idx < u64::MAX,
    ensures
        ok ==> bank_step(state_view(*old(st)), idx as nat, rec@, *variant, *control, enc) == Some(state_view(*final(st))),
        !ok ==> bank_step(state_view(*old(st)), idx as nat, rec@, *variant, *control, enc) is None,
        ok ==> state_bounded(*final(st), (idx + 1) as nat),
{
    let d = disc_slice(rec, variant.discriminator_offset, variant.discriminator_len);
    match find_variant(variant.variants, d) {
        None => {
            let mut m = String::from_str("record ");
            push_usize(&mut m, idx);
            push_lit(&mut m, ": unknown discriminator ");
            let h = crate::text::hex(d);
            m.append(h.as_str());
            push_lit(&mut m, " (fail closed)");
            assert(m@ =~= unknown_type_msg(idx as nat, d@));
            push_finding(st, "KOBOLD-BANK-UNKNOWN-RECORD-TYPE", m);
            true
        },
        Some(k) => {
            let v = &variant.variants[k];
            bump_exec(&mut st.vcounts, v.name, Ghost((idx + 1) as nat));
            if str_eq(v.name, control.detail_variant) {
                post_detail_exec(st, idx, v.copybook, rec, control, enc)
            } else if str_eq(v.name, control.trailer_variant) {
                st.decl_count = match field_value_exec(v.copybook, rec, control.trailer_count_field, enc) {
                    Some(s) => parse_count(&s),
                    None => None,
                };
                st.decl_debit = match field_value_exec(v.copybook, rec, control.trailer_debit_field, enc) {
                    Some(s) => to_cents(s.as_str()),
                    None => None,
                };
                st.decl_credit = match field_value_exec(v.copybook, rec, control.trailer_credit_field, enc) {
                    Some(s) => to_cents(s.as_str()),
                    None => None,
                };
                true
            } else {
                true
            }
        },
    }
}

fn check_exec(findings: &mut Vec<(String, String)>, what: &str, decl: Option<i64>, obs: i64, money_fmt: bool) -> (ok: bool)
    ensures
        pairs_view(final(findings)@) == pairs_view(old(findings)@) + check_findings(
            what@,
            match decl {
                Some(x) => Some(x as int),
                None => None,
            },
            obs as int,
            money_fmt,
        ),
        ok == (decl == Some(obs)),
{
    let ghost before = pairs_view(findings@);
    match decl {
        Some(d) => {
            if d == obs {
                assert(pairs_view(findings@) =~= before + seq![]);
                true
            } else {
                let mut m = String::from_str(what);
                push_lit(&mut m, ": declared ");
                if money_fmt {
                    let t = money(d);
                    m.append(t.as_str());
                } else {
                    push_i64(&mut m, d);
                }
                push_lit(&mut m, " != observed ");
                if money_fmt {
                    let t = money(obs);
                    m.append(t.as_str());
                } else {
                    push_i64(&mut m, obs);
                }
                let ghost mv = m@;
                findings.push((String::from_str("KOBOLD-BANK-CONTROL-MISMATCH"), m));
                assert(pairs_view(findings@) =~= before + seq![("KOBOLD-BANK-CONTROL-MISMATCH"@, mv)]);
                false
            }
        },
        None => {
            let mut m = String::from_str(what);
            push_lit(&mut m, ": no declared trailer total");
            let ghost mv = m@;
            findings.push((String::from_str("KOBOLD-BANK-NO-TRAILER"), m));
            assert(pairs_view(findings@) =~= before + seq![("KOBOLD-BANK-NO-TRAILER"@, mv)]);
            false
        },
    }
}

fn count_rule_exec(f: &Vec<(String, String)>, rule: &str) -> (n: usize)
    ensures
        n == count_rule(pairs_view(f@), rule@),
{
    let ghost pv = pairs_view(f@);
    let mut n: usize = 0;
    let mut i: usize = 0;
    while i < f.len()
        invariant
            i <= f@.len(),
            pv == pairs_view(f@),
            n == count_rule(pv.take(i as int), rule@),
            n <= i,
        decreases f@.len() - i,
    {
        assert(pv.take(i + 1).drop_last() =~= pv.take(i as int));
        if str_eq(f[i].0.as_str(), rule) {
            n += 1;
        }
        i += 1;
    }
    assert(pv.take(i as int) =~= pv);
    n
}

fn acct_json_exec(a: &AccountingProfile) -> (s: String)
    ensures
        s@ == acct_json(*a),
{
    let mut roles: Vec<String> = Vec::new();
    let mut i: usize = 0;
    while i < a.numeric_roles.len()
        invariant
            i <= a.numeric_roles@.len(),
            strs_view(roles@) == role_entries(a.numeric_roles@).take(i as int),
        decreases a.numeric_roles@.len() - i,
    {
        let mut e = String::new();
        push_js(&mut e, a.numeric_roles[i].0);
        push_lit(&mut e, ":");
        push_js(&mut e, a.numeric_roles[i].1.as_str());
        proof {
            lemma_strs_push(roles@, e);
        }
        roles.push(e);
        assert(role_entries(a.numeric_roles@).take(i + 1) =~= role_entries(a.numeric_roles@).take(i as int).push(e@));
        i += 1;
    }
    assert(role_entries(a.numeric_roles@).take(i as int) =~= role_entries(a.numeric_roles@));
    let debit = value_list(a.polarity.debit_values);
    let credit = value_list(a.polarity.credit_values);
    let mut s = String::new();
    push_lit(&mut s, "{\"schema\":\"kobold-accounting-profile-v1\",\"numeric_roles\":{");
    push_joined(&mut s, &roles);
    push_lit(&mut s, "},\"polarity\":{\"amount_field\":");
    push_js(&mut s, a.polarity.amount_field);
    push_lit(&mut s, ",\"source_field\":");
    push_js(&mut s, a.polarity.source_field);
    push_lit(&mut s, ",\"debit_values\":[");
    push_joined(&mut s, &debit);
    push_lit(&mut s, "],\"credit_values\":[");
    push_joined(&mut s, &credit);
    push_lit(
        &mut s,
        "],\"unknown_value_policy\":\"fail_closed\",\"numeric_sign_policy\":\"not_polarity\",\"presentation_marker_policy\":\"not_polarity\",\"field_name_heuristics\":\"not_used\"}}",
    );
    assert(s@ =~= acct_json(*a));
    s
}

fn value_list(vals: &[&str]) -> (r: Vec<String>)
    ensures
        strs_view(r@) == value_entries(vals@),
{
    let mut r: Vec<String> = Vec::new();
    let mut i: usize = 0;
    while i < vals.len()
        invariant
            i <= vals@.len(),
            strs_view(r@) == value_entries(vals@).take(i as int),
        decreases vals@.len() - i,
    {
        let mut e = String::new();
        push_js(&mut e, vals[i]);
        proof {
            lemma_strs_push(r@, e);
        }
        r.push(e);
        assert(value_entries(vals@).take(i + 1) =~= value_entries(vals@).take(i as int).push(e@));
        i += 1;
    }
    assert(value_entries(vals@).take(i as int) =~= value_entries(vals@));
    r
}

pub fn findings_list(f: &Vec<(String, String)>) -> (r: Vec<String>)
    ensures
        strs_view(r@) == finding_entries(pairs_view(f@)),
{
    let ghost pv = pairs_view(f@);
    let mut r: Vec<String> = Vec::new();
    let mut i: usize = 0;
    while i < f.len()
        invariant
            i <= f@.len(),
            pv == pairs_view(f@),
            strs_view(r@) == finding_entries(pv).take(i as int),
        decreases f@.len() - i,
    {
        let mut e = String::new();
        push_lit(&mut e, "{\"ruleId\":");
        push_js(&mut e, f[i].0.as_str());
        push_lit(&mut e, ",\"level\":\"warning\",\"message\":");
        push_js(&mut e, f[i].1.as_str());
        push_lit(&mut e, "}");
        proof {
            lemma_strs_push(r@, e);
        }
        r.push(e);
        assert(finding_entries(pv).take(i + 1) =~= finding_entries(pv).take(i as int).push(e@));
        i += 1;
    }
    assert(finding_entries(pv).take(i as int) =~= finding_entries(pv));
    r
}

fn push_tally_name(out: &mut String, name: &str)
    ensures
        final(out)@ == old(out)@ + tally_name(name@),
{
    let mut esc = String::new();
    push_escaped(&mut esc, name, false);
    let cs = chars_of(esc.as_str());
    let mut k: usize = cs.len();
    assert(cs@.take(k as int) =~= cs@);
    while k > 0 && cs[k - 1] == '"'
        invariant
            k <= cs@.len(),
            cs@ == escape_spec(name@, false),
            trim_end_quotes(cs@.take(k as int)) == tally_name(name@),
        decreases k,
    {
        assert(cs@.take(k as int).drop_last() =~= cs@.take(k - 1));
        k -= 1;
    }
    assert(trim_end_quotes(cs@.take(k as int)) == cs@.take(k as int));
    push_range(out, &cs, 0, k);
    assert(cs@.subrange(0, k as int) =~= cs@.take(k as int));
}

fn tally_list(vc: &Vec<(String, u64)>) -> (r: Vec<String>)
    ensures
        strs_view(r@) == vc_entries(tally_view(vc@)),
{
    let ghost tv = tally_view(vc@);
    let mut r: Vec<String> = Vec::new();
    let mut i: usize = 0;
    while i < vc.len()
        invariant
            i <= vc@.len(),
            tv == tally_view(vc@),
            strs_view(r@) == vc_entries(tv).take(i as int),
        decreases vc@.len() - i,
    {
        let mut e = String::new();
        push_tally_name(&mut e, vc[i].0.as_str());
        push_lit(&mut e, ":");
        push_u64(&mut e, vc[i].1);
        proof {
            lemma_strs_push(r@, e);
        }
        r.push(e);
        assert(vc_entries(tv).take(i + 1) =~= vc_entries(tv).take(i as int).push(e@));
        i += 1;
    }
    assert(vc_entries(tv).take(i as int) =~= vc_entries(tv));
    r
}

fn push_opt_money(s: &mut String, c: Option<i64>)
    ensures
        final(s)@ == old(s)@ + opt_money(
            match c {
                Some(x) => Some(x as int),
                None => None,
            },
        ),
{
    match c {
        Some(x) => {
            let t = money(x);
            push_js(s, t.as_str());
        },
        None => push_lit(s, "null"),
    }
}

#[verifier::rlimit(60)]
fn casefile_exec(data: &[u8], record_len: usize, st: &BankState, acc: Ghost<BankAcc>, balanced: bool, verdict: ExitCode, control: &ControlSpec) -> (s: String)
    requires
        record_len > 0,
        state_view(*st) == (BankAcc { findings: final_findings(acc@), ..acc@ }),
        balanced == is_balanced(acc@),
        verdict == verdict_of(balanced),
    ensures
        s@ == banking_casefile(data@, record_len as nat, acc@, *control),
{
    let vc = tally_list(&st.vcounts);
    let acct = acct_json_exec(&control.accounting);
    let fl = findings_list(&st.findings);
    let mut s = String::new();
    push_lit(&mut s, "{\"schema\":\"kobold-banking-forensic-casefile-v1\",\"court\":\"KOBOLD.BANK.2 (ACCOUNTING.PROFILE.1)\",\"input_sha256\":");
    let h = sha256_hex(data);
    push_js(&mut s, h.as_str());
    push_lit(&mut s, ",\"record_len\":");
    push_usize(&mut s, record_len);
    push_lit(&mut s, ",\"record_count\":");
    push_usize(&mut s, data.len() / record_len);
    push_lit(
        &mut s,
        ",\"byte_truth\":{\"proven\":true,\"court\":\"KOBOLD.FILE.1 + sealed gnucobol-rs courts\"},\"record_truth\":{\"proven\":true,\"variant_counts\":{",
    );
    push_joined(&mut s, &vc);
    push_lit(&mut s, "}},\"accounting_profile\":");
    s.append(acct.as_str());
    push_lit(&mut s, ",\"control_totals\":{\"declared\":{\"count\":");
    match st.decl_count {
        Some(c) => push_u64(&mut s, c),
        None => push_lit(&mut s, "null"),
    }
    push_lit(&mut s, ",\"debit\":");
    push_opt_money(&mut s, st.decl_debit);
    push_lit(&mut s, ",\"credit\":");
    push_opt_money(&mut s, st.decl_credit);
    push_lit(&mut s, "},\"observed\":{\"count\":");
    push_u64(&mut s, st.obs_count);
    push_lit(&mut s, ",\"debit\":");
    let od = money(st.obs_debit);
    push_js(&mut s, od.as_str());
    push_lit(&mut s, ",\"credit\":");
    let oc = money(st.obs_credit);
    push_js(&mut s, oc.as_str());
    push_lit(&mut s, "},\"balanced\":");
    push_bool(&mut s, balanced);
    push_lit(
        &mut s,
        "},\"posting_truth\":{\"claimed\":false,\"requires\":\"declared posting/balancing profile\"},\"ledger_truth\":{\"claimed\":false},\"business_truth\":{\"claimed\":false},\"negative_capabilities\":[\"NEG.BANKING.SIGN_IS_NOT_POLARITY\",\"NEG.BANKING.CR_DB_IS_NOT_POSTING_SIDE\",\"NEG.NUMERIC.ROLE\",\"NEG.IDENTIFIER.NUMERIC_COERCION\",\"NEG.CURRENCY.SCALE\",\"NEG.REVERSAL.INFERENCE\",\"NEG.BANKING.BALANCED_FILE_IS_NOT_CORRECT_FILE\",\"NEG.BANKING.TRAILER_MATCH_IS_NOT_LEDGER_ACCEPTANCE\",\"NEG.BANKING.POSTING_TRUTH\"],\"findings\":[",
    );
    push_joined(&mut s, &fl);
    push_lit(&mut s, "],\"verdict\":");
    crate::text::push_i128(&mut s, verdict.code() as i128);
    push_lit(&mut s, "}\n");
    assert(s@ =~= banking_casefile(data@, record_len as nat, acc@, *control));
    s
}


/// Polarity comes only from the declared indicator, never from the amount's sign: a detail whose
/// amount field is declared `Amount`, whose amount decodes to `c` (negative or not) and whose
/// indicator reads `i` adds `c` to the debit total when `i` is a declared debit value, to the
/// credit total when it is a declared credit value, and to neither when it is undeclared (that
/// detail is answered by a finding instead).
pub proof fn lemma_sign_is_not_polarity(acc: BankAcc, idx: nat, cb: Copybook, rec: Seq<u8>, control: ControlSpec, enc: Encoding, c: int, i: Seq<char>)
    requires
        role_of(control.accounting.numeric_roles@, control.accounting.polarity.amount_field@) == NumericRole::Amount,
        field_value(cb, rec, control.accounting.polarity.amount_field@, enc) matches Some(s) && to_cents_spec(s) == Some(c),
        field_value(cb, rec, control.accounting.polarity.source_field@, enc) matches Some(v) && trim_ws(v) == i,
    ensures
        ({
            let p = control.accounting.polarity;
            let r = post_detail(acc, idx, cb, rec, control, enc);
            &&& declared(p.debit_values@, i) && fits_i64(acc.obs_debit + c) ==> r == Some(
                BankAcc { obs_debit: acc.obs_debit + c, obs_count: acc.obs_count + 1, ..acc },
            )
            &&& !declared(p.debit_values@, i) && declared(p.credit_values@, i) && fits_i64(acc.obs_credit + c) ==> r
                == Some(BankAcc { obs_credit: acc.obs_credit + c, obs_count: acc.obs_count + 1, ..acc })
            &&& !declared(p.debit_values@, i) && !declared(p.credit_values@, i) ==> (r matches Some(a2) && a2.obs_debit
                == acc.obs_debit && a2.obs_credit == acc.obs_credit && a2.findings.len() == acc.findings.len() + 1
                && a2.findings.last().0 == "KOBOLD-BANK-UNKNOWN-POLARITY"@)
        }),
{
}

proof fn lemma_fold_not_summed(chunks: Seq<Seq<u8>>, variant: VariantSpec, control: ControlSpec, enc: Encoding, n: nat)
    requires
        role_of(control.accounting.numeric_roles@, control.accounting.polarity.amount_field@) != NumericRole::Amount,
    ensures
        bank_fold(chunks, variant, control, enc, n) matches Some(a) ==> a.obs_debit == 0 && a.obs_credit == 0 && a.findings.len()
            > 0 && a.findings[0].0 == "KOBOLD-BANK-PROFILE-INCONSISTENT"@,
    decreases n,
{
    if n > 0 && n <= chunks.len() {
        lemma_fold_not_summed(chunks, variant, control, enc, (n - 1) as nat);
        if let Some(acc) = bank_fold(chunks, variant, control, enc, (n - 1) as nat) {
            if let Some(a) = bank_step(acc, (n - 1) as nat, chunks[n - 1], variant, control, enc) {
                assert(a.findings.len() >= acc.findings.len());
                assert(a.findings[0] == acc.findings[0]);
            }
        }
    }
}

/// Only a field declared `Amount` is summed: when the polarity's amount field has another role
/// (a rate, identifier or code is numeric but never money), the observed debit and credit totals
/// stay 0, the first finding is `KOBOLD-BANK-PROFILE-INCONSISTENT`, and the file is not balanced.
pub proof fn lemma_only_amounts_are_summed(data: Seq<u8>, record_len: usize, variant: VariantSpec, control: ControlSpec, enc: Encoding)
    requires
        role_of(control.accounting.numeric_roles@, control.accounting.polarity.amount_field@) != NumericRole::Amount,
    ensures
        banking_spec(data, record_len, variant, control, enc) matches Ok(v) ==> {
            &&& v.summary.observed_debit_cents == 0
            &&& v.summary.observed_credit_cents == 0
            &&& v.findings.len() > 0 && v.findings[0].0 == "KOBOLD-BANK-PROFILE-INCONSISTENT"@
            &&& !v.balanced
            &&& v.verdict == ExitCode::DecodedWithEvidenceWarnings
        },
{
    if record_len > 0 {
        let chunks = chunks_spec(data, record_len as nat);
        lemma_fold_not_summed(chunks, variant, control, enc, chunks.len());
        if let Some(acc) = bank_fold(chunks, variant, control, enc, chunks.len()) {
            assert(final_findings(acc)[0] == acc.findings[0]);
        }
    }
}


proof fn lemma_u64_i64_injective(c: u64, o: u64)
    requires
        (c as i64) == (o as i64),
    ensures
        c == o,
{
    assert((c as i64) == (o as i64) ==> c == o) by (bit_vector);
}

/// A reconciled file is balanced exactly when it has no finding, its verdict follows, and a
/// balanced file's declared count, debit and credit totals all equal the observed ones; the
/// unknown record type and unknown polarity counts are the numbers of findings of those rules.
pub proof fn lemma_balanced_means_totals_agree(data: Seq<u8>, record_len: usize, variant: VariantSpec, control: ControlSpec, enc: Encoding)
    ensures
        banking_spec(data, record_len, variant, control, enc) matches Ok(v) ==> {
            &&& v.balanced <==> v.findings.len() == 0
            &&& v.verdict == (if v.balanced { ExitCode::Success } else { ExitCode::DecodedWithEvidenceWarnings })
            &&& v.balanced ==> {
                &&& v.summary.declared_count == Some(v.summary.observed_count)
                &&& v.summary.declared_debit_cents == Some(v.summary.observed_debit_cents)
                &&& v.summary.declared_credit_cents == Some(v.summary.observed_credit_cents)
            }
            &&& v.summary.unknown_record_type_count == count_rule(v.findings, "KOBOLD-BANK-UNKNOWN-RECORD-TYPE"@) as usize
            &&& v.summary.unknown_polarity_count == count_rule(v.findings, "KOBOLD-BANK-UNKNOWN-POLARITY"@) as usize
        },
{
    if record_len > 0 {
        let chunks = chunks_spec(data, record_len as nat);
        if let Some(acc) = bank_fold(chunks, variant, control, enc, chunks.len()) {
            if is_balanced(acc) {
                let c = acc.decl_count->0;
                let o = acc.obs_count as u64;
                assert(acc.decl_count is Some);
                assert((c as i64) as int == ((o as u64) as i64) as int);
                lemma_u64_i64_injective(c, o);
            }
        }
    }
}

pub proof fn lemma_bank_none_sticky(chunks: Seq<Seq<u8>>, variant: VariantSpec, control: ControlSpec, enc: Encoding, a: nat, b: nat)
    requires
        a <= b <= chunks.len(),
        bank_fold(chunks, variant, control, enc, a) is None,
    ensures
        bank_fold(chunks, variant, control, enc, b) is None,
    decreases b - a,
{
    if a < b {
        lemma_bank_none_sticky(chunks, variant, control, enc, a, (b - 1) as nat);
    }
}

/// Reconcile a header/detail/trailer banking file under a declared variant and control profile.
#[verifier::rlimit(60)]
pub fn reconcile_banking(
    data: &[u8],
    record_len: usize,
    variant: &VariantSpec,
    control: &ControlSpec,
    encoding: Encoding,
) -> (r: Result<BankingResult, ShimError>)
    ensures
        match r {
            Ok(b) => banking_spec(data@, record_len, *variant, *control, encoding) == Ok::<BankingView, ShimErrorView>(
                BankingView {
                    casefile: b.casefile_json@,
                    balanced: b.balanced,
                    verdict: b.verdict,
                    findings: pairs_view(b.findings@),
                    summary: b.summary,
                },
            ),
            Err(e) => banking_spec(data@, record_len, *variant, *control, encoding) == Err::<BankingView, ShimErrorView>(
                shim_error_view(e),
            ),
        },
{
    if record_len == 0 {
        return Err(ShimError::Layout(String::from_str("record_len must be > 0")));
    }
    let ghost n = record_len as nat;
    let ghost chunks = chunks_spec(data@, n);
    let mut st = BankState {
        findings: Vec::new(),
        obs_count: 0,
        obs_debit: 0,
        obs_credit: 0,
        vcounts: Vec::new(),
        decl_count: None,
        decl_debit: None,
        decl_credit: None,
    };
    let a = &control.accounting;
    if a.role(a.polarity.amount_field) != NumericRole::Amount {
        let mut m = String::from_str("polarity.amount_field ");
        let dbg = debug_str(a.polarity.amount_field);
        m.append(dbg.as_str());
        push_lit(&mut m, " is not declared numeric role=amount (refusing to sum)");
        assert(m@ =~= profile_msg(a.polarity.amount_field@));
        push_finding(&mut st, "KOBOLD-BANK-PROFILE-INCONSISTENT", m);
    }
    assert(pairs_view(st.findings@) =~= initial_findings(*control));
    assert(tally_view(st.vcounts@) =~= seq![]);
    let mut off: usize = 0;
    let mut idx: usize = 0;
    assert(data@.skip(0) =~= data@);
    assert(chunks.skip(0) =~= chunks);
    while off < data.len()
        invariant
            off <= data@.len(),
            record_len > 0,
            n == record_len as nat,
            chunks == chunks_spec(data@, n),
            idx <= chunks.len(),
            idx <= off,
            chunks_spec(data@.skip(off as int), n) == chunks.skip(idx as int),
            state_bounded(st, idx as nat),
            bank_fold(chunks, *variant, *control, encoding, idx as nat) == Some(state_view(st)),
        decreases data@.len() - off,
    {
        let end = if data.len() - off <= record_len { data.len() } else { off + record_len };
        proof {
            lemma_chunks_step(data@, n, off as int);
            lemma_skip_head(chunks, idx as int, data@.subrange(off as int, end as int), chunks_spec(data@.skip(end as int), n));
        }
        let rec = vstd::slice::slice_subrange(data, off, end);
        if !bank_one(&mut st, idx, rec, variant, control, encoding) {
            proof {
                lemma_bank_none_sticky(chunks, *variant, *control, encoding, (idx + 1) as nat, chunks.len());
            }
            return Err(ShimError::Layout(String::from_str("banking totals exceed the i64 cents range")));
        }
        off = end;
        idx += 1;
    }
    assert(data@.skip(off as int).len() == 0);
    assert(chunks_spec(data@.skip(off as int), n) =~= seq![]);
    assert(idx == chunks.len());
    let ghost acc = state_view(st);
    let dc: Option<i64> = match st.decl_count {
        Some(c) => Some(#[verifier::truncate] (c as i64)),
        None => None,
    };
    let oc: i64 = #[verifier::truncate] (st.obs_count as i64);
    let c_ok = check_exec(&mut st.findings, "record_count", dc, oc, false);
    let d_ok = check_exec(&mut st.findings, "debit_total", st.decl_debit, st.obs_debit, true);
    let r_ok = check_exec(&mut st.findings, "credit_total", st.decl_credit, st.obs_credit, true);
    let balanced = c_ok && d_ok && r_ok && st.findings.len() == 0;
    assert(pairs_view(st.findings@) =~= final_findings(acc));
    assert(state_view(st) == (BankAcc { findings: final_findings(acc), ..acc }));
    let verdict = if balanced { ExitCode::Success } else { ExitCode::DecodedWithEvidenceWarnings };
    let casefile_json = casefile_exec(data, record_len, &st, Ghost(acc), balanced, verdict, control);
    let unknown_record_type_count = count_rule_exec(&st.findings, "KOBOLD-BANK-UNKNOWN-RECORD-TYPE");
    let unknown_polarity_count = count_rule_exec(&st.findings, "KOBOLD-BANK-UNKNOWN-POLARITY");
    let summary = BankingSummary {
        declared_count: st.decl_count,
        observed_count: st.obs_count,
        declared_debit_cents: st.decl_debit,
        observed_debit_cents: st.obs_debit,
        declared_credit_cents: st.decl_credit,
        observed_credit_cents: st.obs_credit,
        unknown_record_type_count,
        unknown_polarity_count,
    };
    let findings = st.findings;
    Ok(BankingResult { casefile_json, balanced, verdict, findings, summary })
}

/// The copybook of a record that routes to the declared detail variant.
pub open spec fn detail_book(rec: Seq<u8>, variant: VariantSpec, control: ControlSpec) -> Option<Copybook> {
    let vs = variant.variants@;
    match first_variant(vs, disc_of(rec, variant.discriminator_offset, variant.discriminator_len), 0) {
        Some(m) => if vs[m].name@ == control.detail_variant@ {
            Some(*vs[m].copybook)
        } else {
            None
        },
        None => None,
    }
}

/// A detail record's signed cents and trimmed polarity value, where both decode.
pub open spec fn detail_parts(rec: Seq<u8>, variant: VariantSpec, control: ControlSpec, enc: Encoding) -> Option<(int, Seq<char>)> {
    let p = control.accounting.polarity;
    match detail_book(rec, variant, control) {
        Some(cb) => match (field_value(cb, rec, p.amount_field@, enc), field_value(cb, rec, p.source_field@, enc)) {
            (Some(a), Some(s)) => match to_cents_spec(a) {
                Some(c) => Some((c, trim_ws(s))),
                None => None,
            },
            _ => None,
        },
        None => None,
    }
}

/// What a record adds to the debit total: its cents where its polarity value is a declared debit
/// value, whatever the amount's sign.
pub open spec fn debit_part(rec: Seq<u8>, variant: VariantSpec, control: ControlSpec, enc: Encoding) -> int {
    match detail_parts(rec, variant, control, enc) {
        Some((c, i)) => if declared(control.accounting.polarity.debit_values@, i) { c } else { 0 },
        None => 0,
    }
}

/// What a record adds to the credit total: its cents where its polarity value is a declared
/// credit value and not a debit value.
pub open spec fn credit_part(rec: Seq<u8>, variant: VariantSpec, control: ControlSpec, enc: Encoding) -> int {
    let p = control.accounting.polarity;
    match detail_parts(rec, variant, control, enc) {
        Some((c, i)) => if !declared(p.debit_values@, i) && declared(p.credit_values@, i) { c } else { 0 },
        None => 0,
    }
}

/// The sum of `f` over the first `n` records.
pub open spec fn sum_over(chunks: Seq<Seq<u8>>, f: spec_fn(Seq<u8>) -> int, n: nat) -> int
    decreases n,
{
    if n == 0 || n > chunks.len() {
        0
    } else {
        sum_over(chunks, f, (n - 1) as nat) + f(chunks[n - 1])
    }
}

proof fn lemma_fold_totals(chunks: Seq<Seq<u8>>, variant: VariantSpec, control: ControlSpec, enc: Encoding, n: nat)
    requires
        n <= chunks.len(),
        role_of(control.accounting.numeric_roles@, control.accounting.polarity.amount_field@) == NumericRole::Amount,
        bank_fold(chunks, variant, control, enc, n) is Some,
    ensures
        ({
            let acc = bank_fold(chunks, variant, control, enc, n)->Some_0;
            &&& acc.obs_count == sum_over(chunks, |r: Seq<u8>| if detail_book(r, variant, control) is Some { 1int } else { 0int }, n)
            &&& acc.obs_debit == sum_over(chunks, |r: Seq<u8>| debit_part(r, variant, control, enc), n)
            &&& acc.obs_credit == sum_over(chunks, |r: Seq<u8>| credit_part(r, variant, control, enc), n)
            &&& fits_i64(acc.obs_debit) && fits_i64(acc.obs_credit)
        }),
    decreases n,
{
    if n > 0 {
        let k = (n - 1) as nat;
        if bank_fold(chunks, variant, control, enc, k) is None {
            lemma_bank_none_sticky(chunks, variant, control, enc, k, n);
        }
        lemma_fold_totals(chunks, variant, control, enc, k);
    }
}

/// Only records routed to the declared detail variant are counted; with the amount field
/// declared `Amount`, the observed debit total is the sum of the cents of the detail records
/// whose polarity value is a declared debit value (a negative amount so marked is still a
/// debit: sign is never polarity), and the credit total that of those whose value is a declared
/// credit value and not a debit value; any other detail record adds to neither.
pub proof fn lemma_observed_totals(data: Seq<u8>, record_len: usize, variant: VariantSpec, control: ControlSpec, enc: Encoding)
    requires
        role_of(control.accounting.numeric_roles@, control.accounting.polarity.amount_field@) == NumericRole::Amount,
    ensures
        banking_spec(data, record_len, variant, control, enc) matches Ok(v) ==> {
            let chunks = chunks_spec(data, record_len as nat);
            let n = chunks.len();
            &&& v.summary.observed_count == sum_over(
                chunks,
                |r: Seq<u8>| if detail_book(r, variant, control) is Some { 1int } else { 0int },
                n,
            ) as u64
            &&& v.summary.observed_debit_cents == sum_over(chunks, |r: Seq<u8>| debit_part(r, variant, control, enc), n)
            &&& v.summary.observed_credit_cents == sum_over(chunks, |r: Seq<u8>| credit_part(r, variant, control, enc), n)
        },
{
    if record_len > 0 {
        let chunks = chunks_spec(data, record_len as nat);
        if bank_fold(chunks, variant, control, enc, chunks.len()) is Some {
            lemma_fold_totals(chunks, variant, control, enc, chunks.len());
        }
    }
}

/// 1 for a detail record whose amount and polarity value decode and whose value is neither a
/// declared debit nor a declared credit value.
pub open spec fn unknown_polarity_part(rec: Seq<u8>, variant: VariantSpec, control: ControlSpec, enc: Encoding) -> int {
    let p = control.accounting.polarity;
    match detail_parts(rec, variant, control, enc) {
        Some((c, i)) => if !declared(p.debit_values@, i) && !declared(p.credit_values@, i) { 1 } else { 0 },
        None => 0,
    }
}

/// 1 for a record whose discriminator no declared variant has.
pub open spec fn unknown_type_part(rec: Seq<u8>, variant: VariantSpec) -> int {
    if first_variant(variant.variants@, disc_of(rec, variant.discriminator_offset, variant.discriminator_len), 0) is None {
        1
    } else {
        0
    }
}

proof fn lemma_count_rule_concat(a: Seq<(Seq<char>, Seq<char>)>, b: Seq<(Seq<char>, Seq<char>)>, rule: Seq<char>)
    ensures
        count_rule(a + b, rule) == count_rule(a, rule) + count_rule(b, rule),
    decreases b.len(),
{
    if b.len() > 0 {
        lemma_count_rule_concat(a, b.drop_last(), rule);
        assert((a + b).drop_last() =~= a + b.drop_last());
    } else {
        assert(a + b =~= a);
    }
}

proof fn lemma_bank_rules_differ()
    ensures
        "KOBOLD-BANK-UNKNOWN-POLARITY"@ != "KOBOLD-BANK-UNKNOWN-RECORD-TYPE"@,
        "KOBOLD-BANK-DIRTY-DETAIL"@ != "KOBOLD-BANK-UNKNOWN-POLARITY"@,
        "KOBOLD-BANK-DIRTY-DETAIL"@ != "KOBOLD-BANK-UNKNOWN-RECORD-TYPE"@,
        "KOBOLD-BANK-PROFILE-INCONSISTENT"@ != "KOBOLD-BANK-UNKNOWN-POLARITY"@,
        "KOBOLD-BANK-PROFILE-INCONSISTENT"@ != "KOBOLD-BANK-UNKNOWN-RECORD-TYPE"@,
        "KOBOLD-BANK-CONTROL-MISMATCH"@ != "KOBOLD-BANK-UNKNOWN-POLARITY"@,
        "KOBOLD-BANK-CONTROL-MISMATCH"@ != "KOBOLD-BANK-UNKNOWN-RECORD-TYPE"@,
        "KOBOLD-BANK-NO-TRAILER"@ != "KOBOLD-BANK-UNKNOWN-POLARITY"@,
        "KOBOLD-BANK-NO-TRAILER"@ != "KOBOLD-BANK-UNKNOWN-RECORD-TYPE"@,
{
    reveal_strlit("KOBOLD-BANK-UNKNOWN-POLARITY");
    reveal_strlit("KOBOLD-BANK-UNKNOWN-RECORD-TYPE");
    reveal_strlit("KOBOLD-BANK-DIRTY-DETAIL");
    reveal_strlit("KOBOLD-BANK-PROFILE-INCONSISTENT");
    reveal_strlit("KOBOLD-BANK-CONTROL-MISMATCH");
    reveal_strlit("KOBOLD-BANK-NO-TRAILER");
    assert("KOBOLD-BANK-UNKNOWN-POLARITY"@[20] != "KOBOLD-BANK-UNKNOWN-RECORD-TYPE"@[20]);
    assert("KOBOLD-BANK-DIRTY-DETAIL"@[12] != "KOBOLD-BANK-UNKNOWN-POLARITY"@[12]);
    assert("KOBOLD-BANK-DIRTY-DETAIL"@[12] != "KOBOLD-BANK-UNKNOWN-RECORD-TYPE"@[12]);
    assert("KOBOLD-BANK-PROFILE-INCONSISTENT"@[12] != "KOBOLD-BANK-UNKNOWN-POLARITY"@[12]);
    assert("KOBOLD-BANK-PROFILE-INCONSISTENT"@[12] != "KOBOLD-BANK-UNKNOWN-RECORD-TYPE"@[12]);
    assert("KOBOLD-BANK-CONTROL-MISMATCH"@[12] != "KOBOLD-BANK-UNKNOWN-POLARITY"@[12]);
    assert("KOBOLD-BANK-CONTROL-MISMATCH"@[12] != "KOBOLD-BANK-UNKNOWN-RECORD-TYPE"@[12]);
    assert("KOBOLD-BANK-NO-TRAILER"@[12] != "KOBOLD-BANK-UNKNOWN-POLARITY"@[12]);
    assert("KOBOLD-BANK-NO-TRAILER"@[12] != "KOBOLD-BANK-UNKNOWN-RECORD-TYPE"@[12]);
}

proof fn lemma_count_push(f: Seq<(Seq<char>, Seq<char>)>, x: (Seq<char>, Seq<char>), rule: Seq<char>)
    ensures
        count_rule(f.push(x), rule) == count_rule(f, rule) + if x.0 == rule { 1int } else { 0int },
{
    assert(f.push(x).drop_last() =~= f);
}

proof fn lemma_check_no_unknown(what: Seq<char>, decl: Option<int>, obs: int, money_fmt: bool)
    ensures
        count_rule(check_findings(what, decl, obs, money_fmt), "KOBOLD-BANK-UNKNOWN-POLARITY"@) == 0,
        count_rule(check_findings(what, decl, obs, money_fmt), "KOBOLD-BANK-UNKNOWN-RECORD-TYPE"@) == 0,
{
    lemma_bank_rules_differ();
    let f = check_findings(what, decl, obs, money_fmt);
    let e: Seq<(Seq<char>, Seq<char>)> = seq![];
    assert(count_rule(e, "KOBOLD-BANK-UNKNOWN-POLARITY"@) == 0);
    assert(count_rule(e, "KOBOLD-BANK-UNKNOWN-RECORD-TYPE"@) == 0);
    if f.len() > 0 {
        assert(f =~= e.push(f[0]));
        lemma_count_push(e, f[0], "KOBOLD-BANK-UNKNOWN-POLARITY"@);
        lemma_count_push(e, f[0], "KOBOLD-BANK-UNKNOWN-RECORD-TYPE"@);
    }
}

proof fn lemma_fold_unknowns(chunks: Seq<Seq<u8>>, variant: VariantSpec, control: ControlSpec, enc: Encoding, n: nat)
    requires
        n <= chunks.len(),
        bank_fold(chunks, variant, control, enc, n) is Some,
    ensures
        count_rule(bank_fold(chunks, variant, control, enc, n)->Some_0.findings, "KOBOLD-BANK-UNKNOWN-POLARITY"@)
            == sum_over(chunks, |r: Seq<u8>| unknown_polarity_part(r, variant, control, enc), n),
        count_rule(bank_fold(chunks, variant, control, enc, n)->Some_0.findings, "KOBOLD-BANK-UNKNOWN-RECORD-TYPE"@)
            == sum_over(chunks, |r: Seq<u8>| unknown_type_part(r, variant), n),
    decreases n,
{
    lemma_bank_rules_differ();
    let r1 = "KOBOLD-BANK-UNKNOWN-POLARITY"@;
    let r2 = "KOBOLD-BANK-UNKNOWN-RECORD-TYPE"@;
    if n == 0 {
        let f = initial_findings(control);
        let e: Seq<(Seq<char>, Seq<char>)> = seq![];
        assert(count_rule(e, r1) == 0);
        assert(count_rule(e, r2) == 0);
        if f.len() > 0 {
            assert(f =~= e.push(f[0]));
            lemma_count_push(e, f[0], r1);
            lemma_count_push(e, f[0], r2);
        }
    } else {
        let k = (n - 1) as nat;
        if bank_fold(chunks, variant, control, enc, k) is None {
            lemma_bank_none_sticky(chunks, variant, control, enc, k, n);
        }
        lemma_fold_unknowns(chunks, variant, control, enc, k);
        let acc = bank_fold(chunks, variant, control, enc, k)->Some_0;
        let f0 = acc.findings;
        assert forall|x: (Seq<char>, Seq<char>)|
            count_rule(#[trigger] f0.push(x), r1) == count_rule(f0, r1) + (if x.0 == r1 {
                1int
            } else {
                0int
            }) && count_rule(f0.push(x), r2) == count_rule(f0, r2) + (if x.0 == r2 {
                1int
            } else {
                0int
            }) by {
            lemma_count_push(f0, x, r1);
            lemma_count_push(f0, x, r2);
        }
    }
}

/// The unknown polarity count is the number of detail records whose amount and polarity value
/// decode and whose value is neither a declared debit nor a declared credit value; the unknown
/// record type count is the number of records whose discriminator no declared variant has.
pub proof fn lemma_unknown_counts(data: Seq<u8>, record_len: usize, variant: VariantSpec, control: ControlSpec, enc: Encoding)
    ensures
        banking_spec(data, record_len, variant, control, enc) matches Ok(v) ==> {
            let chunks = chunks_spec(data, record_len as nat);
            let n = chunks.len();
            &&& v.summary.unknown_polarity_count == sum_over(
                chunks,
                |r: Seq<u8>| unknown_polarity_part(r, variant, control, enc),
                n,
            ) as usize
            &&& v.summary.unknown_record_type_count == sum_over(chunks, |r: Seq<u8>| unknown_type_part(r, variant), n) as usize
        },
{
    if record_len > 0 {
        let chunks = chunks_spec(data, record_len as nat);
        if let Some(acc) = bank_fold(chunks, variant, control, enc, chunks.len()) {
            lemma_fold_unknowns(chunks, variant, control, enc, chunks.len());
            let c1 = check_findings("record_count"@, count_decl(acc), ((acc.obs_count as u64) as i64) as int, false);
            let c2 = check_findings("debit_total"@, acc.decl_debit, acc.obs_debit, true);
            let c3 = check_findings("credit_total"@, acc.decl_credit, acc.obs_credit, true);
            lemma_check_no_unknown("record_count"@, count_decl(acc), ((acc.obs_count as u64) as i64) as int, false);
            lemma_check_no_unknown("debit_total"@, acc.decl_debit, acc.obs_debit, true);
            lemma_check_no_unknown("credit_total"@, acc.decl_credit, acc.obs_credit, true);
            lemma_count_rule_concat(acc.findings, c1, "KOBOLD-BANK-UNKNOWN-POLARITY"@);
            lemma_count_rule_concat(acc.findings + c1, c2, "KOBOLD-BANK-UNKNOWN-POLARITY"@);
            lemma_count_rule_concat(acc.findings + c1 + c2, c3, "KOBOLD-BANK-UNKNOWN-POLARITY"@);
            lemma_count_rule_concat(acc.findings, c1, "KOBOLD-BANK-UNKNOWN-RECORD-TYPE"@);
            lemma_count_rule_concat(acc.findings + c1, c2, "KOBOLD-BANK-UNKNOWN-RECORD-TYPE"@);
            lemma_count_rule_concat(acc.findings + c1 + c2, c3, "KOBOLD-BANK-UNKNOWN-RECORD-TYPE"@);
        }
    }
}

} // verus!
