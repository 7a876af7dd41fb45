//! Declared date-format evidence.
//!
//! A named field may be validated against an explicit format such as `YYYYMMDD`, while PIC shape,
//! zero/high sentinels, Y2K windows, business calendars, settlement meaning and date arithmetic
//! remain non-claims. The strongest claim is `format_valid_only`.
use crate::banking::pairs_view;
use crate::cobol::{spec_utf8_lossy, utf8_lossy};
use crate::copybook::{all_digits, digits_value};
use crate::decode::{
    decode_record_encoded, decode_record_spec, field_spec, field_view, fields_spec, fields_view, mk_view, record_view,
    shim_error_view, Copybook, DecodedField, Encoding, FieldView, ProgramView, ShimError, ShimErrorView,
};
use crate::sentinel::{finding_entries, finding_list, last_field};
use crate::sha256::{sha256_hex, spec_sha256_hex};
use crate::text::{
    chars_of, debug_str, hex_digit, hex_spec, join_comma, js, lemma_strs_push, push_joined, push_js, push_lit,
    spec_debug_str, str_eq, strs_view,
};
use vstd::prelude::*;

verus! {

/// A declared date format. Validation is on the field's raw digit string (leading zeros kept).
#[derive(Debug, Clone, Copy, PartialEq, Eq, Structural)]
pub enum DateFormat {
    /// 8 digits: YYYY MM DD, Gregorian calendar validity.
    Yyyymmdd,
    /// 5 digits: YY DDD, day of year `1..=366`.
    Yyddd,
}

/// A declared date-field profile.
pub struct DateFieldProfile<'a> {
    pub field: &'a str,
    pub format: DateFormat,
    /// Require the value to be a declared sentinel when it is not a valid date.
    pub require_sentinel_profile: bool,
}

/// The declared date profile.
pub struct DateProfile<'a> {
    pub fields: &'a [DateFieldProfile<'a>],
}

/// The date-validation result.
pub struct DateManifest {
    pub manifest_json: String,
    pub casefile_json: String,
    /// `(field, status)`, status one of valid, invalid_format, invalid_calendar, declared_sentinel.
    pub statuses: Vec<(String, String)>,
    pub findings: Vec<(String, String)>,
}

// ----------------------------------------------------------------------------------------------
// Calendar
// ----------------------------------------------------------------------------------------------

pub open spec fn is_leap(y: nat) -> bool {
    (y % 4 == 0 && y % 100 != 0) || y % 400 == 0
}

pub open spec fn days_in_month(y: nat, m: nat) -> nat {
    if m == 1 || m == 3 || m == 5 || m == 7 || m == 8 || m == 10 || m == 12 {
        31
    } else if m == 4 || m == 6 || m == 9 || m == 11 {
        30
    } else if m == 2 {
        if is_leap(y) { 29 } else { 28 }
    } else {
        0
    }
}

fn is_leap_exec(y: u32) -> (r: bool)
    ensures
        r == is_leap(y as nat),
{
    (y % 4 == 0 && y % 100 != 0) || y % 400 == 0
}

fn days_in_month_exec(y: u32, m: u32) -> (d: u32)
    ensures
        d == days_in_month(y as nat, m as nat),
{
    if m == 1 || m == 3 || m == 5 || m == 7 || m == 8 || m == 10 || m == 12 {
        31
    } else if m == 4 || m == 6 || m == 9 || m == 11 {
        30
    } else if m == 2 {
        if is_leap_exec(y) { 29 } else { 28 }
    } else {
        0
    }
}

/// The status of a raw digit string under a format: the wrong length or a non-digit is
/// `invalid_format`; otherwise `valid` when it names a real calendar date (month `1..=12` and a
/// day within the month; or a day of year within the year, the year taken as `2000 + YY`), else
/// `invalid_calendar`.
pub open spec fn validate_spec(raw: Seq<char>, fmt: DateFormat) -> Seq<char> {
    let need: nat = match fmt {
        DateFormat::Yyyymmdd => 8,
        DateFormat::Yyddd => 5,
    };
    if raw.len() != need || !all_digits(raw) {
        "invalid_format"@
    } else {
        match fmt {
            DateFormat::Yyyymmdd => {
                let y = digits_value(raw.subrange(0, 4));
                let m = digits_value(raw.subrange(4, 6));
                let d = digits_value(raw.subrange(6, 8));
                if 1 <= m <= 12 && d >= 1 && d <= days_in_month(y, m) {
                    "valid"@
                } else {
                    "invalid_calendar"@
                }
            },
            DateFormat::Yyddd => {
                let y = digits_value(raw.subrange(0, 2));
                let ddd = digits_value(raw.subrange(2, 5));
                let max: nat = if is_leap(2000 + y) { 366 } else { 365 };
                if 1 <= ddd <= max {
                    "valid"@
                } else {
                    "invalid_calendar"@
                }
            },
        }
    }
}

fn digits_at(v: &Vec<char>, a: usize, b: usize) -> (n: u32)
    requires
        a <= b <= v@.len(),
        b - a <= 4,
        all_digits(v@.subrange(a as int, b as int)),
    ensures
        n == digits_value(v@.subrange(a as int, b as int)),
        n < 10000,
{
    let ghost s = v@.subrange(a as int, b as int);
    let mut n: u32 = 0;
    let mut i = a;
    while i < b
        invariant
            a <= i <= b <= v@.len(),
            b - a <= 4,
            s == v@.subrange(a as int, b as int),
            all_digits(s),
            n == digits_value(s.take(i - a)),
            n < crate::batch_control::pow10((i - a) as nat),
        decreases b - i,
    {
        assert(s.take(i + 1 - a).drop_last() =~= s.take(i - a));
        assert(s[i - a] == v@[i as int]);
        let d = (v[i] as u32) - 0x30;
        proof {
            assert(crate::batch_control::pow10((i - a + 1) as nat) == 10 * crate::batch_control::pow10((i - a) as nat));
            assert(crate::batch_control::pow10(4) == 10000) by {
                reveal_with_fuel(crate::batch_control::pow10, 5);
            }
            lemma_pow10_mono((i - a + 1) as nat, 4);
        }
        n = n * 10 + d;
        i += 1;
    }
    assert(s.take(i - a) =~= s);
    proof {
        lemma_pow10_mono((b - a) as nat, 4);
        assert(crate::batch_control::pow10(4) == 10000) by {
            reveal_with_fuel(crate::batch_control::pow10, 5);
        }
    }
    n
}

proof fn lemma_pow10_mono(a: nat, b: nat)
    requires
        a <= b,
    ensures
        crate::batch_control::pow10(a) <= crate::batch_control::pow10(b),
    decreases b - a,
{
    if a < b {
        lemma_pow10_mono(a, (b - 1) as nat);
    }
}

fn all_digits_exec(v: &Vec<char>) -> (r: bool)
    ensures
        r == all_digits(v@),
{
    let mut i: usize = 0;
    while i < v.len()
        invariant
            i <= v@.len(),
            forall|k: int| 0 <= k < i ==> '0' <= #[trigger] v@[k] && v@[k] <= '9',
        decreases v@.len() - i,
    {
        if !('0' <= v[i] && v[i] <= '9') {
            return false;
        }
        i += 1;
    }
    true
}

/// Validate a raw digit string against a format (see [`validate_spec`]).
pub fn validate(raw: &String, fmt: DateFormat) -> (s: &'static str)
    ensures
        s@ == validate_spec(raw@, fmt),
{
    let v = chars_of(raw.as_str());
    let need: usize = match fmt {
        DateFormat::Yyyymmdd => 8,
        DateFormat::Yyddd => 5,
    };
    if v.len() != need || !all_digits_exec(&v) {
        return "invalid_format";
    }
    proof {
        assert forall|a: int, b: int| 0 <= a <= b <= v@.len() implies all_digits(#[trigger] v@.subrange(a, b)) by {
            assert forall|i: int| 0 <= i < v@.subrange(a, b).len() implies '0' <= #[trigger] v@.subrange(a, b)[i] && v@.subrange(a, b)[i] <= '9' by {
                assert(v@.subrange(a, b)[i] == v@[a + i]);
            }
        }
    }
    match fmt {
        DateFormat::Yyyymmdd => {
            let y = digits_at(&v, 0, 4);
            let m = digits_at(&v, 4, 6);
            let d = digits_at(&v, 6, 8);
            if 1 <= m && m <= 12 && d >= 1 && d <= days_in_month_exec(y, m) {
                "valid"
            } else {
                "invalid_calendar"
            }
        },
        DateFormat::Yyddd => {
            let y = digits_at(&v, 0, 2);
            let ddd = digits_at(&v, 2, 5);
            let max: u32 = if is_leap_exec(2000 + y) { 366 } else { 365 };
            if 1 <= ddd && ddd <= max {
                "valid"
            } else {
                "invalid_calendar"
            }
        },
    }
}

// ----------------------------------------------------------------------------------------------
// Raw digits from the raw hex
// ----------------------------------------------------------------------------------------------

pub open spec fn is_lower_hex(c: char) -> bool {
    ('0' <= c && c <= '9') || ('a' <= c && c <= 'f')
}

pub open spec fn hex_val(c: char) -> nat {
    if '0' <= c && c <= '9' {
        ((c as int) - 0x30) as nat
    } else {
        ((c as int) - 0x61 + 10) as nat
    }
}

/// The bytes a lowercase hex rendering denotes (two characters per byte).
pub open spec fn unhex_spec(s: Seq<char>) -> Seq<u8> {
    Seq::new(s.len() / 2, |k: int| (16 * hex_val(s[2 * k]) + hex_val(s[2 * k + 1])) as u8)
}

pub open spec fn all_lower_hex(s: Seq<char>) -> bool {
    forall|i: int| 0 <= i < s.len() ==> is_lower_hex(#[trigger] s[i])
}

proof fn lemma_hex_spec_lower(b: Seq<u8>)
    ensures
        all_lower_hex(hex_spec(b)),
    decreases b.len(),
{
    if b.len() > 0 {
        lemma_hex_spec_lower(b.drop_last());
        let x = b.last();
        let h = hex_spec(b);
        let p = hex_spec(b.drop_last());
        assert(h == p + crate::text::hex_byte(x));
        assert forall|i: int| 0 <= i < h.len() implies is_lower_hex(#[trigger] h[i]) by {
            if i < p.len() {
                assert(h[i] == p[i]);
            } else {
                let n: nat = if i == p.len() { (x / 16) as nat } else { (x % 16) as nat };
                assert(n < 16);
                assert(h[i] == hex_digit(n));
            }
        }
    }
}

/// The raw hex of every decoded field is lowercase hex.
pub proof fn lemma_fields_raw_hex(p: ProgramView, record: Seq<u8>, enc: Encoding)
    ensures
        forall|i: int| 0 <= i < fields_spec(p, record, enc).len() ==> all_lower_hex(#[trigger] fields_spec(p, record, enc)[i].raw_hex),
{
    assert forall|i: int| 0 <= i < fields_spec(p, record, enc).len() implies all_lower_hex(#[trigger] fields_spec(p, record, enc)[i].raw_hex) by {
        let l = p.laid[i];
        let f = field_spec(p, l, record, enc);
        assert(fields_spec(p, record, enc)[i] == f);
        match crate::decode::field_slice(record, l.offset, l.size) {
            Some(b) => {
                lemma_hex_spec_lower(b);
            },
            None => {},
        }
    }
}

proof fn lemma_last_field_in(fs: Seq<FieldView>, name: Seq<char>)
    ensures
        last_field(fs, name) matches Some(f) ==> exists|i: int| 0 <= i < fs.len() && fs[i] == f,
    decreases fs.len(),
{
    if fs.len() > 0 && fs.last().name != name {
        lemma_last_field_in(fs.drop_last(), name);
        if let Some(f) = last_field(fs.drop_last(), name) {
            let i = choose|i: int| 0 <= i < fs.drop_last().len() && fs.drop_last()[i] == f;
            assert(fs[i] == f);
        }
    }
    if fs.len() > 0 && fs.last().name == name {
        assert(fs[fs.len() - 1] == fs.last());
    }
}

fn hex_val_exec(c: char) -> (n: u8)
    requires
        is_lower_hex(c),
    ensures
        n == hex_val(c),
        n < 16,
{
    if '0' <= c && c <= '9' {
        (c as u32 - 0x30) as u8
    } else {
        (c as u32 - 0x61 + 10) as u8
    }
}

pub fn unhex(s: &String) -> (r: Vec<u8>)
    requires
        all_lower_hex(s@),
    ensures
        r@ == unhex_spec(s@),
{
    let v = chars_of(s.as_str());
    let n = v.len() / 2;
    let mut r: Vec<u8> = Vec::new();
    let mut k: usize = 0;
    let mut j: usize = 0;
    let vl = v.len();
    while k < n
        invariant
            k <= n == v@.len() / 2,
            vl == v@.len(),
            j == 2 * k,
            v@ == s@,
            all_lower_hex(s@),
            r@ == unhex_spec(s@).take(k as int),
        decreases n - k,
    {
        assert(j + 1 < v@.len());
        let hi = hex_val_exec(v[j]);
        let lo = hex_val_exec(v[j + 1]);
        r.push(16 * hi + lo);
        assert(r@ =~= unhex_spec(s@).take(k + 1));
        k += 1;
        j += 2;
    }
    assert(unhex_spec(s@).take(k as int) =~= unhex_spec(s@));
    r
}

// ----------------------------------------------------------------------------------------------
// The date court
// ----------------------------------------------------------------------------------------------

pub open spec fn format_text(f: DateFormat) -> Seq<char> {
    match f {
        DateFormat::Yyyymmdd => "YYYYMMDD"@,
        DateFormat::Yyddd => "YYDDD"@,
    }
}

/// Whether a prior sentinel scan hit this field.
pub open spec fn sentinel_hit(hits: Seq<(Seq<char>, Seq<char>)>, field: Seq<char>) -> bool {
    exists|i: int| 0 <= i < hits.len() && #[trigger] hits[i].0 == field
}

pub struct DateAcc {
    pub statuses: Seq<(Seq<char>, Seq<char>)>,
    pub findings: Seq<(Seq<char>, Seq<char>)>,
    pub entries: Seq<Seq<char>>,
}

pub open spec fn shown(field: Seq<char>, raw: Seq<char>) -> Seq<char> {
    spec_debug_str(field) + "="@ + spec_debug_str(raw)
}

/// One declared date field: a missing field is a finding; otherwise its raw text (the field's raw
/// bytes as text) is validated, unless a declared sentinel hit it.
pub open spec fn date_step(acc: DateAcc, fp: DateFieldProfile, hits: Seq<(Seq<char>, Seq<char>)>, fs: Seq<FieldView>) -> DateAcc {
    let field = fp.field@;
    match last_field(fs, field) {
        None => DateAcc {
            findings: acc.findings.push(("KOBOLD-DATE-MISSING-FIELD"@, "declared date field "@ + spec_debug_str(field) + " not found"@)),
            ..acc
        },
        Some(f) => {
            let raw = spec_utf8_lossy(unhex_spec(f.raw_hex));
            let status = if sentinel_hit(hits, field) { "declared_sentinel"@ } else { validate_spec(raw, fp.format) };
            let f1 = if status == "invalid_format"@ {
                acc.findings.push(("KOBOLD-DATE-INVALID-FORMAT"@, shown(field, raw) + " not the declared format"@))
            } else if status == "invalid_calendar"@ {
                let g = acc.findings.push(("KOBOLD-DATE-INVALID-CALENDAR-DATE"@, shown(field, raw) + " is not a valid calendar date"@));
                if fp.require_sentinel_profile {
                    g.push(
                        (
                            "KOBOLD-DATE-SENTINEL-UNDECLARED"@,
                            shown(field, raw)
                                + " is not a valid date and is not a declared sentinel \u{2014} declare it in SENTINEL.PROFILE.1"@,
                        ),
                    )
                } else {
                    g
                }
            } else {
                acc.findings
            };
            let claim = if status == "valid"@ { "format_valid_only"@ } else { "none"@ };
            DateAcc {
                statuses: acc.statuses.push((field, status)),
                findings: f1,
                entries: acc.entries.push(
                    "{\"field\":"@ + js(field) + ",\"format\":"@ + js(format_text(fp.format)) + ",\"raw\":"@ + js(raw)
                        + ",\"status\":"@ + js(status) + ",\"date_meaning_claimed\":"@ + js(claim) + "}"@,
                ),
            }
        },
    }
}

pub open spec fn date_fold(fps: Seq<DateFieldProfile>, hits: Seq<(Seq<char>, Seq<char>)>, fs: Seq<FieldView>, n: nat) -> DateAcc
    decreases n,
{
    if n == 0 || n > fps.len() {
        DateAcc { statuses: seq![], findings: seq![], entries: seq![] }
    } else {
        date_step(date_fold(fps, hits, fs, (n - 1) as nat), fps[n - 1], hits, fs)
    }
}

pub open spec fn date_manifest_json(record: Seq<u8>, acc: DateAcc) -> Seq<char> {
    "{\"schema\":\"kobold-date-manifest-v1\",\"court\":\"KOBOLD.DATE.PROFILE.1\",\"record_sha256\":"@ + js(
        spec_sha256_hex(record),
    ) + ",\"fields\":["@ + join_comma(acc.entries) + "]}"@
}

pub open spec fn date_casefile_json(manifest: Seq<char>, findings: Seq<(Seq<char>, Seq<char>)>) -> Seq<char> {
    "{\"schema\":\"kobold-date-forensic-casefile-v1\",\"court\":\"KOBOLD.DATE.PROFILE.1\",\"manifest\":"@ + manifest
        + ",\"findings\":["@ + join_comma(finding_entries(findings))
        + "],\"truth_layers\":{\"format_valid_evidence\":true,\"business_calendar\":false,\"settlement_date\":false,\"maturity_date\":false,\"y2k_window\":false,\"currentness\":false,\"date_arithmetic\":false},\"negative_capabilities\":[\"NEG.DATE.PIC9_NOT_DATE\",\"NEG.DATE.ZERO_DATE_NOT_NULL\",\"NEG.DATE.HIGH_DATE_NOT_MAX_DATE\",\"NEG.DATE.Y2K_WINDOW_NOT_INFERRED\",\"NEG.DATE.BUSINESS_CALENDAR_NOT_CLAIMED\",\"NEG.DATE.SETTLEMENT_DATE_NOT_CLAIMED\",\"NEG.DATE.ARITHMETIC_NOT_CLAIMED\",\"NEG.DATE.CURRENTNESS_NOT_CLAIMED\"]}\n"@
}

pub struct DateView {
    pub manifest: Seq<char>,
    pub casefile: Seq<char>,
    pub statuses: Seq<(Seq<char>, Seq<char>)>,
    pub findings: Seq<(Seq<char>, Seq<char>)>,
}

/// The date evidence of one record, or the copybook's layout failure.
pub open spec fn date_spec(cb: Copybook, record: Seq<u8>, p: DateProfile, hits: Seq<(Seq<char>, Seq<char>)>, enc: Encoding) -> Result<
    DateView,
    ShimErrorView,
> {
    match decode_record_spec(cb, record, enc) {
        Err(e) => Err(e),
        Ok(rv) => {
            let acc = date_fold(p.fields@, hits, rv.fields, p.fields@.len());
            let m = date_manifest_json(record, acc);
            Ok(DateView { manifest: m, casefile: date_casefile_json(m, acc.findings), statuses: acc.statuses, findings: acc.findings })
        },
    }
}


proof fn lemma_date_fold_statuses(fps: Seq<DateFieldProfile>, hits: Seq<(Seq<char>, Seq<char>)>, fs: Seq<FieldView>, n: nat)
    ensures
        forall|k: int|
            0 <= k < date_fold(fps, hits, fs, n).statuses.len() ==> exists|i: int|
                0 <= i < fps.len() && #[trigger] fps[i].field@ == #[trigger] date_fold(fps, hits, fs, n).statuses[k].0,
    decreases n,
{
    if n > 0 && n <= fps.len() {
        lemma_date_fold_statuses(fps, hits, fs, (n - 1) as nat);
        let a = date_fold(fps, hits, fs, (n - 1) as nat);
        let r = date_fold(fps, hits, fs, n);
        assert forall|k: int| 0 <= k < r.statuses.len() implies exists|i: int|
            0 <= i < fps.len() && #[trigger] fps[i].field@ == #[trigger] r.statuses[k].0 by {
            if k < a.statuses.len() {
                assert(r.statuses[k] == a.statuses[k]);
            } else {
                assert(fps[n - 1].field@ == r.statuses[k].0);
            }
        }
    }
}

/// A PIC shape alone gets no date claim: every field that carries a date status is a field the
/// profile declares; an undeclared `PIC 9(8)` is never read as a date.
pub proof fn lemma_only_declared_fields_get_a_status(cb: Copybook, record: Seq<u8>, p: DateProfile, hits: Seq<(Seq<char>, Seq<char>)>, enc: Encoding)
    ensures
        date_spec(cb, record, p, hits, enc) matches Ok(v) ==> forall|k: int|
            0 <= k < v.statuses.len() ==> exists|i: int|
                0 <= i < p.fields@.len() && #[trigger] p.fields@[i].field@ == #[trigger] v.statuses[k].0,
{
    if let Ok(rv) = decode_record_spec(cb, record, enc) {
        lemma_date_fold_statuses(p.fields@, hits, rv.fields, p.fields@.len());
    }
}

fn find_last(fields: &Vec<DecodedField>, name: &str) -> (r: Option<usize>)
    ensures
        match r {
            Some(i) => i < fields@.len() && last_field(fields_view(fields@), name@) == Some(fields_view(fields@)[i as int]),
            None => last_field(fields_view(fields@), name@) is None,
        },
{
    let ghost fv = fields_view(fields@);
    let mut i = fields.len();
    assert(fv.take(i as int) =~= fv);
    while i > 0
        invariant
            i <= fields@.len(),
            fv == fields_view(fields@),
            last_field(fv.take(i as int), name@) == last_field(fv, name@),
        decreases i,
    {
        assert(fv.take(i as int).drop_last() =~= fv.take(i - 1));
        assert(fv.take(i as int).last() == fv[i - 1]);
        if str_eq(fields[i - 1].name.as_str(), name) {
            return Some(i - 1);
        }
        i -= 1;
    }
    None
}

fn is_hit(hits: &[(String, String)], field: &str) -> (r: bool)
    ensures
        r == sentinel_hit(pairs_view(hits@), field@),
{
    let ghost pv = pairs_view(hits@);
    let mut i: usize = 0;
    while i < hits.len()
        invariant
            i <= hits@.len(),
            pv == pairs_view(hits@),
            forall|k: int| 0 <= k < i ==> pv[k].0 != field@,
        decreases hits@.len() - i,
    {
        if str_eq(hits[i].0.as_str(), field) {
            assert(pv[i as int].0 == field@);
            return true;
        }
        i += 1;
    }
    false
}

fn shown_exec(field: &str, raw: &String) -> (s: String)
    ensures
        s@ == shown(field@, raw@),
{
    let mut s = debug_str(field);
    push_lit(&mut s, "=");
    let d = debug_str(raw.as_str());
    s.append(d.as_str());
    s
}

fn push_pair(v: &mut Vec<(String, String)>, rule: &str, msg: String)
    ensures
        pairs_view(final(v)@) == pairs_view(old(v)@).push((rule@, msg@)),
{
    let ghost b = pairs_view(v@);
    v.push((String::from_str(rule), msg));
    assert(pairs_view(v@) =~= b.push((rule@, msg@)));
}

#[verifier::rlimit(40)]
fn date_one(
    fp: &DateFieldProfile,
    hits: &[(String, String)],
    fields: &Vec<DecodedField>,
    statuses: &mut Vec<(String, String)>,
    findings: &mut Vec<(String, String)>,
    entries: &mut Vec<String>,
)
    requires
        forall|i: int| 0 <= i < fields@.len() ==> all_lower_hex(#[trigger] fields@[i].raw_hex@),
    ensures
        date_step(
            DateAcc { statuses: pairs_view(old(statuses)@), findings: pairs_view(old(findings)@), entries: strs_view(old(entries)@) },
            *fp,
            pairs_view(hits@),
            fields_view(fields@),
        ) == (DateAcc { statuses: pairs_view(final(statuses)@), findings: pairs_view(final(findings)@), entries: strs_view(final(entries)@) }),
{
    let k = match find_last(fields, fp.field) {
        None => {
            let mut m = String::from_str("declared date field ");
            let d = debug_str(fp.field);
            m.append(d.as_str());
            push_lit(&mut m, " not found");
            push_pair(findings, "KOBOLD-DATE-MISSING-FIELD", m);
            return;
        },
        Some(k) => k,
    };
    assert(fields_view(fields@)[k as int].raw_hex == fields@[k as int].raw_hex@);
    let bytes = unhex(&fields[k].raw_hex);
    let raw = utf8_lossy(bytes.as_slice());
    let status: &'static str = if is_hit(hits, fp.field) { "declared_sentinel" } else { validate(&raw, fp.format) };
    if str_eq(status, "invalid_format") {
        let mut m = shown_exec(fp.field, &raw);
        push_lit(&mut m, " not the declared format");
        push_pair(findings, "KOBOLD-DATE-INVALID-FORMAT", m);
    } else if str_eq(status, "invalid_calendar") {
        let mut m = shown_exec(fp.field, &raw);
        push_lit(&mut m, " is not a valid calendar date");
        push_pair(findings, "KOBOLD-DATE-INVALID-CALENDAR-DATE", m);
        if fp.require_sentinel_profile {
            let mut m2 = shown_exec(fp.field, &raw);
            push_lit(&mut m2, " is not a valid date and is not a declared sentinel \u{2014} declare it in SENTINEL.PROFILE.1");
            push_pair(findings, "KOBOLD-DATE-SENTINEL-UNDECLARED", m2);
        }
    }
    let claim = if str_eq(status, "valid") { "format_valid_only" } else { "none" };
    let fmt = match fp.format {
        DateFormat::Yyyymmdd => "YYYYMMDD",
        DateFormat::Yyddd => "YYDDD",
    };
    let mut e = String::new();
    push_lit(&mut e, "{\"field\":");
    push_js(&mut e, fp.field);
    push_lit(&mut e, ",\"format\":");
    push_js(&mut e, fmt);
    push_lit(&mut e, ",\"raw\":");
    push_js(&mut e, raw.as_str());
    push_lit(&mut e, ",\"status\":");
    push_js(&mut e, status);
    push_lit(&mut e, ",\"date_meaning_claimed\":");
    push_js(&mut e, claim);
    push_lit(&mut e, "}");
    proof {
        lemma_strs_push(entries@, e);
    }
    entries.push(e);
    push_pair(statuses, fp.field, String::from_str(status));
}

/// Validate declared date fields of one record against their declared formats. `sentinel_hits`
/// are `(field, sentinel_id)` pairs from a prior sentinel scan: a field a declared sentinel hit is
/// not validated as a date.
#[verifier::rlimit(40)]
pub fn date_validate(cb: &Copybook, record: &[u8], profile: &DateProfile, sentinel_hits: &[(String, String)], encoding: Encoding) -> (r:
    Result<DateManifest, ShimError>)
    ensures
        match r {
            Ok(m) => date_spec(*cb, record@, *profile, pairs_view(sentinel_hits@), encoding) == Ok::<DateView, ShimErrorView>(
                DateView {
                    manifest: m.manifest_json@,
                    casefile: m.casefile_json@,
                    statuses: pairs_view(m.statuses@),
                    findings: pairs_view(m.findings@),
                },
            ),
            Err(e) => date_spec(*cb, record@, *profile, pairs_view(sentinel_hits@), encoding) == Err::<DateView, ShimErrorView>(
                shim_error_view(e),
            ),
        },
{
    let decoded = decode_record_encoded(cb, record, encoding)?;
    let ghost fs = record_view(decoded).fields;
    proof {
        let p = crate::decode::program_spec(*cb)->Ok_0;
        lemma_fields_raw_hex(p, record@, encoding);
        assert(fs == fields_spec(p, record@, encoding));
        assert forall|i: int| 0 <= i < decoded.fields@.len() implies all_lower_hex(#[trigger] decoded.fields@[i].raw_hex@) by {
            assert(all_lower_hex(fields_spec(p, record@, encoding)[i].raw_hex));
            assert(fs[i] == field_view(decoded.fields@[i]));
        }
    }
    let mut statuses: Vec<(String, String)> = Vec::new();
    let mut findings: Vec<(String, String)> = Vec::new();
    let mut entries: Vec<String> = Vec::new();
    assert(pairs_view(statuses@) =~= seq![]);
    assert(pairs_view(findings@) =~= seq![]);
    assert(strs_view(entries@) =~= seq![]);
    let mut i: usize = 0;
    while i < profile.fields.len()
        invariant
            i <= profile.fields@.len(),
            fs == fields_view(decoded.fields@),
            forall|j: int| 0 <= j < decoded.fields@.len() ==> all_lower_hex(#[trigger] decoded.fields@[j].raw_hex@),
            date_fold(profile.fields@, pairs_view(sentinel_hits@), fs, i as nat) == (DateAcc {
                statuses: pairs_view(statuses@),
                findings: pairs_view(findings@),
                entries: strs_view(entries@),
            }),
        decreases profile.fields@.len() - i,
    {
        date_one(&profile.fields[i], sentinel_hits, &decoded.fields, &mut statuses, &mut findings, &mut entries);
        i += 1;
    }
    let ghost acc = date_fold(profile.fields@, pairs_view(sentinel_hits@), fs, profile.fields@.len());
    let mut m = String::new();
    push_lit(&mut m, "{\"schema\":\"kobold-date-manifest-v1\",\"court\":\"KOBOLD.DATE.PROFILE.1\",\"record_sha256\":");
    let h = sha256_hex(record);
    push_js(&mut m, h.as_str());
    push_lit(&mut m, ",\"fields\":[");
    push_joined(&mut m, &entries);
    push_lit(&mut m, "]}");
    assert(m@ =~= date_manifest_json(record@, acc));
    let fl = finding_list(&findings);
    let mut c = String::new();
    push_lit(&mut c, "{\"schema\":\"kobold-date-forensic-casefile-v1\",\"court\":\"KOBOLD.DATE.PROFILE.1\",\"manifest\":");
    c.append(m.as_str());
    push_lit(&mut c, ",\"findings\":[");
    push_joined(&mut c, &fl);
    push_lit(
        &mut c,
        "],\"truth_layers\":{\"format_valid_evidence\":true,\"business_calendar\":false,\"settlement_date\":false,\"maturity_date\":false,\"y2k_window\":false,\"currentness\":false,\"date_arithmetic\":false},\"negative_capabilities\":[\"NEG.DATE.PIC9_NOT_DATE\",\"NEG.DATE.ZERO_DATE_NOT_NULL\",\"NEG.DATE.HIGH_DATE_NOT_MAX_DATE\",\"NEG.DATE.Y2K_WINDOW_NOT_INFERRED\",\"NEG.DATE.BUSINESS_CALENDAR_NOT_CLAIMED\",\"NEG.DATE.SETTLEMENT_DATE_NOT_CLAIMED\",\"NEG.DATE.ARITHMETIC_NOT_CLAIMED\",\"NEG.DATE.CURRENTNESS_NOT_CLAIMED\"]}\n",
    );
    assert(c@ =~= date_casefile_json(m@, pairs_view(findings@)));
    Ok(DateManifest { manifest_json: m, casefile_json: c, statuses, findings })
}

/// Day `d` of month `m` of year `y` exists in the Gregorian calendar: January, March, May, July,
/// August, October and December have 31 days; April, June, September and November 30; February
/// 29 in a year divisible by 4 but not by 100, or by 400, and 28 in any other year.
pub open spec fn gregorian_day(y: nat, m: nat, d: nat) -> bool {
    let leap = (y % 4 == 0 && y % 100 != 0) || y % 400 == 0;
    &&& 1 <= m <= 12
    &&& 1 <= d
    &&& if m == 2 {
        d <= 28 || (d == 29 && leap)
    } else if m == 4 || m == 6 || m == 9 || m == 11 {
        d <= 30
    } else {
        d <= 31
    }
}

/// An eight-digit `YYYYMMDD` text is valid exactly when it names a day of the Gregorian calendar,
/// else it is an invalid calendar date (so day 31 of April, June, September or November, and
/// February 29 of a common year, are invalid); a five-digit `YYDDD` text is valid exactly when its
/// day of year is at least 1 and at most 366 in a leap year `2000 + YY`, 365 otherwise; any other
/// text, of another length or with a character that is not a digit, is of an invalid format.
pub proof fn lemma_dates_follow_the_calendar(raw: Seq<char>)
    ensures
        raw.len() != 8 || !all_digits(raw) ==> validate_spec(raw, DateFormat::Yyyymmdd) == "invalid_format"@,
        raw.len() != 5 || !all_digits(raw) ==> validate_spec(raw, DateFormat::Yyddd) == "invalid_format"@,
        all_digits(raw) && raw.len() == 8 ==> validate_spec(raw, DateFormat::Yyyymmdd) == if gregorian_day(
            digits_value(raw.subrange(0, 4)),
            digits_value(raw.subrange(4, 6)),
            digits_value(raw.subrange(6, 8)),
        ) {
            "valid"@
        } else {
            "invalid_calendar"@
        },
        all_digits(raw) && raw.len() == 5 ==> validate_spec(raw, DateFormat::Yyddd) == ({
            let yy = digits_value(raw.subrange(0, 2));
            let ddd = digits_value(raw.subrange(2, 5));
            let y = 2000 + yy;
            let leap = (y % 4 == 0 && y % 100 != 0) || y % 400 == 0;
            if 1 <= ddd && ddd <= (if leap { 366nat } else { 365nat }) {
                "valid"@
            } else {
                "invalid_calendar"@
            }
        }),
{
}

/// A declared field whose raw text is an eight-digit `YYYYMMDD` date and that no declared sentinel
/// hit gets the status the calendar gives it, and an invalid calendar date is a finding.
pub proof fn lemma_declared_date_status(acc: DateAcc, fp: DateFieldProfile, hits: Seq<(Seq<char>, Seq<char>)>, fs: Seq<FieldView>)
    requires
        fp.format == DateFormat::Yyyymmdd,
        !sentinel_hit(hits, fp.field@),
        last_field(fs, fp.field@) is Some,
        ({
            let raw = spec_utf8_lossy(unhex_spec(last_field(fs, fp.field@)->0.raw_hex));
            raw.len() == 8 && all_digits(raw)
        }),
    ensures
        ({
            let raw = spec_utf8_lossy(unhex_spec(last_field(fs, fp.field@)->0.raw_hex));
            let ok = gregorian_day(digits_value(raw.subrange(0, 4)), digits_value(raw.subrange(4, 6)), digits_value(raw.subrange(6, 8)));
            let r = date_step(acc, fp, hits, fs);
            &&& r.statuses == acc.statuses.push((fp.field@, if ok { "valid"@ } else { "invalid_calendar"@ }))
            &&& !ok ==> r.findings.len() > acc.findings.len() && r.findings[acc.findings.len() as int].0 == "KOBOLD-DATE-INVALID-CALENDAR-DATE"@
            &&& ok ==> r.findings == acc.findings
        }),
{
    let raw = spec_utf8_lossy(unhex_spec(last_field(fs, fp.field@)->0.raw_hex));
    lemma_dates_follow_the_calendar(raw);
    reveal_strlit("valid");
    reveal_strlit("invalid_format");
    reveal_strlit("invalid_calendar");
    assert("valid"@.len() != "invalid_format"@.len());
    assert("valid"@.len() != "invalid_calendar"@.len());
    assert("invalid_calendar"@[8] != "invalid_format"@[8]);
}

} // verus!
