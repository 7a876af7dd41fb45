//! Fixed-record container ingest (`KOBOLD.FILE.1`): split a raw byte stream into records of an
//! explicit, caller-declared length, with stable offsets, named trailing/partial policies, a
//! file-level audit, and stable exit codes.
//!
//! The default is **strict**: a partial trailing record or an unexpected trailing newline is an
//! error, never silently absorbed.
use crate::sha256::{sha256_hex, spec_sha256_hex};
use crate::text::{bool_text, dec_int, dec_nat, push_bool, push_i128, push_i64, push_usize};
use vstd::prelude::*;

verus! {

/// What to do with a single trailing `\n` (`0x0A`) at the very end of the input.
#[derive(Debug, Clone, Copy, PartialEq, Eq, Structural)]
pub enum TrailingNewline {
    /// A final `\n` is **not** allowed (the strict default).
    Reject,
    /// A single final `\n` is tolerated and removed before splitting.
    AllowFinalLf,
    /// A single final `\n` is removed before splitting and recorded as stripped in the audit.
    StripFinalLf,
}

impl Default for TrailingNewline {
    fn default() -> (r: Self)
        ensures
            r == TrailingNewline::Reject,
    {
        TrailingNewline::Reject
    }
}

/// What to do with a trailing partial record.
#[derive(Debug, Clone, Copy, PartialEq, Eq, Structural)]
pub enum PartialRecord {
    /// A partial trailing record is an invalid input shape (the strict default).
    Reject,
    /// A partial trailing record is preserved as marked evidence.
    Evidence,
}

impl Default for PartialRecord {
    fn default() -> (r: Self)
        ensures
            r == PartialRecord::Reject,
    {
        PartialRecord::Reject
    }
}

/// Stable process exit codes. Documented and frozen — operators script against these.
#[derive(Debug, Clone, Copy, PartialEq, Eq, Structural)]
pub enum ExitCode {
    /// Clean ingest/decode (0).
    Success,
    /// Decoded, but evidence warnings exist (1).
    DecodedWithEvidenceWarnings,
    /// The input shape is invalid (2).
    InvalidInputShape,
    /// An unsupported COBOL surface was required (3).
    UnsupportedCobolSurface,
    /// An internal invariant failed (4).
    InternalInvariantFailure,
    /// An I/O or configuration error (5).
    IoOrConfigError,
}

pub open spec fn exit_code_value(e: ExitCode) -> i32 {
    match e {
        ExitCode::Success => 0,
        ExitCode::DecodedWithEvidenceWarnings => 1,
        ExitCode::InvalidInputShape => 2,
        ExitCode::UnsupportedCobolSurface => 3,
        ExitCode::InternalInvariantFailure => 4,
        ExitCode::IoOrConfigError => 5,
    }
}

impl ExitCode {
    /// The numeric code (for the process exit status).
    pub fn code(self) -> (c: i32)
        ensures
            c == exit_code_value(self),
    {
        match self {
            ExitCode::Success => 0,
            ExitCode::DecodedWithEvidenceWarnings => 1,
            ExitCode::InvalidInputShape => 2,
            ExitCode::UnsupportedCobolSurface => 3,
            ExitCode::InternalInvariantFailure => 4,
            ExitCode::IoOrConfigError => 5,
        }
    }
}

/// Two different exit codes never share a number.
pub proof fn lemma_exit_codes_distinct(a: ExitCode, b: ExitCode)
    ensures
        exit_code_value(a) == exit_code_value(b) ==> a == b,
{
}

/// Why an ingest was rejected, carrying the [`ExitCode`] an operator should see.
#[derive(Debug, Clone)]
pub struct IngestError {
    pub message: String,
    pub exit: ExitCode,
}

pub open spec fn ingest_error_text(message: Seq<char>, exit: ExitCode) -> Seq<char> {
    message + " (exit "@ + dec_int(exit_code_value(exit) as int) + ")"@
}

impl IngestError {
    /// The operator-facing rendering: `"<message> (exit <code>)"`.
    pub fn to_string(&self) -> (s: String)
        ensures
            s@ == ingest_error_text(self.message@, self.exit),
    {
        let mut s = String::new();
        s.append(self.message.as_str());
        s.append(" (exit ");
        push_i64(&mut s, self.exit.code() as i64);
        s.append(")");
        s
    }
}

/// The ingest policy (all explicit — nothing auto-detected).
#[derive(Debug, Clone, Copy, PartialEq, Eq, Structural)]
pub struct IngestPolicy {
    pub record_len: usize,
    pub trailing_newline: TrailingNewline,
    pub partial_record: PartialRecord,
}

impl IngestPolicy {
    /// Strict defaults: reject a trailing newline and a partial record.
    pub fn strict(record_len: usize) -> (p: Self)
        ensures
            p.record_len == record_len,
            p.trailing_newline == TrailingNewline::Reject,
            p.partial_record == PartialRecord::Reject,
    {
        IngestPolicy {
            record_len,
            trailing_newline: TrailingNewline::Reject,
            partial_record: PartialRecord::Reject,
        }
    }
}

/// One record's position in the original byte stream. `offset` is the **true file offset**.
#[derive(Debug, Clone, Copy, PartialEq, Eq, Structural)]
pub struct RecordSpan {
    pub index: usize,
    pub offset: usize,
    pub len: usize,
    /// `true` if this is a preserved partial trailing record.
    pub partial: bool,
}

/// The result of ingesting a fixed-record container.
#[derive(Debug, Clone)]
pub struct Ingest {
    pub record_len: usize,
    pub input_len: usize,
    pub input_sha256: String,
    pub spans: Vec<RecordSpan>,
    pub stripped_final_lf: bool,
    pub partial_present: bool,
    pub verdict: ExitCode,
    pub trailing_policy: TrailingNewline,
    pub partial_policy: PartialRecord,
}

// ----------------------------------------------------------------------------------------------
// The ingest model
// ----------------------------------------------------------------------------------------------

pub open spec fn ends_with_lf(data: Seq<u8>) -> bool {
    data.len() > 0 && data.last() == 0x0au8
}

/// Length used for splitting: a tolerated/stripped final LF is never part of a record.
pub open spec fn effective_len(data: Seq<u8>, p: IngestPolicy) -> int {
    if ends_with_lf(data) && p.trailing_newline != TrailingNewline::Reject {
        data.len() - 1
    } else {
        data.len() as int
    }
}

/// The span at position `k` when `eff` bytes are split into records of `rl` bytes.
pub open spec fn span_at(k: int, eff: int, rl: int) -> RecordSpan {
    let full = eff / rl;
    RecordSpan {
        index: k as usize,
        offset: (k * rl) as usize,
        len: (if k < full {
            rl
        } else {
            eff % rl
        }) as usize,
        partial: k >= full,
    }
}

pub open spec fn span_count(eff: int, rl: int) -> int {
    eff / rl + if eff % rl != 0 {
        1int
    } else {
        0int
    }
}

pub open spec fn partial_message(rem: int, full: int, rl: int) -> Seq<char> {
    "partial trailing record: "@ + dec_nat(rem as nat) + " byte(s) beyond "@ + dec_nat(
        full as nat,
    ) + " full records of "@ + dec_nat(rl as nat) + " (policy: reject)"@
}

/// When ingest refuses, and with which error.
pub open spec fn ingest_refusal(data: Seq<u8>, p: IngestPolicy) -> Option<(Seq<char>, ExitCode)> {
    let rl = p.record_len as int;
    let eff = effective_len(data, p);
    if rl == 0 {
        Some(("record_len must be > 0"@, ExitCode::IoOrConfigError))
    } else if ends_with_lf(data) && p.trailing_newline == TrailingNewline::Reject {
        Some(("unexpected trailing newline (policy: reject)"@, ExitCode::InvalidInputShape))
    } else if eff % rl != 0 && p.partial_record == PartialRecord::Reject {
        Some((partial_message(eff % rl, eff / rl, rl), ExitCode::InvalidInputShape))
    } else {
        None
    }
}

/// The accepted-ingest facts: true offsets, exact tiling, and the declared policies.
pub open spec fn ingest_accepted(data: Seq<u8>, p: IngestPolicy, ing: Ingest) -> bool {
    let rl = p.record_len as int;
    let eff = effective_len(data, p);
    &&& ing.record_len == p.record_len
    &&& ing.input_len == data.len()
    &&& ing.input_sha256@ == spec_sha256_hex(data)
    &&& ing.spans@.len() == span_count(eff, rl)
    &&& forall|k: int| 0 <= k < ing.spans@.len() ==> #[trigger] ing.spans@[k] == span_at(k, eff, rl)
    &&& ing.stripped_final_lf == (ends_with_lf(data) && p.trailing_newline
        == TrailingNewline::StripFinalLf)
    &&& ing.partial_present == (eff % rl != 0)
    &&& ing.verdict == (if eff % rl != 0 {
        ExitCode::DecodedWithEvidenceWarnings
    } else {
        ExitCode::Success
    })
    &&& ing.trailing_policy == p.trailing_newline
    &&& ing.partial_policy == p.partial_record
}

/// Ingest `data` into fixed-length records under `policy`. Offsets are true file offsets; nothing
/// is auto-detected or silently repaired.
pub fn ingest(data: &[u8], policy: &IngestPolicy) -> (r: Result<Ingest, IngestError>)
    ensures
        match ingest_refusal(data@, *policy) {
            Some((msg, exit)) => (r matches Err(e) && e.message@ == msg && e.exit == exit),
            None => (r matches Ok(ing) && ingest_accepted(data@, *policy, ing)),
        },
{
    let rl = policy.record_len;
    if rl == 0 {
        return Err(IngestError { message: String::from_str("record_len must be > 0"), exit: ExitCode::IoOrConfigError });
    }
    let input_len = data.len();
    let ends_lf = input_len > 0 && data[input_len - 1] == 0x0au8;
    let mut eff_len = input_len;
    let mut stripped_final_lf = false;
    if ends_lf {
        match policy.trailing_newline {
            TrailingNewline::Reject => {
                return Err(IngestError {
                    message: String::from_str("unexpected trailing newline (policy: reject)"),
                    exit: ExitCode::InvalidInputShape,
                });
            },
            TrailingNewline::AllowFinalLf => {
                eff_len = input_len - 1;
            },
            TrailingNewline::StripFinalLf => {
                eff_len = input_len - 1;
                stripped_final_lf = true;
            },
        }
    }
    assert(ends_lf == ends_with_lf(data@));
    assert(eff_len as int == effective_len(data@, *policy));
    let full = eff_len / rl;
    let rem = eff_len % rl;
    if rem != 0 && policy.partial_record == PartialRecord::Reject {
        let mut m = String::from_str("partial trailing record: ");
        push_usize(&mut m, rem);
        m.append(" byte(s) beyond ");
        push_usize(&mut m, full);
        m.append(" full records of ");
        push_usize(&mut m, rl);
        m.append(" (policy: reject)");
        return Err(IngestError { message: m, exit: ExitCode::InvalidInputShape });
    }
    let input_sha256 = sha256_hex(data);
    let mut spans: Vec<RecordSpan> = Vec::new();
    let mut i: usize = 0;
    while i < full
        invariant
            i <= full,
            full == eff_len / rl,
            rl > 0,
            eff_len <= input_len,
            spans@.len() == i,
            forall|k: int| 0 <= k < i ==> #[trigger] spans@[k] == span_at(k, eff_len as int, rl as int),
        decreases full - i,
    {
        assert(i * rl <= eff_len) by (nonlinear_arith)
            requires
                i < full,
                full == eff_len / rl,
                rl > 0,
        ;
        spans.push(RecordSpan { index: i, offset: i * rl, len: rl, partial: false });
        i += 1;
    }
    let mut partial_present = false;
    let mut verdict = ExitCode::Success;
    if rem != 0 {
        assert(full * rl <= eff_len) by (nonlinear_arith)
            requires
                full == eff_len / rl,
                rl > 0,
        ;
        spans.push(RecordSpan { index: full, offset: full * rl, len: rem, partial: true });
        partial_present = true;
        verdict = ExitCode::DecodedWithEvidenceWarnings;
    }
    Ok(
        Ingest {
            record_len: rl,
            input_len,
            input_sha256,
            spans,
            stripped_final_lf,
            partial_present,
            verdict,
            trailing_policy: policy.trailing_newline,
            partial_policy: policy.partial_record,
        },
    )
}

/// The spans of an accepted ingest tile the effective input exactly: the first starts at 0, each
/// next one starts where the previous ended, the last ends at the effective length, and only the
/// last may be partial.
pub proof fn lemma_spans_tile(data: Seq<u8>, p: IngestPolicy, ing: Ingest)
    requires
        ingest_accepted(data, p, ing),
        p.record_len > 0,
    ensures
        ing.spans@.len() > 0 ==> ing.spans@[0].offset == 0,
        forall|k: int|
            0 <= k < ing.spans@.len() - 1 ==> #[trigger] ing.spans@[k].offset + ing.spans@[k].len
                == ing.spans@[k + 1].offset && !ing.spans@[k].partial,
        ing.spans@.len() > 0 ==> ing.spans@.last().offset + ing.spans@.last().len
            == effective_len(data, p),
        ing.spans@.len() == 0 ==> effective_len(data, p) == 0,
{
    let rl = p.record_len as int;
    let eff = effective_len(data, p);
    let n = ing.spans@.len() as int;
    assert(0 <= eff);
    assert(eff == (eff / rl) * rl + eff % rl) by (nonlinear_arith)
        requires
            rl > 0,
    ;
    assert forall|k: int| 0 <= k < n - 1 implies #[trigger] ing.spans@[k].offset
        + ing.spans@[k].len == ing.spans@[k + 1].offset && !ing.spans@[k].partial by {
        assert(ing.spans@[k] == span_at(k, eff, rl));
        assert(ing.spans@[k + 1] == span_at(k + 1, eff, rl));
        assert(k < eff / rl);
        assert((k + 1) * rl <= eff) by (nonlinear_arith)
            requires
                k + 1 <= eff / rl,
                rl > 0,
                eff == (eff / rl) * rl + eff % rl,
                eff % rl >= 0,
        ;
        assert(k * rl + rl == (k + 1) * rl) by (nonlinear_arith);
    }
    if n > 0 {
        assert(ing.spans@[n - 1] == span_at(n - 1, eff, rl));
        assert(ing.spans@[0] == span_at(0, eff, rl));
        if eff % rl != 0 {
            assert((n - 1) * rl + eff % rl == eff) by (nonlinear_arith)
                requires
                    n - 1 == eff / rl,
                    eff == (eff / rl) * rl + eff % rl,
            ;
        } else {
            assert((n - 1) * rl + rl == eff) by (nonlinear_arith)
                requires
                    n == eff / rl,
                    eff == (eff / rl) * rl + eff % rl,
                    eff % rl == 0,
            ;
        }
        assert((n - 1) * rl <= eff) by (nonlinear_arith)
            requires
                (n - 1) * rl + eff % rl == eff || (n - 1) * rl + rl == eff,
                rl > 0,
                eff % rl >= 0,
        ;
    } else {
        assert(eff / rl == 0 && eff % rl == 0);
    }
}

pub open spec fn trailing_policy_text(t: TrailingNewline) -> Seq<char> {
    match t {
        TrailingNewline::Reject => "reject"@,
        TrailingNewline::AllowFinalLf => "allow-final-lf"@,
        TrailingNewline::StripFinalLf => "strip-final-lf"@,
    }
}

pub open spec fn partial_policy_text(t: PartialRecord) -> Seq<char> {
    match t {
        PartialRecord::Reject => "reject"@,
        PartialRecord::Evidence => "evidence"@,
    }
}

/// The `kobold-file-ingest-v1` audit document of an ingest.
pub open spec fn file_audit_spec(ing: Ingest) -> Seq<char> {
    let first: int = if ing.spans@.len() > 0 {
        ing.spans@[0].offset as int
    } else {
        -1
    };
    let last: int = if ing.spans@.len() > 0 {
        ing.spans@.last().offset as int
    } else {
        -1
    };
    "{\"schema\":\"kobold-file-ingest-v1\",\"file\":{\"input_sha256\":\""@ + ing.input_sha256@
        + "\",\"input_len\":"@ + dec_nat(ing.input_len as nat) + ",\"record_len\":"@ + dec_nat(
        ing.record_len as nat,
    ) + ",\"record_count\":"@ + dec_nat(ing.spans@.len()) + ",\"trailing_policy\":\""@
        + trailing_policy_text(ing.trailing_policy) + "\",\"partial_record_policy\":\""@
        + partial_policy_text(ing.partial_policy) + "\",\"stripped_final_lf\":"@ + bool_text(
        ing.stripped_final_lf,
    ) + ",\"partial_record_present\":"@ + bool_text(ing.partial_present)
        + ",\"offsets\":{\"first\":"@ + dec_int(first) + ",\"last\":"@ + dec_int(last)
        + "},\"verdict_exit_code\":"@ + dec_int(exit_code_value(ing.verdict) as int) + "}}"@
}

impl Ingest {
    /// The bytes of record `i` (sliced from the caller's original `data`).
    pub fn record<'a>(&self, data: &'a [u8], i: usize) -> (r: Option<&'a [u8]>)
        ensures
            i < self.spans@.len() && self.spans@[i as int].offset + self.spans@[i as int].len
                <= data@.len() ==> (r matches Some(b) && b@ == data@.subrange(
                self.spans@[i as int].offset as int,
                self.spans@[i as int].offset + self.spans@[i as int].len,
            )),
            !(i < self.spans@.len() && self.spans@[i as int].offset + self.spans@[i as int].len
                <= data@.len()) ==> r is None,
    {
        if i >= self.spans.len() {
            return None;
        }
        let s = self.spans[i];
        if s.offset > data.len() || s.len > data.len() - s.offset {
            return None;
        }
        Some(vstd::slice::slice_subrange(data, s.offset, s.offset + s.len))
    }

    /// The canonical-JSON file-level audit manifest (byte-stable for a given input + policy).
    pub fn file_audit_json(&self) -> (s: String)
        ensures
            s@ == file_audit_spec(*self),
    {
        let mut first: i128 = -1;
        let mut last: i128 = -1;
        if self.spans.len() > 0 {
            first = self.spans[0].offset as i128;
            last = self.spans[self.spans.len() - 1].offset as i128;
        }
        let mut s = String::from_str("{\"schema\":\"kobold-file-ingest-v1\",\"file\":{\"input_sha256\":\"");
        s.append(self.input_sha256.as_str());
        s.append("\",\"input_len\":");
        push_usize(&mut s, self.input_len);
        s.append(",\"record_len\":");
        push_usize(&mut s, self.record_len);
        s.append(",\"record_count\":");
        push_usize(&mut s, self.spans.len());
        s.append(",\"trailing_policy\":\"");
        match self.trailing_policy {
            TrailingNewline::Reject => s.append("reject"),
            TrailingNewline::AllowFinalLf => s.append("allow-final-lf"),
            TrailingNewline::StripFinalLf => s.append("strip-final-lf"),
        }
        s.append("\",\"partial_record_policy\":\"");
        match self.partial_policy {
            PartialRecord::Reject => s.append("reject"),
            PartialRecord::Evidence => s.append("evidence"),
        }
        s.append("\",\"stripped_final_lf\":");
        push_bool(&mut s, self.stripped_final_lf);
        s.append(",\"partial_record_present\":");
        push_bool(&mut s, self.partial_present);
        s.append(",\"offsets\":{\"first\":");
        push_i128(&mut s, first);
        s.append(",\"last\":");
        push_i128(&mut s, last);
        s.append("},\"verdict_exit_code\":");
        push_i64(&mut s, self.verdict.code() as i64);
        s.append("}}");
        s
    }
}

} // verus!
