//! Structural comparison against a declared expected artifact.
//!
//! A match proves equality to the declared target under the selected comparison rules, not
//! business truth, ledger acceptance, settlement finality, customer approval or oracle authority.
//! The target is never called an oracle unless its declared status says so, and a match against a
//! target that is not an admitted oracle carries a refusal note.
use crate::operator::{lemma_str_lt_irrefl, lemma_str_lt_trans, str_lt, str_lt_exec};
use crate::text::{
    bool_text, debug_str, join_comma, join_sep, js, lemma_strs_push, push_bool, push_joined, push_joined_sep, push_js,
    push_lit, spec_debug_str, str_eq, strs_view,
};
use vstd::prelude::*;

verus! {

/// The declared authority of the comparison target. The default, and safest, is `NotOracle`.
#[derive(Debug, Clone, Copy, PartialEq, Eq, Structural)]
pub enum OracleStatus {
    NotOracle,
    DeclaredBaseline,
    CustomerSuppliedReference,
    SystemOfRecordExportUnvalidated,
    AdmittedOracle,
}

pub open spec fn oracle_text(s: OracleStatus) -> Seq<char> {
    match s {
        OracleStatus::NotOracle => "not_oracle"@,
        OracleStatus::DeclaredBaseline => "declared_baseline"@,
        OracleStatus::CustomerSuppliedReference => "customer_supplied_reference"@,
        OracleStatus::SystemOfRecordExportUnvalidated => "system_of_record_export_unvalidated"@,
        OracleStatus::AdmittedOracle => "admitted_oracle"@,
    }
}

impl OracleStatus {
    /// The status as written in reports.
    pub fn as_str(self) -> (r: &'static str)
        ensures
            r@ == oracle_text(self),
    {
        match self {
            OracleStatus::NotOracle => "not_oracle",
            OracleStatus::DeclaredBaseline => "declared_baseline",
            OracleStatus::CustomerSuppliedReference => "customer_supplied_reference",
            OracleStatus::SystemOfRecordExportUnvalidated => "system_of_record_export_unvalidated",
            OracleStatus::AdmittedOracle => "admitted_oracle",
        }
    }
}

/// A declared comparison target; `allowed_comparisons` gates which dimensions are compared
/// (any of `field_values`, `audit_hashes`, `finding_ids`, `control_totals`).
pub struct DiffTarget<'a> {
    pub target_kind: &'a str,
    pub oracle_status: OracleStatus,
    /// e.g. `test-golden`, `customer-supplied`, `system-export`, `previous-run`.
    pub source: &'a str,
    pub allowed_comparisons: &'a [&'a str],
}

/// One side of a comparison: a KOBOLD output (actual) or a declared artifact (expected).
pub struct DiffInput {
    pub fields: Vec<(String, String)>,
    pub finding_ids: Vec<String>,
    pub control_totals: Vec<(String, String)>,
    pub output_hash: Option<String>,
}

impl Default for DiffInput {
    fn default() -> (r: Self)
        ensures
            r.fields@.len() == 0 && r.finding_ids@.len() == 0 && r.control_totals@.len() == 0 && r.output_hash is None,
    {
        DiffInput { fields: Vec::new(), finding_ids: Vec::new(), control_totals: Vec::new(), output_hash: None }
    }
}

/// The deterministic diff result.
pub struct DiffReport {
    pub report_json: String,
    pub sarif_json: String,
    pub casefile_json: String,
    pub findings: Vec<(String, String)>,
    pub matched: bool,
}

pub open spec fn kv_view(v: Seq<(String, String)>) -> Seq<(Seq<char>, Seq<char>)> {
    v.map_values(|p: (String, String)| (p.0@, p.1@))
}

pub open spec fn opt_str_view(o: Option<String>) -> Option<Seq<char>> {
    match o {
        Some(s) => Some(s@),
        None => None,
    }
}

pub struct InputView {
    pub fields: Seq<(Seq<char>, Seq<char>)>,
    pub finding_ids: Seq<Seq<char>>,
    pub control_totals: Seq<(Seq<char>, Seq<char>)>,
    pub output_hash: Option<Seq<char>>,
}

pub open spec fn input_view(d: DiffInput) -> InputView {
    InputView {
        fields: kv_view(d.fields@),
        finding_ids: strs_view(d.finding_ids@),
        control_totals: kv_view(d.control_totals@),
        output_hash: opt_str_view(d.output_hash),
    }
}

pub struct TargetView {
    pub target_kind: Seq<char>,
    pub oracle_status: OracleStatus,
    pub source: Seq<char>,
    pub allowed: Seq<Seq<char>>,
}

pub open spec fn target_view(t: DiffTarget) -> TargetView {
    TargetView {
        target_kind: t.target_kind@,
        oracle_status: t.oracle_status,
        source: t.source@,
        allowed: t.allowed_comparisons@.map_values(|c: &str| c@),
    }
}

// ----------------------------------------------------------------------------------------------
// Lookups
// ----------------------------------------------------------------------------------------------

/// The value of the last entry keyed `k` (a later entry replaces an earlier one).
pub open spec fn last_val(list: Seq<(Seq<char>, Seq<char>)>, k: Seq<char>) -> Option<Seq<char>>
    decreases list.len(),
{
    if list.len() == 0 {
        None
    } else if list.last().0 == k {
        Some(list.last().1)
    } else {
        last_val(list.drop_last(), k)
    }
}

fn find_last(list: &Vec<(String, String)>, k: &str) -> (r: Option<usize>)
    ensures
        match r {
            Some(i) => i < list@.len() && last_val(kv_view(list@), k@) == Some(list@[i as int].1@),
            None => last_val(kv_view(list@), k@) is None,
        },
{
    let ghost kv = kv_view(list@);
    let mut i = list.len();
    assert(kv.take(i as int) =~= kv);
    while i > 0
        invariant
            i <= list@.len(),
            kv == kv_view(list@),
            last_val(kv, k@) == last_val(kv.take(i as int), k@),
        decreases i,
    {
        assert(kv.take(i as int).drop_last() =~= kv.take(i - 1));
        if str_eq(list[i - 1].0.as_str(), k) {
            return Some(i - 1);
        }
        i -= 1;
    }
    None
}

/// `Some("x")` or `None`, as std's `Debug` writes an optional string.
pub open spec fn opt_debug(o: Option<Seq<char>>) -> Seq<char> {
    match o {
        Some(s) => "Some("@ + spec_debug_str(s) + ")"@,
        None => "None"@,
    }
}

fn push_opt_debug(out: &mut String, o: Option<&str>)
    ensures
        final(out)@ == old(out)@ + opt_debug(
            match o {
                Some(s) => Some(s@),
                None => None,
            },
        ),
{
    match o {
        Some(s) => {
            push_lit(out, "Some(");
            let d = debug_str(s);
            out.append(d.as_str());
            push_lit(out, ")");
        },
        None => push_lit(out, "None"),
    }
}

// ----------------------------------------------------------------------------------------------
// Ordered sets of ids and sorted findings
// ----------------------------------------------------------------------------------------------

/// `x` placed before the first element it precedes.
pub open spec fn ins_str(s: Seq<Seq<char>>, x: Seq<char>) -> Seq<Seq<char>>
    decreases s.len(),
{
    if s.len() == 0 {
        seq![x]
    } else if str_lt(x, s[0]) {
        seq![x] + s
    } else {
        seq![s[0]] + ins_str(s.drop_first(), x)
    }
}

/// The distinct ids in ascending order (the order a `BTreeSet` walks them in).
pub open spec fn id_set(s: Seq<Seq<char>>) -> Seq<Seq<char>>
    decreases s.len(),
{
    if s.len() == 0 {
        seq![]
    } else {
        let prev = id_set(s.drop_last());
        if prev.contains(s.last()) {
            prev
        } else {
            ins_str(prev, s.last())
        }
    }
}

/// A set as std's `Debug` writes it: `{"a", "b"}`.
pub open spec fn set_debug(s: Seq<Seq<char>>) -> Seq<char> {
    "{"@ + join_sep(s.map_values(|x: Seq<char>| spec_debug_str(x)), ", "@) + "}"@
}

pub open spec fn pair_lt(a: (Seq<char>, Seq<char>), b: (Seq<char>, Seq<char>)) -> bool {
    str_lt(a.0, b.0) || (a.0 == b.0 && str_lt(a.1, b.1))
}

pub open spec fn ins_pair(s: Seq<(Seq<char>, Seq<char>)>, x: (Seq<char>, Seq<char>)) -> Seq<(Seq<char>, Seq<char>)>
    decreases s.len(),
{
    if s.len() == 0 {
        seq![x]
    } else if pair_lt(x, s[0]) {
        seq![x] + s
    } else {
        seq![s[0]] + ins_pair(s.drop_first(), x)
    }
}

/// The findings in ascending (rule, message) order.
pub open spec fn sort_pairs(s: Seq<(Seq<char>, Seq<char>)>) -> Seq<(Seq<char>, Seq<char>)>
    decreases s.len(),
{
    if s.len() == 0 {
        seq![]
    } else {
        ins_pair(sort_pairs(s.drop_last()), s.last())
    }
}

proof fn lemma_ins_str_at(s: Seq<Seq<char>>, x: Seq<char>, p: int)
    requires
        0 <= p <= s.len(),
        forall|j: int| 0 <= j < p ==> !str_lt(x, #[trigger] s[j]),
        p < s.len() ==> str_lt(x, s[p]),
    ensures
        ins_str(s, x) == s.take(p) + seq![x] + s.skip(p),
    decreases s.len(),
{
    if s.len() == 0 {
        assert(s.take(p) + seq![x] + s.skip(p) =~= seq![x]);
    } else if p == 0 {
        assert(s.take(0) + seq![x] + s.skip(0) =~= seq![x] + s);
    } else {
        let t = s.drop_first();
        assert forall|j: int| 0 <= j < p - 1 implies !str_lt(x, #[trigger] t[j]) by {
            assert(t[j] == s[j + 1]);
        }
        lemma_ins_str_at(t, x, p - 1);
        assert(s.take(p) + seq![x] + s.skip(p) =~= seq![s[0]] + (t.take(p - 1) + seq![x] + t.skip(p - 1)));
    }
}

proof fn lemma_ins_pair_at(s: Seq<(Seq<char>, Seq<char>)>, x: (Seq<char>, Seq<char>), p: int)
    requires
        0 <= p <= s.len(),
        forall|j: int| 0 <= j < p ==> !pair_lt(x, #[trigger] s[j]),
        p < s.len() ==> pair_lt(x, s[p]),
    ensures
        ins_pair(s, x) == s.take(p) + seq![x] + s.skip(p),
    decreases s.len(),
{
    if s.len() == 0 {
        assert(s.take(p) + seq![x] + s.skip(p) =~= seq![x]);
    } else if p == 0 {
        assert(s.take(0) + seq![x] + s.skip(0) =~= seq![x] + s);
    } else {
        let t = s.drop_first();
        assert forall|j: int| 0 <= j < p - 1 implies !pair_lt(x, #[trigger] t[j]) by {
            assert(t[j] == s[j + 1]);
        }
        lemma_ins_pair_at(t, x, p - 1);
        assert(s.take(p) + seq![x] + s.skip(p) =~= seq![s[0]] + (t.take(p - 1) + seq![x] + t.skip(p - 1)));
    }
}

fn insert_str(v: &mut Vec<String>, x: String)
    ensures
        strs_view(final(v)@) == ins_str(strs_view(old(v)@), x@),
{
    let ghost sv = strs_view(v@);
    let mut p: usize = 0;
    while p < v.len()
        invariant
            p <= v@.len(),
            sv == strs_view(v@),
            forall|j: int| 0 <= j < p ==> !str_lt(x@, #[trigger] sv[j]),
        ensures
            p <= v@.len(),
            forall|j: int| 0 <= j < p ==> !str_lt(x@, #[trigger] sv[j]),
            p < v@.len() ==> str_lt(x@, sv[p as int]),
        decreases v@.len() - p,
    {
        if str_lt_exec(x.as_str(), v[p].as_str()) {
            break;
        }
        p += 1;
    }
    proof {
        lemma_ins_str_at(sv, x@, p as int);
    }
    let ghost xv = x@;
    v.insert(p, x);
    assert(strs_view(v@) =~= sv.take(p as int) + seq![xv] + sv.skip(p as int));
}

fn contains_str(v: &Vec<String>, x: &str) -> (r: bool)
    ensures
        r == strs_view(v@).contains(x@),
{
    let ghost sv = strs_view(v@);
    let mut i: usize = 0;
    while i < v.len()
        invariant
            i <= v@.len(),
            sv == strs_view(v@),
            forall|j: int| 0 <= j < i ==> sv[j] != x@,
        decreases v@.len() - i,
    {
        if str_eq(v[i].as_str(), x) {
            assert(sv[i as int] == x@);
            return true;
        }
        i += 1;
    }
    false
}

pub fn id_set_exec(ids: &Vec<String>) -> (r: Vec<String>)
    ensures
        strs_view(r@) == id_set(strs_view(ids@)),
{
    let ghost iv = strs_view(ids@);
    let mut out: Vec<String> = Vec::new();
    let mut i: usize = 0;
    while i < ids.len()
        invariant
            i <= ids@.len(),
            iv == strs_view(ids@),
            strs_view(out@) == id_set(iv.take(i as int)),
        decreases ids@.len() - i,
    {
        assert(iv.take(i + 1).drop_last() =~= iv.take(i as int));
        assert(iv.take(i + 1).last() == ids@[i as int]@);
        if !contains_str(&out, ids[i].as_str()) {
            let c = ids[i].clone();
            insert_str(&mut out, c);
        }
        i += 1;
    }
    assert(iv.take(i as int) =~= iv);
    out
}

pub fn seqs_equal(a: &Vec<String>, b: &Vec<String>) -> (r: bool)
    ensures
        r == (strs_view(a@) == strs_view(b@)),
{
    if a.len() != b.len() {
        assert(strs_view(a@).len() != strs_view(b@).len());
        return false;
    }
    let mut i: usize = 0;
    while i < a.len()
        invariant
            i <= a@.len(),
            a@.len() == b@.len(),
            forall|j: int| 0 <= j < i ==> a@[j]@ == b@[j]@,
        decreases a@.len() - i,
    {
        if !str_eq(a[i].as_str(), b[i].as_str()) {
            assert(strs_view(a@)[i as int] != strs_view(b@)[i as int]);
            return false;
        }
        i += 1;
    }
    assert(strs_view(a@) =~= strs_view(b@));
    true
}

fn push_set_debug(out: &mut String, s: &Vec<String>)
    ensures
        final(out)@ == old(out)@ + set_debug(strs_view(s@)),
{
    let ghost want = strs_view(s@).map_values(|x: Seq<char>| spec_debug_str(x));
    let mut ds: Vec<String> = Vec::new();
    let mut i: usize = 0;
    while i < s.len()
        invariant
            i <= s@.len(),
            want == strs_view(s@).map_values(|x: Seq<char>| spec_debug_str(x)),
            strs_view(ds@) == want.take(i as int),
        decreases s@.len() - i,
    {
        let d = debug_str(s[i].as_str());
        proof {
            lemma_strs_push(ds@, d);
        }
        ds.push(d);
        assert(want.take(i + 1) =~= want.take(i as int).push(d@));
        i += 1;
    }
    assert(want.take(i as int) =~= want);
    push_lit(out, "{");
    push_joined_sep(out, &ds, ", ");
    push_lit(out, "}");
}

fn pair_lt_exec(a: &(String, String), b: &(String, String)) -> (r: bool)
    ensures
        r == pair_lt((a.0@, a.1@), (b.0@, b.1@)),
{
    str_lt_exec(a.0.as_str(), b.0.as_str()) || (str_eq(a.0.as_str(), b.0.as_str()) && str_lt_exec(a.1.as_str(), b.1.as_str()))
}

fn sort_findings(v: Vec<(String, String)>) -> (r: Vec<(String, String)>)
    ensures
        kv_view(r@) == sort_pairs(kv_view(v@)),
{
    let ghost kv = kv_view(v@);
    let mut out: Vec<(String, String)> = Vec::new();
    let mut i: usize = 0;
    while i < v.len()
        invariant
            i <= v@.len(),
            kv == kv_view(v@),
            kv_view(out@) == sort_pairs(kv.take(i as int)),
        decreases v@.len() - i,
    {
        assert(kv.take(i + 1).drop_last() =~= kv.take(i as int));
        assert(kv.take(i + 1).last() == kv[i as int]);
        let x = (v[i].0.clone(), v[i].1.clone());
        let ghost ov = kv_view(out@);
        let mut p: usize = 0;
        while p < out.len()
            invariant
                p <= out@.len(),
                ov == kv_view(out@),
                x.0@ == kv[i as int].0,
                x.1@ == kv[i as int].1,
                i < kv.len(),
                forall|j: int| 0 <= j < p ==> !pair_lt(kv[i as int], #[trigger] ov[j]),
            ensures
                p <= out@.len(),
                forall|j: int| 0 <= j < p ==> !pair_lt(kv[i as int], #[trigger] ov[j]),
                p < out@.len() ==> pair_lt(kv[i as int], ov[p as int]),
            decreases out@.len() - p,
        {
            if pair_lt_exec(&x, &out[p]) {
                break;
            }
            p += 1;
        }
        proof {
            lemma_ins_pair_at(ov, kv[i as int], p as int);
        }
        out.insert(p, x);
        assert(kv_view(out@) =~= ov.take(p as int) + seq![kv[i as int]] + ov.skip(p as int));
        i += 1;
    }
    assert(kv.take(i as int) =~= kv);
    out
}


// ----------------------------------------------------------------------------------------------
// The comparison
// ----------------------------------------------------------------------------------------------

pub type Pair = (Seq<char>, Seq<char>);

/// Expected fields missing from, or different in, the actual side (expected order).
pub open spec fn field_findings(actual: Seq<Pair>, expected: Seq<Pair>, n: nat) -> Seq<Pair>
    decreases n,
{
    if n == 0 || n > expected.len() {
        seq![]
    } else {
        let prev = field_findings(actual, expected, (n - 1) as nat);
        let k = expected[n - 1].0;
        let ev = expected[n - 1].1;
        match last_val(actual, k) {
            None => prev.push(("KOBOLD-DIFF-MISSING-FIELD"@, "field "@ + spec_debug_str(k) + " present in expected, absent in actual"@)),
            Some(av) => if av != ev {
                prev.push(
                    (
                        "KOBOLD-DIFF-FIELD-MISMATCH"@,
                        "field "@ + spec_debug_str(k) + ": actual "@ + spec_debug_str(av) + " != expected "@ + spec_debug_str(ev),
                    ),
                )
            } else {
                prev
            },
        }
    }
}

/// Entries of `src` whose key `other` lacks, each reported as `rule` with `pre KEY post`.
pub open spec fn extra_findings(src: Seq<Pair>, other: Seq<Pair>, rule: Seq<char>, pre: Seq<char>, post: Seq<char>, n: nat) -> Seq<Pair>
    decreases n,
{
    if n == 0 || n > src.len() {
        seq![]
    } else {
        let prev = extra_findings(src, other, rule, pre, post, (n - 1) as nat);
        if last_val(other, src[n - 1].0) is None {
            prev.push((rule, pre + spec_debug_str(src[n - 1].0) + post))
        } else {
            prev
        }
    }
}

/// Expected control totals the actual side does not carry with the same value.
pub open spec fn total_findings(actual: Seq<Pair>, expected: Seq<Pair>, n: nat) -> Seq<Pair>
    decreases n,
{
    if n == 0 || n > expected.len() {
        seq![]
    } else {
        let prev = total_findings(actual, expected, (n - 1) as nat);
        let k = expected[n - 1].0;
        let ev = expected[n - 1].1;
        if last_val(actual, k) != Some(ev) {
            prev.push(
                (
                    "KOBOLD-DIFF-CONTROL-TOTAL-MISMATCH"@,
                    "control total "@ + spec_debug_str(k) + ": actual "@ + opt_debug(last_val(actual, k)) + " != expected "@
                        + spec_debug_str(ev),
                ),
            )
        } else {
            prev
        }
    }
}

/// The findings of every allowed dimension, before sorting.
pub open spec fn raw_findings(a: InputView, e: InputView, t: TargetView) -> Seq<Pair> {
    (if t.allowed.contains("field_values"@) {
        field_findings(a.fields, e.fields, e.fields.len()) + extra_findings(
            a.fields,
            e.fields,
            "KOBOLD-DIFF-EXTRA-FIELD"@,
            "field "@,
            " present in actual, not in expected"@,
            a.fields.len(),
        )
    } else {
        seq![]
    }) + (if t.allowed.contains("finding_ids"@) && id_set(a.finding_ids) != id_set(e.finding_ids) {
        seq![
            (
                "KOBOLD-DIFF-FINDING-SET-MISMATCH"@,
                "finding-id set differs: actual "@ + set_debug(id_set(a.finding_ids)) + " != expected "@ + set_debug(
                    id_set(e.finding_ids),
                ),
            ),
        ]
    } else {
        seq![]
    }) + (if t.allowed.contains("control_totals"@) {
        total_findings(a.control_totals, e.control_totals, e.control_totals.len()) + extra_findings(
            a.control_totals,
            e.control_totals,
            "KOBOLD-DIFF-CONTROL-TOTAL-MISMATCH"@,
            "control total "@,
            " present in actual, not in expected"@,
            a.control_totals.len(),
        )
    } else {
        seq![]
    }) + (if t.allowed.contains("audit_hashes"@) && a.output_hash != e.output_hash {
        seq![
            (
                "KOBOLD-DIFF-HASH-MISMATCH"@,
                "audit output hash differs: actual "@ + opt_debug(a.output_hash) + " != expected "@ + opt_debug(e.output_hash),
            ),
        ]
    } else {
        seq![]
    })
}

/// The refusal note a match against a target that is not an admitted oracle carries.
pub open spec fn not_oracle_note(s: OracleStatus) -> Pair {
    (
        "KOBOLD-DIFF-TARGET-NOT-ORACLE"@,
        "matched the declared target (oracle_status="@ + oracle_text(s)
            + "); this proves equality to the target, NOT correctness/oracle authority"@,
    )
}

/// The findings of a comparison, with the refusal note when nothing else was found.
pub open spec fn noted_findings(a: InputView, e: InputView, t: TargetView) -> Seq<Pair> {
    let raw = raw_findings(a, e, t);
    if raw.len() == 0 && t.oracle_status != OracleStatus::AdmittedOracle {
        raw.push(not_oracle_note(t.oracle_status))
    } else {
        raw
    }
}

/// The sorted findings of a comparison.
pub open spec fn diff_findings(a: InputView, e: InputView, t: TargetView) -> Seq<Pair> {
    sort_pairs(noted_findings(a, e, t))
}


/// No two entries share a key.
pub open spec fn keys_distinct(s: Seq<Pair>) -> bool {
    forall|i: int, j: int| 0 <= i < j < s.len() ==> #[trigger] s[i].0 != #[trigger] s[j].0
}

proof fn lemma_last_val_some(s: Seq<Pair>, i: int)
    requires
        0 <= i < s.len(),
    ensures
        last_val(s, s[i].0) is Some,
    decreases s.len(),
{
    if i < s.len() - 1 && s.last().0 != s[i].0 {
        assert(s.drop_last()[i] == s[i]);
        lemma_last_val_some(s.drop_last(), i);
    }
}

proof fn lemma_last_val_own(s: Seq<Pair>, i: int)
    requires
        keys_distinct(s),
        0 <= i < s.len(),
    ensures
        last_val(s, s[i].0) == Some(s[i].1),
    decreases s.len(),
{
    if i < s.len() - 1 {
        assert(s[i].0 != s[s.len() - 1].0);
        let d = s.drop_last();
        assert(d[i] == s[i]);
        assert forall|a: int, b: int| 0 <= a < b < d.len() implies #[trigger] d[a].0 != #[trigger] d[b].0 by {
            assert(d[a] == s[a] && d[b] == s[b]);
        }
        lemma_last_val_own(d, i);
    }
}

proof fn lemma_field_findings_self(s: Seq<Pair>, n: nat)
    requires
        keys_distinct(s),
    ensures
        field_findings(s, s, n).len() == 0,
    decreases n,
{
    if n > 0 && n <= s.len() {
        lemma_field_findings_self(s, (n - 1) as nat);
        lemma_last_val_own(s, n - 1);
    }
}

proof fn lemma_total_findings_self(s: Seq<Pair>, n: nat)
    requires
        keys_distinct(s),
    ensures
        total_findings(s, s, n).len() == 0,
    decreases n,
{
    if n > 0 && n <= s.len() {
        lemma_total_findings_self(s, (n - 1) as nat);
        lemma_last_val_own(s, n - 1);
    }
}

proof fn lemma_extra_findings_self(s: Seq<Pair>, rule: Seq<char>, pre: Seq<char>, post: Seq<char>, n: nat)
    ensures
        extra_findings(s, s, rule, pre, post, n).len() == 0,
    decreases n,
{
    if n > 0 && n <= s.len() {
        lemma_extra_findings_self(s, rule, pre, post, (n - 1) as nat);
        lemma_last_val_some(s, n - 1);
    }
}

/// An artifact compared with itself matches, whatever the target allows: no finding of any
/// dimension, and the only entry is the note that the target is not an admitted oracle (none
/// for an admitted one). Keys must be unique within the fields and within the control totals: a
/// repeated key is looked up by its last value, so an earlier entry of it reads as a mismatch.
pub proof fn lemma_self_diff_matches(a: InputView, t: TargetView)
    requires
        keys_distinct(a.fields),
        keys_distinct(a.control_totals),
    ensures
        diff_spec(a, a, t).matched,
        diff_spec(a, a, t).findings == (if t.oracle_status != OracleStatus::AdmittedOracle {
            seq![not_oracle_note(t.oracle_status)]
        } else {
            Seq::<Pair>::empty()
        }),
{
    lemma_field_findings_self(a.fields, a.fields.len());
    lemma_total_findings_self(a.control_totals, a.control_totals.len());
    lemma_extra_findings_self(
        a.fields,
        "KOBOLD-DIFF-EXTRA-FIELD"@,
        "field "@,
        " present in actual, not in expected"@,
        a.fields.len(),
    );
    lemma_extra_findings_self(
        a.control_totals,
        "KOBOLD-DIFF-CONTROL-TOTAL-MISMATCH"@,
        "control total "@,
        " present in actual, not in expected"@,
        a.control_totals.len(),
    );
    let raw = raw_findings(a, a, t);
    assert(raw.len() == 0);
    if t.oracle_status != OracleStatus::AdmittedOracle {
        let one = raw.push(not_oracle_note(t.oracle_status));
        assert(one.drop_last() =~= Seq::<Pair>::empty());
        assert(sort_pairs(one.drop_last()) =~= Seq::<Pair>::empty());
        assert(one =~= seq![not_oracle_note(t.oracle_status)]);
    } else {
        assert(raw =~= Seq::<Pair>::empty());
    }
}


// ----------------------------------------------------------------------------------------------
// Order of the findings
// ----------------------------------------------------------------------------------------------

/// No entry precedes an earlier one.
pub open spec fn pairs_sorted(s: Seq<Pair>) -> bool {
    forall|i: int, j: int| 0 <= i < j < s.len() ==> !pair_lt(#[trigger] s[j], #[trigger] s[i])
}

proof fn lemma_pair_lt_irrefl(a: Pair)
    ensures
        !pair_lt(a, a),
{
    lemma_str_lt_irrefl(a.0);
    lemma_str_lt_irrefl(a.1);
}

proof fn lemma_pair_lt_trans(a: Pair, b: Pair, c: Pair)
    requires
        pair_lt(a, b),
        pair_lt(b, c),
    ensures
        pair_lt(a, c),
{
    if str_lt(a.0, b.0) && str_lt(b.0, c.0) {
        lemma_str_lt_trans(a.0, b.0, c.0);
    } else if a.0 == b.0 && b.0 == c.0 {
        lemma_str_lt_trans(a.1, b.1, c.1);
    }
}

/// Where `ins_pair` puts `x`: after every entry it does not precede, before the first it does.
proof fn lemma_ins_pair_pos(s: Seq<Pair>, x: Pair) -> (k: int)
    ensures
        0 <= k <= s.len(),
        ins_pair(s, x) == s.insert(k, x),
        forall|j: int| 0 <= j < k ==> !pair_lt(x, #[trigger] s[j]),
        k < s.len() ==> pair_lt(x, s[k]),
    decreases s.len(),
{
    if s.len() == 0 {
        assert(seq![x] =~= s.insert(0, x));
        0
    } else if pair_lt(x, s[0]) {
        assert(seq![x] + s =~= s.insert(0, x));
        0
    } else {
        let t = s.drop_first();
        let k1 = lemma_ins_pair_pos(t, x);
        assert(seq![s[0]] + t.insert(k1, x) =~= s.insert(k1 + 1, x));
        assert forall|j: int| 0 <= j < k1 + 1 implies !pair_lt(x, #[trigger] s[j]) by {
            if j > 0 {
                assert(s[j] == t[j - 1]);
            }
        }
        if k1 < t.len() {
            assert(s[k1 + 1] == t[k1]);
        }
        k1 + 1
    }
}

proof fn lemma_insert_sorted(s: Seq<Pair>, x: Pair, k: int)
    requires
        pairs_sorted(s),
        0 <= k <= s.len(),
        forall|j: int| 0 <= j < k ==> !pair_lt(x, #[trigger] s[j]),
        k < s.len() ==> pair_lt(x, s[k]),
    ensures
        pairs_sorted(s.insert(k, x)),
{
    let r = s.insert(k, x);
    assert forall|i: int, j: int| 0 <= i < j < r.len() implies !pair_lt(#[trigger] r[j], #[trigger] r[i]) by {
        if j < k {
            assert(r[i] == s[i] && r[j] == s[j]);
        } else if j == k {
            assert(r[i] == s[i] && r[j] == x);
        } else if i > k {
            assert(r[i] == s[i - 1] && r[j] == s[j - 1]);
        } else if i == k {
            assert(r[i] == x && r[j] == s[j - 1]);
            if pair_lt(s[j - 1], x) {
                lemma_pair_lt_trans(s[j - 1], x, s[k]);
                if j - 1 == k {
                    lemma_pair_lt_irrefl(s[k]);
                }
            }
        } else {
            assert(r[i] == s[i] && r[j] == s[j - 1]);
        }
    }
}

proof fn lemma_sort_pairs(s: Seq<Pair>)
    ensures
        pairs_sorted(sort_pairs(s)),
        sort_pairs(s).to_multiset() == s.to_multiset(),
    decreases s.len(),
{
    broadcast use vstd::seq_lib::group_to_multiset_ensures;

    if s.len() > 0 {
        let d = s.drop_last();
        lemma_sort_pairs(d);
        let r = sort_pairs(d);
        let k = lemma_ins_pair_pos(r, s.last());
        lemma_insert_sorted(r, s.last(), k);
        vstd::seq_lib::to_multiset_insert(r, k, s.last());
        assert(s =~= d.push(s.last()));
    }
}

/// The findings of a comparison come out in ascending (rule, message) order, and they are
/// exactly the findings of the allowed dimensions (with the refusal note), each as often as it
/// was found: sorting drops, adds and merges nothing.
pub proof fn lemma_findings_sorted(a: InputView, e: InputView, t: TargetView)
    ensures
        pairs_sorted(diff_spec(a, e, t).findings),
        diff_spec(a, e, t).findings.to_multiset() == noted_findings(a, e, t).to_multiset(),
{
    lemma_sort_pairs(noted_findings(a, e, t));
}


// ----------------------------------------------------------------------------------------------
// Finding-id sets
// ----------------------------------------------------------------------------------------------

/// Strictly ascending: every id precedes every later one.
pub open spec fn strs_sorted(s: Seq<Seq<char>>) -> bool {
    forall|i: int, j: int| 0 <= i < j < s.len() ==> str_lt(#[trigger] s[i], #[trigger] s[j])
}

proof fn lemma_str_lt_total(a: Seq<char>, b: Seq<char>)
    requires
        a != b,
    ensures
        str_lt(a, b) || str_lt(b, a),
    decreases a.len(),
{
    if a.len() > 0 && b.len() > 0 && a[0] == b[0] {
        if a.drop_first() == b.drop_first() {
            assert(a =~= seq![a[0]] + a.drop_first());
            assert(b =~= seq![b[0]] + b.drop_first());
        }
        lemma_str_lt_total(a.drop_first(), b.drop_first());
    } else if a.len() == 0 && b.len() == 0 {
        assert(a =~= b);
    } else if a.len() > 0 && b.len() > 0 {
        let (c, d) = (a[0], b[0]);
        assert((c as int) != (d as int));
    }
}

proof fn lemma_ins_str_pos(s: Seq<Seq<char>>, x: Seq<char>) -> (p: int)
    ensures
        0 <= p <= s.len(),
        ins_str(s, x) == s.insert(p, x),
        forall|j: int| 0 <= j < p ==> !str_lt(x, #[trigger] s[j]),
        p < s.len() ==> str_lt(x, s[p]),
    decreases s.len(),
{
    if s.len() == 0 {
        assert(seq![x] =~= s.insert(0, x));
        0
    } else if str_lt(x, s[0]) {
        assert(seq![x] + s =~= s.insert(0, x));
        0
    } else {
        let t = s.drop_first();
        let k1 = lemma_ins_str_pos(t, x);
        assert(seq![s[0]] + t.insert(k1, x) =~= s.insert(k1 + 1, x));
        assert forall|j: int| 0 <= j < k1 + 1 implies !str_lt(x, #[trigger] s[j]) by {
            if j > 0 {
                assert(s[j] == t[j - 1]);
            }
        }
        if k1 < t.len() {
            assert(s[k1 + 1] == t[k1]);
        }
        k1 + 1
    }
}

proof fn lemma_id_set(s: Seq<Seq<char>>)
    ensures
        strs_sorted(id_set(s)),
        forall|x: Seq<char>| id_set(s).contains(x) <==> s.contains(x),
    decreases s.len(),
{
    if s.len() > 0 {
        let d = s.drop_last();
        let x = s.last();
        lemma_id_set(d);
        let prev = id_set(d);
        assert forall|y: Seq<char>| s.contains(y) <==> (d.contains(y) || y == x) by {
            if s.contains(y) {
                let i = choose|i: int| 0 <= i < s.len() && s[i] == y;
                if i < s.len() - 1 {
                    assert(d[i] == y);
                }
            }
            if d.contains(y) {
                let i = choose|i: int| 0 <= i < d.len() && d[i] == y;
                assert(s[i] == y);
            }
            if y == x {
                assert(s[s.len() - 1] == y);
            }
        }
        if !prev.contains(x) {
            let p = lemma_ins_str_pos(prev, x);
            let r = prev.insert(p, x);
            assert forall|i: int, j: int| 0 <= i < j < r.len() implies str_lt(#[trigger] r[i], #[trigger] r[j]) by {
                if j < p {
                    assert(r[i] == prev[i] && r[j] == prev[j]);
                } else if j == p {
                    assert(r[i] == prev[i] && r[j] == x);
                    assert(prev.contains(prev[i]));
                    lemma_str_lt_total(prev[i], x);
                } else if i > p {
                    assert(r[i] == prev[i - 1] && r[j] == prev[j - 1]);
                } else if i == p {
                    assert(r[i] == x && r[j] == prev[j - 1]);
                    if j - 1 > p {
                        lemma_str_lt_trans(x, prev[p], prev[j - 1]);
                    }
                } else {
                    assert(r[i] == prev[i] && r[j] == prev[j - 1]);
                }
            }
            assert forall|y: Seq<char>| r.contains(y) <==> (prev.contains(y) || y == x) by {
                if r.contains(y) {
                    let i = choose|i: int| 0 <= i < r.len() && r[i] == y;
                    if i < p {
                        assert(prev[i] == y);
                    } else if i > p {
                        assert(prev[i - 1] == y);
                    }
                }
                if prev.contains(y) {
                    let i = choose|i: int| 0 <= i < prev.len() && prev[i] == y;
                    if i < p {
                        assert(r[i] == y);
                    } else {
                        assert(r[i + 1] == y);
                    }
                }
                if y == x {
                    assert(r[p] == y);
                }
            }
        }
    }
}

proof fn lemma_strs_sorted_unique(a: Seq<Seq<char>>, b: Seq<Seq<char>>)
    requires
        strs_sorted(a),
        strs_sorted(b),
        forall|x: Seq<char>| a.contains(x) <==> b.contains(x),
    ensures
        a == b,
    decreases a.len(),
{
    if a.len() == 0 {
        if b.len() > 0 {
            assert(b.contains(b[0]));
        }
        assert(a =~= b);
    } else {
        assert(a.contains(a[0]));
        assert(b.contains(b[0]));
        let ja = choose|j: int| 0 <= j < a.len() && a[j] == b[0];
        let jb = choose|j: int| 0 <= j < b.len() && b[j] == a[0];
        if a[0] != b[0] {
            assert(str_lt(a[0], a[ja]));
            assert(str_lt(b[0], b[jb]));
            lemma_str_lt_trans(a[0], b[0], a[0]);
            lemma_str_lt_irrefl(a[0]);
        }
        let a1 = a.drop_first();
        let b1 = b.drop_first();
        assert forall|x: Seq<char>| a1.contains(x) <==> b1.contains(x) by {
            if a1.contains(x) {
                let i = choose|i: int| 0 <= i < a1.len() && a1[i] == x;
                assert(a[i + 1] == x);
                assert(str_lt(a[0], a[i + 1]));
                assert(a.contains(x));
                let k = choose|k: int| 0 <= k < b.len() && b[k] == x;
                if k == 0 {
                    lemma_str_lt_irrefl(x);
                }
                assert(b1[k - 1] == x);
            }
            if b1.contains(x) {
                let i = choose|i: int| 0 <= i < b1.len() && b1[i] == x;
                assert(b[i + 1] == x);
                assert(str_lt(b[0], b[i + 1]));
                assert(b.contains(x));
                let k = choose|k: int| 0 <= k < a.len() && a[k] == x;
                if k == 0 {
                    lemma_str_lt_irrefl(x);
                }
                assert(a1[k - 1] == x);
            }
        }
        assert forall|i: int, j: int| 0 <= i < j < a1.len() implies str_lt(#[trigger] a1[i], #[trigger] a1[j]) by {
            assert(a1[i] == a[i + 1] && a1[j] == a[j + 1]);
        }
        assert forall|i: int, j: int| 0 <= i < j < b1.len() implies str_lt(#[trigger] b1[i], #[trigger] b1[j]) by {
            assert(b1[i] == b[i + 1] && b1[j] == b[j + 1]);
        }
        lemma_strs_sorted_unique(a1, b1);
        assert(a =~= seq![a[0]] + a1);
        assert(b =~= seq![b[0]] + b1);
    }
}

/// The finding-id comparison is a set comparison: the ids of a side are taken without repeats and
/// in ascending order, and two sides give the same ids exactly when they hold the same ids, in any
/// order and however often each occurs.
pub proof fn lemma_id_sets_compare_as_sets(a: Seq<Seq<char>>, b: Seq<Seq<char>>)
    ensures
        strs_sorted(id_set(a)),
        forall|x: Seq<char>| id_set(a).contains(x) <==> a.contains(x),
        (id_set(a) == id_set(b)) <==> (forall|x: Seq<char>| a.contains(x) <==> b.contains(x)),
{
    lemma_id_set(a);
    lemma_id_set(b);
    if forall|x: Seq<char>| a.contains(x) <==> b.contains(x) {
        assert forall|x: Seq<char>| id_set(a).contains(x) <==> id_set(b).contains(x) by {
            assert(a.contains(x) <==> b.contains(x));
        }
        lemma_strs_sorted_unique(id_set(a), id_set(b));
    }
    if id_set(a) == id_set(b) {
        assert forall|x: Seq<char>| a.contains(x) <==> b.contains(x) by {
            assert(id_set(a).contains(x) <==> a.contains(x));
            assert(id_set(b).contains(x) <==> b.contains(x));
        }
    }
}


// ----------------------------------------------------------------------------------------------
// The refusal note
// ----------------------------------------------------------------------------------------------

pub open spec fn no_rule(fs: Seq<Pair>, r: Seq<char>) -> bool {
    forall|k: int| 0 <= k < fs.len() ==> #[trigger] fs[k].0 != r
}

proof fn lemma_no_rule_concat(a: Seq<Pair>, b: Seq<Pair>, r: Seq<char>)
    requires
        no_rule(a, r),
        no_rule(b, r),
    ensures
        no_rule(a + b, r),
{
    assert forall|k: int| 0 <= k < (a + b).len() implies #[trigger] (a + b)[k].0 != r by {
        if k < a.len() {
            assert((a + b)[k] == a[k]);
        } else {
            assert((a + b)[k] == b[k - a.len()]);
        }
    }
}

proof fn lemma_field_findings_rules(actual: Seq<Pair>, expected: Seq<Pair>, n: nat)
    ensures
        forall|k: int| 0 <= k < field_findings(actual, expected, n).len() ==> #[trigger] field_findings(actual, expected, n)[k].0
            == "KOBOLD-DIFF-MISSING-FIELD"@ || field_findings(actual, expected, n)[k].0 == "KOBOLD-DIFF-FIELD-MISMATCH"@,
    decreases n,
{
    if n > 0 && n <= expected.len() {
        lemma_field_findings_rules(actual, expected, (n - 1) as nat);
        let prev = field_findings(actual, expected, (n - 1) as nat);
        let cur = field_findings(actual, expected, n);
        assert forall|k: int| 0 <= k < cur.len() implies #[trigger] cur[k].0 == "KOBOLD-DIFF-MISSING-FIELD"@ || cur[k].0
            == "KOBOLD-DIFF-FIELD-MISMATCH"@ by {
            if k < prev.len() {
                assert(cur[k] == prev[k]);
            }
        }
    }
}

proof fn lemma_extra_findings_rules(src: Seq<Pair>, other: Seq<Pair>, rule: Seq<char>, pre: Seq<char>, post: Seq<char>, n: nat)
    ensures
        forall|k: int| 0 <= k < extra_findings(src, other, rule, pre, post, n).len() ==> #[trigger] extra_findings(
            src,
            other,
            rule,
            pre,
            post,
            n,
        )[k].0 == rule,
    decreases n,
{
    if n > 0 && n <= src.len() {
        lemma_extra_findings_rules(src, other, rule, pre, post, (n - 1) as nat);
        let prev = extra_findings(src, other, rule, pre, post, (n - 1) as nat);
        let cur = extra_findings(src, other, rule, pre, post, n);
        assert forall|k: int| 0 <= k < cur.len() implies #[trigger] cur[k].0 == rule by {
            if k < prev.len() {
                assert(cur[k] == prev[k]);
            }
        }
    }
}

proof fn lemma_total_findings_rules(actual: Seq<Pair>, expected: Seq<Pair>, n: nat)
    ensures
        forall|k: int| 0 <= k < total_findings(actual, expected, n).len() ==> #[trigger] total_findings(actual, expected, n)[k].0
            == "KOBOLD-DIFF-CONTROL-TOTAL-MISMATCH"@,
    decreases n,
{
    if n > 0 && n <= expected.len() {
        lemma_total_findings_rules(actual, expected, (n - 1) as nat);
        let prev = total_findings(actual, expected, (n - 1) as nat);
        let cur = total_findings(actual, expected, n);
        assert forall|k: int| 0 <= k < cur.len() implies #[trigger] cur[k].0 == "KOBOLD-DIFF-CONTROL-TOTAL-MISMATCH"@ by {
            if k < prev.len() {
                assert(cur[k] == prev[k]);
            }
        }
    }
}

proof fn lemma_raw_has_no_note(a: InputView, e: InputView, t: TargetView)
    ensures
        no_rule(raw_findings(a, e, t), "KOBOLD-DIFF-TARGET-NOT-ORACLE"@),
{
    reveal_strlit("KOBOLD-DIFF-TARGET-NOT-ORACLE");
    reveal_strlit("KOBOLD-DIFF-MISSING-FIELD");
    reveal_strlit("KOBOLD-DIFF-FIELD-MISMATCH");
    reveal_strlit("KOBOLD-DIFF-EXTRA-FIELD");
    reveal_strlit("KOBOLD-DIFF-FINDING-SET-MISMATCH");
    reveal_strlit("KOBOLD-DIFF-CONTROL-TOTAL-MISMATCH");
    reveal_strlit("KOBOLD-DIFF-HASH-MISMATCH");
    let no = "KOBOLD-DIFF-TARGET-NOT-ORACLE"@;
    let ff = field_findings(a.fields, e.fields, e.fields.len());
    let xf = extra_findings(a.fields, e.fields, "KOBOLD-DIFF-EXTRA-FIELD"@, "field "@, " present in actual, not in expected"@, a.fields.len());
    let tf = total_findings(a.control_totals, e.control_totals, e.control_totals.len());
    let xt = extra_findings(
        a.control_totals,
        e.control_totals,
        "KOBOLD-DIFF-CONTROL-TOTAL-MISMATCH"@,
        "control total "@,
        " present in actual, not in expected"@,
        a.control_totals.len(),
    );
    lemma_field_findings_rules(a.fields, e.fields, e.fields.len());
    lemma_extra_findings_rules(a.fields, e.fields, "KOBOLD-DIFF-EXTRA-FIELD"@, "field "@, " present in actual, not in expected"@, a.fields.len());
    lemma_total_findings_rules(a.control_totals, e.control_totals, e.control_totals.len());
    lemma_extra_findings_rules(
        a.control_totals,
        e.control_totals,
        "KOBOLD-DIFF-CONTROL-TOTAL-MISMATCH"@,
        "control total "@,
        " present in actual, not in expected"@,
        a.control_totals.len(),
    );
    assert("KOBOLD-DIFF-MISSING-FIELD"@.len() != no.len());
    assert("KOBOLD-DIFF-FIELD-MISMATCH"@.len() != no.len());
    assert("KOBOLD-DIFF-EXTRA-FIELD"@.len() != no.len());
    assert("KOBOLD-DIFF-CONTROL-TOTAL-MISMATCH"@.len() != no.len());
    assert("KOBOLD-DIFF-FINDING-SET-MISMATCH"@.len() != no.len());
    assert("KOBOLD-DIFF-HASH-MISMATCH"@.len() != no.len());
    assert forall|k: int| 0 <= k < ff.len() implies #[trigger] ff[k].0 != no by {
        assert(ff[k].0 == "KOBOLD-DIFF-MISSING-FIELD"@ || ff[k].0 == "KOBOLD-DIFF-FIELD-MISMATCH"@);
    }
    assert forall|k: int| 0 <= k < xf.len() implies #[trigger] xf[k].0 != no by {
        assert(xf[k].0 == "KOBOLD-DIFF-EXTRA-FIELD"@);
    }
    assert(no_rule(ff, no));
    assert(no_rule(xf, no));
    assert(no_rule(tf, no));
    assert(no_rule(xt, no));
    lemma_no_rule_concat(ff, xf, no);
    lemma_no_rule_concat(tf, xt, no);
    let p1 = if t.allowed.contains("field_values"@) { ff + xf } else { Seq::<Pair>::empty() };
    let p2 = if t.allowed.contains("finding_ids"@) && id_set(a.finding_ids) != id_set(e.finding_ids) {
        seq![
            (
                "KOBOLD-DIFF-FINDING-SET-MISMATCH"@,
                "finding-id set differs: actual "@ + set_debug(id_set(a.finding_ids)) + " != expected "@ + set_debug(
                    id_set(e.finding_ids),
                ),
            ),
        ]
    } else {
        Seq::<Pair>::empty()
    };
    let p3 = if t.allowed.contains("control_totals"@) { tf + xt } else { Seq::<Pair>::empty() };
    let p4 = if t.allowed.contains("audit_hashes"@) && a.output_hash != e.output_hash {
        seq![
            (
                "KOBOLD-DIFF-HASH-MISMATCH"@,
                "audit output hash differs: actual "@ + opt_debug(a.output_hash) + " != expected "@ + opt_debug(e.output_hash),
            ),
        ]
    } else {
        Seq::<Pair>::empty()
    };
    assert(no_rule(p1, no));
    assert(no_rule(p2, no));
    assert(no_rule(p3, no));
    assert(no_rule(p4, no));
    lemma_no_rule_concat(p1, p2, no);
    lemma_no_rule_concat(p1 + p2, p3, no);
    lemma_no_rule_concat(p1 + p2 + p3, p4, no);
    assert(raw_findings(a, e, t) == p1 + p2 + p3 + p4);
}

/// A comparison matches exactly when no allowed dimension has a finding, and the refusal note
/// `KOBOLD-DIFF-TARGET-NOT-ORACLE` is among the findings exactly when it matched a target that is
/// not an admitted oracle.
pub proof fn lemma_not_oracle_note_exactly_on_match(a: InputView, e: InputView, t: TargetView)
    ensures
        diff_spec(a, e, t).matched <==> raw_findings(a, e, t).len() == 0,
        (exists|k: int|
            0 <= k < diff_spec(a, e, t).findings.len() && #[trigger] diff_spec(a, e, t).findings[k].0
                == "KOBOLD-DIFF-TARGET-NOT-ORACLE"@) <==> (diff_spec(a, e, t).matched && t.oracle_status
            != OracleStatus::AdmittedOracle),
{
    broadcast use vstd::seq_lib::group_to_multiset_ensures;

    reveal_strlit("KOBOLD-DIFF-TARGET-NOT-ORACLE");
    lemma_findings_sorted(a, e, t);
    lemma_raw_has_no_note(a, e, t);
    let fs = diff_spec(a, e, t).findings;
    let nf = noted_findings(a, e, t);
    let raw = raw_findings(a, e, t);
    if raw.len() == 0 && t.oracle_status != OracleStatus::AdmittedOracle {
        let note = not_oracle_note(t.oracle_status);
        assert(nf == raw.push(note));
        assert(nf.contains(note)) by {
            assert(nf[nf.len() - 1] == note);
        }
        assert(nf.to_multiset().count(note) > 0);
        assert(fs.to_multiset().count(note) > 0);
        assert(fs.contains(note));
        let k = choose|k: int| 0 <= k < fs.len() && fs[k] == note;
        assert(fs[k].0 == "KOBOLD-DIFF-TARGET-NOT-ORACLE"@);
    } else {
        assert(nf == raw);
        if exists|k: int| 0 <= k < fs.len() && #[trigger] fs[k].0 == "KOBOLD-DIFF-TARGET-NOT-ORACLE"@ {
            let k = choose|k: int| 0 <= k < fs.len() && #[trigger] fs[k].0 == "KOBOLD-DIFF-TARGET-NOT-ORACLE"@;
            assert(fs.contains(fs[k]));
            assert(fs.to_multiset().count(fs[k]) > 0);
            assert(raw.to_multiset().count(fs[k]) > 0);
            assert(raw.contains(fs[k]));
            let j = choose|j: int| 0 <= j < raw.len() && raw[j] == fs[k];
            assert(raw[j].0 != "KOBOLD-DIFF-TARGET-NOT-ORACLE"@);
        }
    }
}

pub const SARIF_HEAD: &'static str = "{\"version\":\"2.1.0\",\"$schema\":\"https://json.schemastore.org/sarif-2.1.0.json\",\"runs\":[{\"tool\":{\"driver\":{\"name\":\"kobold-diff\",\"rules\":[]}},\"results\":[";

pub const DIFF_NEGATIVES: &'static str = "],\"negative_capabilities\":[\"NEG.DIFF.MATCH_NOT_BUSINESS_TRUTH\",\"NEG.DIFF.EXPECTED_OUTPUT_NOT_ORACLE\",\"NEG.DIFF.SYSTEM_OF_RECORD_NOT_VALIDATED\",\"NEG.DIFF.NO_LEDGER_ACCEPTANCE\",\"NEG.DIFF.NO_SETTLEMENT_FINALITY\",\"NEG.DIFF.NO_CUSTOMER_APPROVAL\"]}\n";

pub open spec fn sarif_level(r: Seq<char>) -> Seq<char> {
    if r == "KOBOLD-DIFF-TARGET-NOT-ORACLE"@ {
        "note"@
    } else {
        "error"@
    }
}

pub open spec fn sarif_entry(f: Pair) -> Seq<char> {
    "{\"ruleId\":"@ + js(f.0) + ",\"level\":"@ + js(sarif_level(f.0)) + ",\"message\":{\"text\":"@ + js(f.1) + "}}"@
}

pub open spec fn sarif_spec(fs: Seq<Pair>) -> Seq<char> {
    SARIF_HEAD@ + join_comma(fs.map_values(|f: Pair| sarif_entry(f))) + "]}]}\n"@
}

pub open spec fn report_entry(f: Pair) -> Seq<char> {
    "{\"ruleId\":"@ + js(f.0) + ",\"message\":"@ + js(f.1) + "}"@
}

/// The report (or, under the casefile schema, the casefile) of a comparison.
pub open spec fn report_spec(schema: Seq<char>, t: TargetView, fs: Seq<Pair>, matched: bool) -> Seq<char> {
    "{\"schema\":\""@ + schema + "\",\"court\":\"KOBOLD.DIFF.1\",\"verdict\":"@ + js(
        if matched { "equal_to_declared_target"@ } else { "differs_from_declared_target"@ },
    ) + ",\"matched\":"@ + bool_text(matched) + ",\"target\":{\"schema\":\"kobold-diff-target-v1\",\"target_kind\":"@ + js(
        t.target_kind,
    ) + ",\"oracle_status\":"@ + js(oracle_text(t.oracle_status)) + ",\"source\":"@ + js(t.source)
        + ",\"allowed_comparisons\":["@ + join_comma(t.allowed.map_values(|c: Seq<char>| js(c)))
        + "]},\"oracle_authority_claimed\":"@ + bool_text(t.oracle_status == OracleStatus::AdmittedOracle)
        + ",\"truth_layers\":{\"equal_to_declared_target\":"@ + bool_text(matched)
        + ",\"business_truth\":false,\"ledger_truth\":false,\"settlement_truth\":false,\"customer_approval\":false},\"findings\":["@
        + join_comma(fs.map_values(|f: Pair| report_entry(f))) + DIFF_NEGATIVES@
}

pub struct DiffView {
    pub report_json: Seq<char>,
    pub sarif_json: Seq<char>,
    pub casefile_json: Seq<char>,
    pub findings: Seq<Pair>,
    pub matched: bool,
}

pub open spec fn diff_view(d: DiffReport) -> DiffView {
    DiffView {
        report_json: d.report_json@,
        sarif_json: d.sarif_json@,
        casefile_json: d.casefile_json@,
        findings: kv_view(d.findings@),
        matched: d.matched,
    }
}

/// What [`diff_artifacts`] returns.
pub open spec fn diff_spec(a: InputView, e: InputView, t: TargetView) -> DiffView {
    let matched = raw_findings(a, e, t).len() == 0;
    let fs = diff_findings(a, e, t);
    DiffView {
        report_json: report_spec("kobold-diff-report-v1"@, t, fs, matched),
        sarif_json: sarif_spec(fs),
        casefile_json: report_spec("kobold-diff-forensic-casefile-v1"@, t, fs, matched),
        findings: fs,
        matched: matched,
    }
}

fn push_pair(v: &mut Vec<(String, String)>, r: &str, m: String)
    ensures
        kv_view(final(v)@) == kv_view(old(v)@).push((r@, m@)),
{
    let ghost before = v@;
    v.push((String::from_str(r), m));
    assert(kv_view(v@) =~= kv_view(before).push((r@, m@)));
}

fn push_field_findings(out: &mut Vec<(String, String)>, actual: &Vec<(String, String)>, expected: &Vec<(String, String)>)
    ensures
        kv_view(final(out)@) == kv_view(old(out)@) + field_findings(kv_view(actual@), kv_view(expected@), expected@.len()),
{
    let ghost av = kv_view(actual@);
    let ghost ev = kv_view(expected@);
    let mut i: usize = 0;
    assert(kv_view(out@) =~= kv_view(old(out)@) + field_findings(av, ev, 0));
    while i < expected.len()
        invariant
            i <= expected@.len(),
            av == kv_view(actual@),
            ev == kv_view(expected@),
            kv_view(out@) == kv_view(old(out)@) + field_findings(av, ev, i as nat),
        decreases expected@.len() - i,
    {
        let k = expected[i].0.as_str();
        let evv = expected[i].1.as_str();
        assert(ev[i as int] == (k@, evv@));
        let ghost before = kv_view(out@);
        match find_last(actual, k) {
            None => {
                let mut m = String::new();
                push_lit(&mut m, "field ");
                let d = debug_str(k);
                m.append(d.as_str());
                push_lit(&mut m, " present in expected, absent in actual");
                push_pair(out, "KOBOLD-DIFF-MISSING-FIELD", m);
            },
            Some(j) => {
                let avv = actual[j].1.as_str();
                if !str_eq(avv, evv) {
                    let mut m = String::new();
                    push_lit(&mut m, "field ");
                    let d = debug_str(k);
                    m.append(d.as_str());
                    push_lit(&mut m, ": actual ");
                    let d2 = debug_str(avv);
                    m.append(d2.as_str());
                    push_lit(&mut m, " != expected ");
                    let d3 = debug_str(evv);
                    m.append(d3.as_str());
                    push_pair(out, "KOBOLD-DIFF-FIELD-MISMATCH", m);
                }
            },
        }
        assert(kv_view(out@) =~= kv_view(old(out)@) + field_findings(av, ev, (i + 1) as nat));
        i += 1;
    }
}

fn push_extra_findings(out: &mut Vec<(String, String)>, src: &Vec<(String, String)>, other: &Vec<(String, String)>, rule: &str, pre: &str, post: &str)
    ensures
        kv_view(final(out)@) == kv_view(old(out)@) + extra_findings(kv_view(src@), kv_view(other@), rule@, pre@, post@, src@.len()),
{
    let ghost sv = kv_view(src@);
    let ghost ov = kv_view(other@);
    let mut i: usize = 0;
    assert(kv_view(out@) =~= kv_view(old(out)@) + extra_findings(sv, ov, rule@, pre@, post@, 0));
    while i < src.len()
        invariant
            i <= src@.len(),
            sv == kv_view(src@),
            ov == kv_view(other@),
            kv_view(out@) == kv_view(old(out)@) + extra_findings(sv, ov, rule@, pre@, post@, i as nat),
        decreases src@.len() - i,
    {
        let k = src[i].0.as_str();
        assert(sv[i as int].0 == k@);
        if find_last(other, k).is_none() {
            let mut m = String::new();
            push_lit(&mut m, pre);
            let d = debug_str(k);
            m.append(d.as_str());
            push_lit(&mut m, post);
            push_pair(out, rule, m);
        }
        assert(kv_view(out@) =~= kv_view(old(out)@) + extra_findings(sv, ov, rule@, pre@, post@, (i + 1) as nat));
        i += 1;
    }
}

fn push_total_findings(out: &mut Vec<(String, String)>, actual: &Vec<(String, String)>, expected: &Vec<(String, String)>)
    ensures
        kv_view(final(out)@) == kv_view(old(out)@) + total_findings(kv_view(actual@), kv_view(expected@), expected@.len()),
{
    let ghost av = kv_view(actual@);
    let ghost ev = kv_view(expected@);
    let mut i: usize = 0;
    assert(kv_view(out@) =~= kv_view(old(out)@) + total_findings(av, ev, 0));
    while i < expected.len()
        invariant
            i <= expected@.len(),
            av == kv_view(actual@),
            ev == kv_view(expected@),
            kv_view(out@) == kv_view(old(out)@) + total_findings(av, ev, i as nat),
        decreases expected@.len() - i,
    {
        let k = expected[i].0.as_str();
        let evv = expected[i].1.as_str();
        assert(ev[i as int] == (k@, evv@));
        let found = find_last(actual, k);
        let same = match found {
            Some(j) => str_eq(actual[j].1.as_str(), evv),
            None => false,
        };
        if !same {
            let mut m = String::new();
            push_lit(&mut m, "control total ");
            let d = debug_str(k);
            m.append(d.as_str());
            push_lit(&mut m, ": actual ");
            match found {
                Some(j) => push_opt_debug(&mut m, Some(actual[j].1.as_str())),
                None => push_opt_debug(&mut m, None),
            }
            push_lit(&mut m, " != expected ");
            let d3 = debug_str(evv);
            m.append(d3.as_str());
            push_pair(out, "KOBOLD-DIFF-CONTROL-TOTAL-MISMATCH", m);
        }
        assert(kv_view(out@) =~= kv_view(old(out)@) + total_findings(av, ev, (i + 1) as nat));
        i += 1;
    }
}

fn is_allowed(t: &DiffTarget, k: &str) -> (r: bool)
    ensures
        r == target_view(*t).allowed.contains(k@),
{
    let ghost al = target_view(*t).allowed;
    let mut i: usize = 0;
    while i < t.allowed_comparisons.len()
        invariant
            i <= t.allowed_comparisons@.len(),
            al == target_view(*t).allowed,
            forall|j: int| 0 <= j < i ==> al[j] != k@,
        decreases t.allowed_comparisons@.len() - i,
    {
        assert(al[i as int] == t.allowed_comparisons@[i as int]@);
        if str_eq(t.allowed_comparisons[i], k) {
            return true;
        }
        i += 1;
    }
    false
}

fn opt_str_eq(a: &Option<String>, b: &Option<String>) -> (r: bool)
    ensures
        r == (opt_str_view(*a) == opt_str_view(*b)),
{
    match (a, b) {
        (Some(x), Some(y)) => str_eq(x.as_str(), y.as_str()),
        (None, None) => true,
        _ => false,
    }
}

fn push_opt_string_debug(out: &mut String, o: &Option<String>)
    ensures
        final(out)@ == old(out)@ + opt_debug(opt_str_view(*o)),
{
    match o {
        Some(s) => push_opt_debug(out, Some(s.as_str())),
        None => push_opt_debug(out, None),
    }
}

#[verifier::rlimit(40)]
fn raw_findings_exec(actual: &DiffInput, expected: &DiffInput, target: &DiffTarget) -> (r: Vec<(String, String)>)
    ensures
        kv_view(r@) == raw_findings(input_view(*actual), input_view(*expected), target_view(*target)),
{
    let mut f: Vec<(String, String)> = Vec::new();
    let ghost s0 = kv_view(f@);
    if is_allowed(target, "field_values") {
        push_field_findings(&mut f, &actual.fields, &expected.fields);
        push_extra_findings(&mut f, &actual.fields, &expected.fields, "KOBOLD-DIFF-EXTRA-FIELD", "field ", " present in actual, not in expected");
    }
    let ghost s1 = kv_view(f@);
    if is_allowed(target, "finding_ids") {
        let aset = id_set_exec(&actual.finding_ids);
        let eset = id_set_exec(&expected.finding_ids);
        if !seqs_equal(&aset, &eset) {
            let mut m = String::new();
            push_lit(&mut m, "finding-id set differs: actual ");
            push_set_debug(&mut m, &aset);
            push_lit(&mut m, " != expected ");
            push_set_debug(&mut m, &eset);
            push_pair(&mut f, "KOBOLD-DIFF-FINDING-SET-MISMATCH", m);
        }
    }
    let ghost s2 = kv_view(f@);
    if is_allowed(target, "control_totals") {
        push_total_findings(&mut f, &actual.control_totals, &expected.control_totals);
        push_extra_findings(&mut f, &actual.control_totals, &expected.control_totals, "KOBOLD-DIFF-CONTROL-TOTAL-MISMATCH", "control total ", " present in actual, not in expected");
    }
    let ghost s3 = kv_view(f@);
    if is_allowed(target, "audit_hashes") && !opt_str_eq(&actual.output_hash, &expected.output_hash) {
        let mut m = String::new();
        push_lit(&mut m, "audit output hash differs: actual ");
        push_opt_string_debug(&mut m, &actual.output_hash);
        push_lit(&mut m, " != expected ");
        push_opt_string_debug(&mut m, &expected.output_hash);
        push_pair(&mut f, "KOBOLD-DIFF-HASH-MISMATCH", m);
    }
    assert(kv_view(f@) =~= raw_findings(input_view(*actual), input_view(*expected), target_view(*target)));
    f
}

fn entries_text(fs: &Vec<(String, String)>, sarif: bool) -> (r: Vec<String>)
    ensures
        strs_view(r@) == if sarif {
            kv_view(fs@).map_values(|f: Pair| sarif_entry(f))
        } else {
            kv_view(fs@).map_values(|f: Pair| report_entry(f))
        },
{
    let ghost want = if sarif {
        kv_view(fs@).map_values(|f: Pair| sarif_entry(f))
    } else {
        kv_view(fs@).map_values(|f: Pair| report_entry(f))
    };
    let mut out: Vec<String> = Vec::new();
    let mut i: usize = 0;
    while i < fs.len()
        invariant
            i <= fs@.len(),
            want == if sarif {
                kv_view(fs@).map_values(|f: Pair| sarif_entry(f))
            } else {
                kv_view(fs@).map_values(|f: Pair| report_entry(f))
            },
            strs_view(out@) == want.take(i as int),
        decreases fs@.len() - i,
    {
        let r = fs[i].0.as_str();
        let m = fs[i].1.as_str();
        let mut e = String::new();
        push_lit(&mut e, "{\"ruleId\":");
        push_js(&mut e, r);
        if sarif {
            push_lit(&mut e, ",\"level\":");
            if str_eq(r, "KOBOLD-DIFF-TARGET-NOT-ORACLE") {
                push_js(&mut e, "note");
            } else {
                push_js(&mut e, "error");
            }
            push_lit(&mut e, ",\"message\":{\"text\":");
            push_js(&mut e, m);
            push_lit(&mut e, "}}");
        } else {
            push_lit(&mut e, ",\"message\":");
            push_js(&mut e, m);
            push_lit(&mut e, "}");
        }
        proof {
            lemma_strs_push(out@, e);
        }
        out.push(e);
        assert(want.take(i + 1) =~= want.take(i as int).push(e@));
        i += 1;
    }
    assert(want.take(i as int) =~= want);
    out
}

#[verifier::rlimit(30)]
fn report_text(schema: &str, t: &DiffTarget, entries: &Vec<String>, matched: bool, fs: Ghost<Seq<Pair>>) -> (r: String)
    requires
        strs_view(entries@) == fs@.map_values(|f: Pair| report_entry(f)),
    ensures
        r@ == report_spec(schema@, target_view(*t), fs@, matched),
{
    let ghost al = target_view(*t).allowed;
    let mut allowed: Vec<String> = Vec::new();
    let mut i: usize = 0;
    while i < t.allowed_comparisons.len()
        invariant
            i <= t.allowed_comparisons@.len(),
            al == target_view(*t).allowed,
            strs_view(allowed@) == al.map_values(|c: Seq<char>| js(c)).take(i as int),
        decreases t.allowed_comparisons@.len() - i,
    {
        let mut q = String::new();
        push_js(&mut q, t.allowed_comparisons[i]);
        proof {
            lemma_strs_push(allowed@, q);
        }
        allowed.push(q);
        assert(al.map_values(|c: Seq<char>| js(c)).take(i + 1) =~= al.map_values(|c: Seq<char>| js(c)).take(i as int).push(q@));
        i += 1;
    }
    assert(al.map_values(|c: Seq<char>| js(c)).take(i as int) =~= al.map_values(|c: Seq<char>| js(c)));
    let mut o = String::new();
    push_lit(&mut o, "{\"schema\":\"");
    o.append(schema);
    push_lit(&mut o, "\",\"court\":\"KOBOLD.DIFF.1\",\"verdict\":");
    if matched {
        push_js(&mut o, "equal_to_declared_target");
    } else {
        push_js(&mut o, "differs_from_declared_target");
    }
    push_lit(&mut o, ",\"matched\":");
    push_bool(&mut o, matched);
    push_lit(&mut o, ",\"target\":{\"schema\":\"kobold-diff-target-v1\",\"target_kind\":");
    push_js(&mut o, t.target_kind);
    push_lit(&mut o, ",\"oracle_status\":");
    push_js(&mut o, t.oracle_status.as_str());
    push_lit(&mut o, ",\"source\":");
    push_js(&mut o, t.source);
    push_lit(&mut o, ",\"allowed_comparisons\":[");
    push_joined(&mut o, &allowed);
    push_lit(&mut o, "]},\"oracle_authority_claimed\":");
    push_bool(&mut o, t.oracle_status == OracleStatus::AdmittedOracle);
    push_lit(&mut o, ",\"truth_layers\":{\"equal_to_declared_target\":");
    push_bool(&mut o, matched);
    push_lit(&mut o, ",\"business_truth\":false,\"ledger_truth\":false,\"settlement_truth\":false,\"customer_approval\":false},\"findings\":[");
    push_joined(&mut o, entries);
    push_lit(&mut o, DIFF_NEGATIVES);
    o
}

/// Compare a KOBOLD output (`actual`) against a declared expected artifact under `target`.
/// Deterministic: only the allowed dimensions are compared, and the findings come sorted.
#[verifier::rlimit(40)]
pub fn diff_artifacts(actual: &DiffInput, expected: &DiffInput, target: &DiffTarget) -> (r: DiffReport)
    ensures
        diff_view(r) == diff_spec(input_view(*actual), input_view(*expected), target_view(*target)),
{
    let ghost a = input_view(*actual);
    let ghost e = input_view(*expected);
    let ghost t = target_view(*target);
    let mut findings = raw_findings_exec(actual, expected, target);
    let matched = findings.len() == 0;
    if matched && target.oracle_status != OracleStatus::AdmittedOracle {
        let mut m = String::new();
        push_lit(&mut m, "matched the declared target (oracle_status=");
        push_lit(&mut m, target.oracle_status.as_str());
        push_lit(&mut m, "); this proves equality to the target, NOT correctness/oracle authority");
        push_pair(&mut findings, "KOBOLD-DIFF-TARGET-NOT-ORACLE", m);
    }
    let findings = sort_findings(findings);
    let ghost fs = kv_view(findings@);
    assert(fs == diff_findings(a, e, t));
    let sarif_entries = entries_text(&findings, true);
    let mut sarif_json = String::new();
    push_lit(&mut sarif_json, SARIF_HEAD);
    push_joined(&mut sarif_json, &sarif_entries);
    push_lit(&mut sarif_json, "]}]}\n");
    let report_entries = entries_text(&findings, false);
    let report_json = report_text("kobold-diff-report-v1", target, &report_entries, matched, Ghost(fs));
    let casefile_json = report_text("kobold-diff-forensic-casefile-v1", target, &report_entries, matched, Ghost(fs));
    DiffReport { report_json, sarif_json, casefile_json, findings, matched }
}

/// What follows the schema name in a report.
pub open spec fn report_tail(t: TargetView, fs: Seq<Pair>, matched: bool) -> Seq<char> {
    "\",\"court\":\"KOBOLD.DIFF.1\",\"verdict\":"@ + js(
        if matched { "equal_to_declared_target"@ } else { "differs_from_declared_target"@ },
    ) + ",\"matched\":"@ + bool_text(matched) + ",\"target\":{\"schema\":\"kobold-diff-target-v1\",\"target_kind\":"@ + js(
        t.target_kind,
    ) + ",\"oracle_status\":"@ + js(oracle_text(t.oracle_status)) + ",\"source\":"@ + js(t.source)
        + ",\"allowed_comparisons\":["@ + join_comma(t.allowed.map_values(|c: Seq<char>| js(c)))
        + "]},\"oracle_authority_claimed\":"@ + bool_text(t.oracle_status == OracleStatus::AdmittedOracle)
        + ",\"truth_layers\":{\"equal_to_declared_target\":"@ + bool_text(matched)
        + ",\"business_truth\":false,\"ledger_truth\":false,\"settlement_truth\":false,\"customer_approval\":false},\"findings\":["@
        + join_comma(fs.map_values(|f: Pair| report_entry(f))) + DIFF_NEGATIVES@
}

#[verifier::rlimit(100)]
proof fn lemma_report_split(schema: Seq<char>, t: TargetView, fs: Seq<Pair>, matched: bool)
    ensures
        report_spec(schema, t, fs, matched) == "{\"schema\":\""@ + schema + report_tail(t, fs, matched),
{
    assert(report_spec(schema, t, fs, matched) =~= "{\"schema\":\""@ + schema + report_tail(t, fs, matched));
}

/// The casefile is the report with its schema name changed and nothing else: both begin with the
/// schema key, and what follows the schema name is the same text.
pub proof fn lemma_casefile_is_report_under_its_schema(a: InputView, e: InputView, t: TargetView)
    ensures
        exists|rest: Seq<char>|
            {
                &&& diff_spec(a, e, t).report_json == "{\"schema\":\""@ + "kobold-diff-report-v1"@ + rest
                &&& diff_spec(a, e, t).casefile_json == "{\"schema\":\""@ + "kobold-diff-forensic-casefile-v1"@ + rest
            },
{
    let fs = diff_findings(a, e, t);
    let matched = raw_findings(a, e, t).len() == 0;
    lemma_report_split("kobold-diff-report-v1"@, t, fs, matched);
    lemma_report_split("kobold-diff-forensic-casefile-v1"@, t, fs, matched);
    let rest = report_tail(t, fs, matched);
    assert(diff_spec(a, e, t).report_json == "{\"schema\":\""@ + "kobold-diff-report-v1"@ + rest);
}

/// Every expected key is carried by the actual side with the expected value.
pub open spec fn carries_expected(actual: Seq<Pair>, expected: Seq<Pair>) -> bool {
    forall|i: int| 0 <= i < expected.len() ==> last_val(actual, #[trigger] expected[i].0) == Some(expected[i].1)
}

/// Every key of `src` is a key of `other`.
pub open spec fn keys_within(src: Seq<Pair>, other: Seq<Pair>) -> bool {
    forall|i: int| 0 <= i < src.len() ==> last_val(other, #[trigger] src[i].0) is Some
}

proof fn lemma_field_findings_empty(actual: Seq<Pair>, expected: Seq<Pair>, n: nat)
    requires
        n <= expected.len(),
    ensures
        field_findings(actual, expected, n).len() == 0 <==> forall|i: int|
            0 <= i < n ==> last_val(actual, #[trigger] expected[i].0) == Some(expected[i].1),
        total_findings(actual, expected, n).len() == 0 <==> forall|i: int|
            0 <= i < n ==> last_val(actual, #[trigger] expected[i].0) == Some(expected[i].1),
    decreases n,
{
    if n > 0 {
        lemma_field_findings_empty(actual, expected, (n - 1) as nat);
    }
}

proof fn lemma_extra_findings_empty(src: Seq<Pair>, other: Seq<Pair>, rule: Seq<char>, pre: Seq<char>, post: Seq<char>, n: nat)
    requires
        n <= src.len(),
    ensures
        extra_findings(src, other, rule, pre, post, n).len() == 0 <==> forall|i: int|
            0 <= i < n ==> last_val(other, #[trigger] src[i].0) is Some,
    decreases n,
{
    if n > 0 {
        lemma_extra_findings_empty(src, other, rule, pre, post, (n - 1) as nat);
    }
}

/// A comparison matches exactly when no allowed dimension differs: under `field_values` and
/// `control_totals`, every expected key is in the actual side with the expected value and every
/// actual key is expected; under `finding_ids`, the two sides hold the same ids; under
/// `audit_hashes`, the output hashes are equal. Dimensions not allowed are never compared.
#[verifier::rlimit(60)]
pub proof fn lemma_matched_exactly_without_discrepancy(a: InputView, e: InputView, t: TargetView)
    ensures
        diff_spec(a, e, t).matched <==> {
            &&& (t.allowed.contains("field_values"@) ==> carries_expected(a.fields, e.fields) && keys_within(a.fields, e.fields))
            &&& (t.allowed.contains("finding_ids"@) ==> forall|x: Seq<char>| a.finding_ids.contains(x) <==> e.finding_ids.contains(x))
            &&& (t.allowed.contains("control_totals"@) ==> carries_expected(a.control_totals, e.control_totals) && keys_within(
                a.control_totals,
                e.control_totals,
            ))
            &&& (t.allowed.contains("audit_hashes"@) ==> a.output_hash == e.output_hash)
        },
{
    lemma_field_findings_empty(a.fields, e.fields, e.fields.len());
    lemma_field_findings_empty(a.control_totals, e.control_totals, e.control_totals.len());
    lemma_extra_findings_empty(a.fields, e.fields, "KOBOLD-DIFF-EXTRA-FIELD"@, "field "@, " present in actual, not in expected"@, a.fields.len());
    lemma_extra_findings_empty(
        a.control_totals,
        e.control_totals,
        "KOBOLD-DIFF-CONTROL-TOTAL-MISMATCH"@,
        "control total "@,
        " present in actual, not in expected"@,
        a.control_totals.len(),
    );
    lemma_id_sets_compare_as_sets(a.finding_ids, e.finding_ids);
}

} // verus!
