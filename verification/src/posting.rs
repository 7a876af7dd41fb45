//! Declared posting-unit custody manifest.
//!
//! Custody over a declared posting unit: batch identity, business date, extraction metadata,
//! record order (a hash chain), sequence evidence and duplicate evidence are recorded as forensic
//! evidence, while ledger acceptance, settlement finality, balance correctness and business truth
//! remain non-claims.
use crate::banking::{field_value, field_value_exec, finding_entries, findings_list, pairs_view, parse_count};
use crate::copybook::{parse_unsigned, trim_ws, trimmed_chars};
use crate::decode::{chunks_spec, lemma_chunks_step, lemma_skip_head, shim_error_view, Copybook, Encoding, ShimError, ShimErrorView};
use crate::sha256::{sha256_hex, spec_sha256_hex};
use crate::text::{
    bool_text, debug_str, dec_nat, join_comma, join_sep, js, lemma_strs_push, push_bool, push_joined, push_joined_sep,
    push_js, push_lit, push_u64, push_usize, spec_debug_str, str_eq, string_of, strs_view,
};
use vstd::prelude::*;
use vstd::utf8::encode_utf8;

verus! {

/// A declared posting-unit profile. `sequence_contiguous` enables gap detection only when the
/// caller declares the sequence is meant to be contiguous.
pub struct PostingProfile<'a> {
    pub posting_unit_id: &'a str,
    pub business_date: &'a str,
    pub extract_time_utc: &'a str,
    pub source_system: &'a str,
    pub sequence_field: Option<&'a str>,
    pub sequence_contiguous: bool,
    pub txn_id_field: Option<&'a str>,
}

/// The posting-unit custody result.
pub struct PostingManifest {
    pub manifest_json: String,
    pub casefile_json: String,
    pub record_count: usize,
    pub seq_duplicates: Vec<u64>,
    pub seq_gaps: Vec<u64>,
    pub txn_duplicates: Vec<String>,
    pub last_chain_hash: String,
    pub findings: Vec<(String, String)>,
    /// The SHA-256 of the whole buffer.
    pub file_hash: String,
    /// The lowest and highest sequence values, when a sequence field is declared and seen.
    pub seq_min: Option<u64>,
    pub seq_max: Option<u64>,
}

// ----------------------------------------------------------------------------------------------
// Sorted value sets
// ----------------------------------------------------------------------------------------------

pub open spec fn strictly_increasing(s: Seq<u64>) -> bool {
    forall|i: int, j: int| 0 <= i < j < s.len() ==> s[i] < s[j]
}

/// The ascending enumeration of a finite set of values.
#[verifier::opaque]
pub open spec fn sorted_of(set: Set<u64>) -> Seq<u64> {
    choose|r: Seq<u64>| strictly_increasing(r) && forall|x: u64| r.contains(x) <==> set.contains(x)
}

/// Two ascending sequences with the same elements are equal.
pub proof fn lemma_sorted_unique(a: Seq<u64>, b: Seq<u64>)
    requires
        strictly_increasing(a),
        strictly_increasing(b),
        forall|x: u64| a.contains(x) <==> b.contains(x),
    ensures
        a == b,
    decreases a.len(),
{
    if a.len() == 0 {
        if b.len() > 0 {
            assert(b.contains(b[0]));
        }
        assert(a =~= b);
    } else {
        assert(a.contains(a[0]));
        assert(b.len() > 0);
        assert(b.contains(b[0]));
        let ja = choose|j: int| 0 <= j < a.len() && a[j] == b[0];
        let jb = choose|j: int| 0 <= j < b.len() && b[j] == a[0];
        assert(a[0] <= a[ja]);
        assert(b[0] <= b[jb]);
        assert(a[0] == b[0]);
        let a1 = a.drop_first();
        let b1 = b.drop_first();
        assert forall|x: u64| a1.contains(x) <==> b1.contains(x) by {
            if a1.contains(x) {
                let i = choose|i: int| 0 <= i < a1.len() && a1[i] == x;
                assert(a[i + 1] == x);
                assert(a.contains(x));
                let k = choose|k: int| 0 <= k < b.len() && b[k] == x;
                assert(x > a[0]);
                assert(k != 0);
                assert(b1[k - 1] == x);
            }
            if b1.contains(x) {
                let i = choose|i: int| 0 <= i < b1.len() && b1[i] == x;
                assert(b[i + 1] == x);
                assert(b.contains(x));
                let k = choose|k: int| 0 <= k < a.len() && a[k] == x;
                assert(x > b[0]);
                assert(k != 0);
                assert(a1[k - 1] == x);
            }
        }
        lemma_sorted_unique(a1, b1);
        assert(a =~= seq![a[0]] + a1);
        assert(b =~= seq![b[0]] + b1);
    }
}

proof fn lemma_sorted_of(r: Seq<u64>, set: Set<u64>)
    requires
        strictly_increasing(r),
        forall|x: u64| r.contains(x) <==> set.contains(x),
    ensures
        sorted_of(set) == r,
{
    reveal(sorted_of);
    let c = sorted_of(set);
    assert(strictly_increasing(c) && forall|x: u64| c.contains(x) <==> set.contains(x));
    lemma_sorted_unique(c, r);
}

/// Occurrences of `x` in `s`.
pub open spec fn occurrences(s: Seq<u64>, x: u64) -> nat
    decreases s.len(),
{
    if s.len() == 0 {
        0
    } else {
        occurrences(s.drop_last(), x) + if s.last() == x { 1nat } else { 0nat }
    }
}

/// The values that occur more than once.
pub open spec fn dup_set(s: Seq<u64>) -> Set<u64> {
    Set::new(|x: u64| occurrences(s, x) >= 2)
}

pub open spec fn seq_min(s: Seq<u64>) -> u64
    decreases s.len(),
{
    if s.len() <= 1 {
        if s.len() == 1 { s[0] } else { 0 }
    } else {
        let m = seq_min(s.drop_last());
        if s.last() < m { s.last() } else { m }
    }
}

pub open spec fn seq_max(s: Seq<u64>) -> u64
    decreases s.len(),
{
    if s.len() <= 1 {
        if s.len() == 1 { s[0] } else { 0 }
    } else {
        let m = seq_max(s.drop_last());
        if s.last() > m { s.last() } else { m }
    }
}

/// The values between the smallest and largest observed that were never observed.
pub open spec fn gap_set(s: Seq<u64>) -> Set<u64> {
    Set::new(|x: u64| seq_min(s) <= x <= seq_max(s) && !s.contains(x))
}

/// Transaction ids that repeat, in order of their first repetition, each once.
pub open spec fn txn_dups(s: Seq<Seq<char>>) -> Seq<Seq<char>>
    decreases s.len(),
{
    if s.len() == 0 {
        seq![]
    } else {
        let d = txn_dups(s.drop_last());
        if s.drop_last().contains(s.last()) && !d.contains(s.last()) {
            d.push(s.last())
        } else {
            d
        }
    }
}

fn count_of(v: &Vec<u64>, x: u64) -> (n: usize)
    ensures
        n == occurrences(v@, x),
{
    let mut n: usize = 0;
    let mut i: usize = 0;
    while i < v.len()
        invariant
            i <= v@.len(),
            n == occurrences(v@.take(i as int), x),
            n <= i,
        decreases v@.len() - i,
    {
        assert(v@.take(i + 1).drop_last() =~= v@.take(i as int));
        if v[i] == x {
            n += 1;
        }
        i += 1;
    }
    assert(v@.take(i as int) =~= v@);
    n
}

fn contains_u64(v: &Vec<u64>, x: u64) -> (r: bool)
    ensures
        r == v@.contains(x),
{
    let mut i: usize = 0;
    while i < v.len()
        invariant
            i <= v@.len(),
            forall|k: int| 0 <= k < i ==> v@[k] != x,
        decreases v@.len() - i,
    {
        if v[i] == x {
            assert(v@[i as int] == x);
            return true;
        }
        i += 1;
    }
    false
}

/// The smallest repeated value above `last` (any, when `last` is `None`).
fn next_dup(v: &Vec<u64>, last: Option<u64>) -> (r: Option<u64>)
    ensures
        match r {
            Some(b) => occurrences(v@, b) >= 2 && (last matches Some(l) ==> b > l) && forall|x: u64|
                occurrences(v@, x) >= 2 && (last matches Some(l) ==> x > l) ==> b <= x,
            None => forall|x: u64| occurrences(v@, x) >= 2 ==> (last matches Some(l) && x <= l),
        },
{
    let mut best: Option<u64> = None;
    let mut i: usize = 0;
    while i < v.len()
        invariant
            i <= v@.len(),
            match best {
                Some(b) => occurrences(v@, b) >= 2 && (last matches Some(l) ==> b > l) && forall|k: int|
                    0 <= k < i && occurrences(v@, v@[k]) >= 2 && (last matches Some(l) ==> v@[k] > l) ==> b <= v@[k],
                None => forall|k: int| 0 <= k < i ==> !(occurrences(v@, v@[k]) >= 2 && (last matches Some(l) ==> v@[k] > l)),
            },
        decreases v@.len() - i,
    {
        let x = v[i];
        let above = match last {
            Some(l) => x > l,
            None => true,
        };
        if above {
            let better = match best {
                Some(b) => x < b,
                None => true,
            };
            if better && count_of(v, x) >= 2 {
                best = Some(x);
            }
        }
        i += 1;
    }
    proof {
        assert forall|x: u64| occurrences(v@, x) >= 2 && (last matches Some(l) ==> x > l) implies (match best {
            Some(b) => b <= x,
            None => false,
        }) by {
            lemma_occurs_contains(v@, x);
            let k = choose|k: int| 0 <= k < v@.len() && v@[k] == x;
            assert(v@[k] == x);
        }
    }
    best
}

proof fn lemma_occurs_contains(s: Seq<u64>, x: u64)
    requires
        occurrences(s, x) >= 1,
    ensures
        s.contains(x),
    decreases s.len(),
{
    if s.last() == x {
        assert(s[s.len() - 1] == x);
    } else {
        lemma_occurs_contains(s.drop_last(), x);
        let k = choose|k: int| 0 <= k < s.drop_last().len() && s.drop_last()[k] == x;
        assert(s[k] == x);
    }
}

/// The repeated values, ascending.
fn sorted_dups(v: &Vec<u64>) -> (r: Vec<u64>)
    ensures
        r@ == sorted_of(dup_set(v@)),
{
    let mut out: Vec<u64> = Vec::new();
    let mut last: Option<u64> = None;
    loop
        invariant
            strictly_increasing(out@),
            match last {
                Some(l) => out@.len() > 0 && out@.last() == l,
                None => out@.len() == 0,
            },
            forall|x: u64| out@.contains(x) <==> (occurrences(v@, x) >= 2 && (last matches Some(l) && x <= l)),
        decreases (match last {
            Some(l) => u64::MAX - l,
            None => u64::MAX + 1,
        }),
    {
        match next_dup(v, last) {
            None => {
                proof {
                    assert forall|x: u64| out@.contains(x) <==> dup_set(v@).contains(x) by {}
                    lemma_sorted_of(out@, dup_set(v@));
                }
                return out;
            },
            Some(b) => {
                let ghost before = out@;
                out.push(b);
                proof {
                    assert forall|i: int, j: int| 0 <= i < j < out@.len() implies out@[i] < out@[j] by {
                        if j == out@.len() - 1 && i < j {
                            if let Some(l) = last {
                                assert(before.contains(before[i]));
                                assert(before[i] <= l);
                            }
                        }
                    }
                    assert forall|x: u64| out@.contains(x) <==> (occurrences(v@, x) >= 2 && x <= b) by {
                        if out@.contains(x) {
                            let k = choose|k: int| 0 <= k < out@.len() && out@[k] == x;
                            if k < before.len() {
                                assert(before.contains(x));
                            }
                        }
                        if occurrences(v@, x) >= 2 && x <= b {
                            if let Some(l) = last {
                                if x <= l {
                                    assert(before.contains(x));
                                    let k = choose|k: int| 0 <= k < before.len() && before[k] == x;
                                    assert(out@[k] == x);
                                } else {
                                    assert(x == b);
                                    assert(out@[before.len() as int] == x);
                                }
                            } else {
                                assert(x == b);
                                assert(out@[before.len() as int] == x);
                            }
                        }
                    }
                }
                last = Some(b);
            },
        }
    }
}

/// The missing values between the smallest and largest observed, ascending.
fn sorted_gaps(v: &Vec<u64>, lo: u64, hi: u64) -> (r: Vec<u64>)
    requires
        lo == seq_min(v@),
        hi == seq_max(v@),
        lo <= hi,
    ensures
        r@ == sorted_of(gap_set(v@)),
{
    let mut out: Vec<u64> = Vec::new();
    let mut n: u64 = lo;
    loop
        invariant
            lo <= n <= hi,
            lo == seq_min(v@),
            hi == seq_max(v@),
            strictly_increasing(out@),
            forall|k: int| 0 <= k < out@.len() ==> out@[k] < n,
            forall|x: u64| out@.contains(x) <==> (lo <= x < n && !v@.contains(x)),
        decreases hi - n,
    {
        if !contains_u64(v, n) {
            let ghost before = out@;
            out.push(n);
            assert forall|x: u64| out@.contains(x) <==> (lo <= x <= n && !v@.contains(x)) by {
                if out@.contains(x) {
                    let k = choose|k: int| 0 <= k < out@.len() && out@[k] == x;
                    if k < before.len() {
                        assert(before.contains(x));
                    }
                }
                if lo <= x <= n && !v@.contains(x) && x < n {
                    assert(before.contains(x));
                    let k = choose|k: int| 0 <= k < before.len() && before[k] == x;
                    assert(out@[k] == x);
                }
                if x == n && !v@.contains(x) {
                    assert(out@[before.len() as int] == x);
                }
            }
        } else {
            assert forall|x: u64| out@.contains(x) <==> (lo <= x <= n && !v@.contains(x)) by {}
        }
        if n == hi {
            proof {
                assert forall|x: u64| out@.contains(x) <==> gap_set(v@).contains(x) by {}
                lemma_sorted_of(out@, gap_set(v@));
            }
            return out;
        }
        n += 1;
    }
}

fn min_max(v: &Vec<u64>) -> (r: (u64, u64))
    requires
        v@.len() > 0,
    ensures
        r.0 == seq_min(v@),
        r.1 == seq_max(v@),
        r.0 <= r.1,
{
    let mut lo = v[0];
    let mut hi = v[0];
    let mut i: usize = 1;
    assert(v@.take(1) =~= seq![v@[0]]);
    while i < v.len()
        invariant
            1 <= i <= v@.len(),
            lo == seq_min(v@.take(i as int)),
            hi == seq_max(v@.take(i as int)),
            lo <= hi,
        decreases v@.len() - i,
    {
        assert(v@.take(i + 1).drop_last() =~= v@.take(i as int));
        if v[i] < lo {
            lo = v[i];
        }
        if v[i] > hi {
            hi = v[i];
        }
        i += 1;
    }
    assert(v@.take(i as int) =~= v@);
    (lo, hi)
}

fn contains_str(v: &Vec<String>, s: &String) -> (r: bool)
    ensures
        r == strs_view(v@).contains(s@),
{
    let ghost sv = strs_view(v@);
    let mut i: usize = 0;
    while i < v.len()
        invariant
            i <= v@.len(),
            sv == strs_view(v@),
            forall|k: int| 0 <= k < i ==> sv[k] != s@,
        decreases v@.len() - i,
    {
        if str_eq(v[i].as_str(), s.as_str()) {
            assert(sv[i as int] == s@);
            return true;
        }
        i += 1;
    }
    false
}

fn txn_dups_exec(v: &Vec<String>) -> (r: Vec<String>)
    ensures
        strs_view(r@) == txn_dups(strs_view(v@)),
{
    let ghost sv = strs_view(v@);
    let mut out: Vec<String> = Vec::new();
    let mut seen: Vec<String> = Vec::new();
    let mut i: usize = 0;
    while i < v.len()
        invariant
            i <= v@.len(),
            sv == strs_view(v@),
            strs_view(seen@) == sv.take(i as int),
            strs_view(out@) == txn_dups(sv.take(i as int)),
        decreases v@.len() - i,
    {
        let t = &v[i];
        assert(sv.take(i + 1).drop_last() =~= sv.take(i as int));
        assert(sv.take(i + 1).last() == t@);
        if contains_str(&seen, t) && !contains_str(&out, t) {
            let c = t.clone();
            assert(c@ == t@);
            proof {
                lemma_strs_push(out@, c);
            }
            out.push(c);
        }
        let c2 = t.clone();
        proof {
            lemma_strs_push(seen@, c2);
        }
        seen.push(c2);
        assert(sv.take(i + 1) =~= sv.take(i as int).push(t@));
        i += 1;
    }
    assert(sv.take(i as int) =~= sv);
    out
}

// ----------------------------------------------------------------------------------------------
// The custody model
// ----------------------------------------------------------------------------------------------

pub struct PostAcc {
    pub count: nat,
    pub first_hash: Seq<char>,
    pub chain: Seq<char>,
    pub seq_values: Seq<u64>,
    pub txn_values: Seq<Seq<char>>,
    pub findings: Seq<(Seq<char>, Seq<char>)>,
}

pub open spec fn dirty_seq_msg(i: nat, v: Seq<char>) -> Seq<char> {
    "record "@ + dec_nat(i) + ": sequence "@ + spec_debug_str(v) + " not numeric"@
}

pub open spec fn no_seq_msg(i: nat, sf: Seq<char>) -> Seq<char> {
    "record "@ + dec_nat(i) + ": declared sequence field "@ + spec_debug_str(sf) + " not found"@
}

/// One record's effect: the hash chain over record order, its sequence value (or a finding),
/// and its transaction id.
pub open spec fn post_step(acc: PostAcc, i: nat, rec: Seq<u8>, cb: Copybook, p: PostingProfile, enc: Encoding) -> PostAcc {
    let rh = spec_sha256_hex(rec);
    let first = if i == 0 { rh } else { acc.first_hash };
    let chain = if i == 0 { rh } else { spec_sha256_hex(encode_utf8(acc.chain) + rec) };
    let (vals, f) = match p.sequence_field {
        None => (acc.seq_values, acc.findings),
        Some(sf) => match field_value(cb, rec, sf@, enc) {
            Some(v) => match parse_unsigned(trim_ws(v), u64::MAX as nat) {
                Some(n) => (acc.seq_values.push(n as u64), acc.findings),
                None => (acc.seq_values, acc.findings.push(("KOBOLD-POSTING-DIRTY-SEQUENCE"@, dirty_seq_msg(i, v)))),
            },
            None => (acc.seq_values, acc.findings.push(("KOBOLD-POSTING-NO-SEQUENCE"@, no_seq_msg(i, sf@)))),
        },
    };
    let txn = match p.txn_id_field {
        None => acc.txn_values,
        Some(tf) => match field_value(cb, rec, tf@, enc) {
            Some(v) => acc.txn_values.push(trim_ws(v)),
            None => acc.txn_values,
        },
    };
    PostAcc { count: acc.count + 1, first_hash: first, chain, seq_values: vals, txn_values: txn, findings: f }
}

pub open spec fn post_fold(chunks: Seq<Seq<u8>>, cb: Copybook, p: PostingProfile, enc: Encoding, n: nat) -> PostAcc
    decreases n,
{
    if n == 0 || n > chunks.len() {
        PostAcc { count: 0, first_hash: seq![], chain: seq![], seq_values: seq![], txn_values: seq![], findings: seq![] }
    } else {
        post_step(post_fold(chunks, cb, p, enc, (n - 1) as nat), (n - 1) as nat, chunks[n - 1], cb, p, enc)
    }
}

pub open spec fn debug_u64s(v: Seq<u64>) -> Seq<char> {
    "["@ + join_sep(v.map_values(|n: u64| dec_nat(n as nat)), ", "@) + "]"@
}

pub open spec fn debug_strs(v: Seq<Seq<char>>) -> Seq<char> {
    "["@ + join_sep(v.map_values(|s: Seq<char>| spec_debug_str(s)), ", "@) + "]"@
}

pub open spec fn seq_dups(acc: PostAcc) -> Seq<u64> {
    sorted_of(dup_set(acc.seq_values))
}

pub open spec fn seq_gaps(acc: PostAcc, p: PostingProfile) -> Seq<u64> {
    if p.sequence_contiguous && acc.seq_values.len() > 0 {
        sorted_of(gap_set(acc.seq_values))
    } else {
        seq![]
    }
}

/// The findings of the loop, then duplicate sequences, gaps and duplicate transaction ids.
pub open spec fn post_findings(acc: PostAcc, p: PostingProfile) -> Seq<(Seq<char>, Seq<char>)> {
    let d = seq_dups(acc);
    let g = seq_gaps(acc, p);
    let t = txn_dups(acc.txn_values);
    acc.findings + (if d.len() > 0 {
        seq![("KOBOLD-POSTING-DUPLICATE-SEQUENCE"@, "duplicate sequence value(s): "@ + debug_u64s(d))]
    } else {
        seq![]
    }) + (if g.len() > 0 {
        seq![("KOBOLD-POSTING-SEQUENCE-GAP"@, "missing sequence value(s) in a declared-contiguous unit: "@ + debug_u64s(g))]
    } else {
        seq![]
    }) + (if t.len() > 0 {
        seq![("KOBOLD-POSTING-DUPLICATE-TXN-ID"@, "duplicate transaction id(s): "@ + debug_strs(t))]
    } else {
        seq![]
    })
}

pub open spec fn opt_u64(present: bool, v: u64) -> Seq<char> {
    if present {
        dec_nat(v as nat)
    } else {
        "null"@
    }
}

pub open spec fn nums(v: Seq<u64>) -> Seq<Seq<char>> {
    v.map_values(|n: u64| dec_nat(n as nat))
}

pub open spec fn seq_json_text(sf: Option<&str>, present: bool, lo: u64, hi: u64, contiguous: bool, dups: Seq<u64>, gaps: Seq<u64>) -> Seq<char> {
    match sf {
        None => seq![],
        Some(f) => ",\"sequence\":{\"field\":"@ + js(f@) + ",\"min\":"@ + opt_u64(present, lo) + ",\"max\":"@ + opt_u64(
            present,
            hi,
        ) + ",\"contiguous\":"@ + bool_text(contiguous) + ",\"duplicates\":["@ + join_comma(nums(dups)) + "],\"gaps\":["@
            + join_comma(nums(gaps)) + "]}"@,
    }
}

pub open spec fn seq_json(acc: PostAcc, p: PostingProfile) -> Seq<char> {
    seq_json_text(
        p.sequence_field,
        acc.seq_values.len() > 0,
        seq_min(acc.seq_values),
        seq_max(acc.seq_values),
        p.sequence_contiguous,
        seq_dups(acc),
        seq_gaps(acc, p),
    )
}

pub open spec fn txn_json(acc: PostAcc, p: PostingProfile) -> Seq<char> {
    match p.txn_id_field {
        None => seq![],
        Some(tf) => ",\"transaction_id\":{\"field\":"@ + js(tf@) + ",\"duplicates\":["@ + join_comma(
            txn_dups(acc.txn_values).map_values(|s: Seq<char>| js(s)),
        ) + "]}"@,
    }
}

pub open spec fn posting_manifest_json(data: Seq<u8>, acc: PostAcc, p: PostingProfile) -> Seq<char> {
    "{\"schema\":\"kobold-posting-unit-manifest-v1\",\"posting_unit_id\":"@ + js(p.posting_unit_id@)
        + ",\"business_date\":"@ + js(p.business_date@) + ",\"extract_time_utc\":"@ + js(p.extract_time_utc@)
        + ",\"source_system\":"@ + js(p.source_system@) + ",\"file_hash\":"@ + js(spec_sha256_hex(data))
        + ",\"record_count\":"@ + dec_nat(acc.count) + seq_json(acc, p) + txn_json(acc, p)
        + ",\"record_order_hash_chain\":{\"algorithm\":\"sha256\",\"first_record_hash\":"@ + js(acc.first_hash)
        + ",\"last_chain_hash\":"@ + js(acc.chain)
        + "},\"truth_layers\":{\"posting_truth\":{\"claimed\":false},\"ledger_truth\":{\"claimed\":false},\"business_truth\":{\"claimed\":false}}}"@
}

pub open spec fn posting_casefile_json(manifest: Seq<char>, findings: Seq<(Seq<char>, Seq<char>)>) -> Seq<char> {
    "{\"schema\":\"kobold-posting-forensic-casefile-v1\",\"court\":\"KOBOLD.POSTING.1\",\"manifest\":"@ + manifest
        + ",\"findings\":["@ + join_comma(finding_entries(findings))
        + "],\"negative_capabilities\":[\"NEG.POSTING.UNIT\",\"NEG.POSTING.LEDGER_ACCEPTANCE\",\"NEG.POSTING.SETTLEMENT_FINALITY\",\"NEG.POSTING.ACCOUNT_BALANCE_TRUTH\",\"NEG.POSTING.SEQUENCE_CONTIGUITY_UNDECLARED\",\"NEG.POSTING.DUPLICATE_NOT_BUSINESS_DUPLICATE\",\"NEG.CURRENTNESS\"]}\n"@
}

pub struct PostingView {
    pub manifest: Seq<char>,
    pub casefile: Seq<char>,
    pub record_count: nat,
    pub seq_duplicates: Seq<u64>,
    pub seq_gaps: Seq<u64>,
    pub txn_duplicates: Seq<Seq<char>>,
    pub last_chain_hash: Seq<char>,
    pub findings: Seq<(Seq<char>, Seq<char>)>,
    pub file_hash: Seq<char>,
    pub seq_min: Option<u64>,
    pub seq_max: Option<u64>,
}

/// The custody manifest of a fixed-record buffer under a declared posting profile.
pub open spec fn posting_spec(cb: Copybook, data: Seq<u8>, record_len: usize, p: PostingProfile, enc: Encoding) -> Result<
    PostingView,
    ShimErrorView,
> {
    if record_len == 0 {
        Err(ShimErrorView::Layout("record_len must be > 0"@))
    } else if p.posting_unit_id@.len() == 0 {
        Err(ShimErrorView::BadItem("posting_unit_id is required"@))
    } else {
        let chunks = chunks_spec(data, record_len as nat);
        let acc = post_fold(chunks, cb, p, enc, chunks.len());
        let f = post_findings(acc, p);
        let m = posting_manifest_json(data, acc, p);
        Ok(PostingView {
            manifest: m,
            casefile: posting_casefile_json(m, f),
            record_count: acc.count,
            seq_duplicates: seq_dups(acc),
            seq_gaps: seq_gaps(acc, p),
            txn_duplicates: txn_dups(acc.txn_values),
            last_chain_hash: acc.chain,
            findings: f,
            file_hash: spec_sha256_hex(data),
            seq_min: if acc.seq_values.len() > 0 { Some(seq_min(acc.seq_values)) } else { None },
            seq_max: if acc.seq_values.len() > 0 { Some(seq_max(acc.seq_values)) } else { None },
        })
    }
}

// ----------------------------------------------------------------------------------------------
// The executable manifest
// ----------------------------------------------------------------------------------------------

pub struct PostState {
    pub count: usize,
    pub first_hash: String,
    pub chain: String,
    pub seq_values: Vec<u64>,
    pub txn_values: Vec<String>,
    pub findings: Vec<(String, String)>,
}

pub open spec fn post_view(s: PostState) -> PostAcc {
    PostAcc {
        count: s.count as nat,
        first_hash: s.first_hash@,
        chain: s.chain@,
        seq_values: s.seq_values@,
        txn_values: strs_view(s.txn_values@),
        findings: pairs_view(s.findings@),
    }
}

#[verifier::rlimit(40)]
fn post_one(st: &mut PostState, i: usize, rec: &[u8], cb: &Copybook, p: &PostingProfile, enc: Encoding)
    requires
        old(st).count < usize::MAX,
    ensures
        post_view(*final(st)) == post_step(post_view(*old(st)), i as nat, rec@, *cb, *p, enc),
        final(st).count == old(st).count + 1,
{
    let rh = sha256_hex(rec);
    if i == 0 {
        st.first_hash = rh.clone();
        st.chain = rh;
    } else {
        let mut buf = st.chain.as_str().as_bytes_vec();
        buf.extend_from_slice(rec);
        assert(buf@ =~= encode_utf8(old(st).chain@) + rec@);
        st.chain = sha256_hex(buf.as_slice());
    }
    match p.sequence_field {
        None => {},
        Some(sf) => match field_value_exec(cb, rec, sf, enc) {
            Some(v) => match parse_count(&v) {
                Some(n) => {
                    st.seq_values.push(n);
                },
                None => {
                    let mut m = String::from_str("record ");
                    push_usize(&mut m, i);
                    push_lit(&mut m, ": sequence ");
                    let d = debug_str(v.as_str());
                    m.append(d.as_str());
                    push_lit(&mut m, " not numeric");
                    assert(m@ =~= dirty_seq_msg(i as nat, v@));
                    let ghost before = pairs_view(st.findings@);
                    st.findings.push((String::from_str("KOBOLD-POSTING-DIRTY-SEQUENCE"), m));
                    assert(pairs_view(st.findings@) =~= before.push(("KOBOLD-POSTING-DIRTY-SEQUENCE"@, dirty_seq_msg(i as nat, v@))));
                },
            },
            None => {
                let mut m = String::from_str("record ");
                push_usize(&mut m, i);
                push_lit(&mut m, ": declared sequence field ");
                let d = debug_str(sf);
                m.append(d.as_str());
                push_lit(&mut m, " not found");
                assert(m@ =~= no_seq_msg(i as nat, sf@));
                let ghost before = pairs_view(st.findings@);
                st.findings.push((String::from_str("KOBOLD-POSTING-NO-SEQUENCE"), m));
                assert(pairs_view(st.findings@) =~= before.push(("KOBOLD-POSTING-NO-SEQUENCE"@, no_seq_msg(i as nat, sf@))));
            },
        },
    }
    match p.txn_id_field {
        None => {},
        Some(tf) => match field_value_exec(cb, rec, tf, enc) {
            Some(v) => {
                let t = string_of(&trimmed_chars(v.as_str()));
                proof {
                    lemma_strs_push(st.txn_values@, t);
                }
                st.txn_values.push(t);
            },
            None => {},
        },
    }
    st.count = st.count + 1;
}

fn nums_list(v: &Vec<u64>) -> (r: Vec<String>)
    ensures
        strs_view(r@) == nums(v@),
{
    let mut r: Vec<String> = Vec::new();
    let mut i: usize = 0;
    while i < v.len()
        invariant
            i <= v@.len(),
            strs_view(r@) == nums(v@).take(i as int),
        decreases v@.len() - i,
    {
        let mut e = String::new();
        push_u64(&mut e, v[i]);
        proof {
            lemma_strs_push(r@, e);
        }
        r.push(e);
        assert(nums(v@).take(i + 1) =~= nums(v@).take(i as int).push(e@));
        i += 1;
    }
    assert(nums(v@).take(i as int) =~= nums(v@));
    r
}

fn debug_u64s_exec(v: &Vec<u64>) -> (s: String)
    ensures
        s@ == debug_u64s(v@),
{
    let parts = nums_list(v);
    let mut s = String::from_str("[");
    push_joined_sep(&mut s, &parts, ", ");
    push_lit(&mut s, "]");
    assert(nums(v@) =~= v@.map_values(|n: u64| dec_nat(n as nat)));
    assert(s@ =~= debug_u64s(v@));
    s
}

pub fn debug_strs_exec(v: &Vec<String>) -> (s: String)
    ensures
        s@ == debug_strs(strs_view(v@)),
{
    let mut parts: Vec<String> = Vec::new();
    let mut i: usize = 0;
    while i < v.len()
        invariant
            i <= v@.len(),
            strs_view(parts@) == strs_view(v@).map_values(|s: Seq<char>| spec_debug_str(s)).take(i as int),
        decreases v@.len() - i,
    {
        let d = debug_str(v[i].as_str());
        proof {
            lemma_strs_push(parts@, d);
        }
        parts.push(d);
        assert(strs_view(v@).map_values(|s: Seq<char>| spec_debug_str(s)).take(i + 1) =~= strs_view(v@).map_values(
            |s: Seq<char>| spec_debug_str(s),
        ).take(i as int).push(d@));
        i += 1;
    }
    assert(strs_view(v@).map_values(|s: Seq<char>| spec_debug_str(s)).take(i as int) =~= strs_view(v@).map_values(
        |s: Seq<char>| spec_debug_str(s),
    ));
    let mut s = String::from_str("[");
    push_joined_sep(&mut s, &parts, ", ");
    push_lit(&mut s, "]");
    assert(s@ =~= debug_strs(strs_view(v@)));
    s
}

fn js_list(v: &Vec<String>) -> (r: Vec<String>)
    ensures
        strs_view(r@) == strs_view(v@).map_values(|s: Seq<char>| js(s)),
{
    let mut r: Vec<String> = Vec::new();
    let mut i: usize = 0;
    while i < v.len()
        invariant
            i <= v@.len(),
            strs_view(r@) == strs_view(v@).map_values(|s: Seq<char>| js(s)).take(i as int),
        decreases v@.len() - i,
    {
        let mut e = String::new();
        push_js(&mut e, v[i].as_str());
        proof {
            lemma_strs_push(r@, e);
        }
        r.push(e);
        assert(strs_view(v@).map_values(|s: Seq<char>| js(s)).take(i + 1) =~= strs_view(v@).map_values(
            |s: Seq<char>| js(s),
        ).take(i as int).push(e@));
        i += 1;
    }
    assert(strs_view(v@).map_values(|s: Seq<char>| js(s)).take(i as int) =~= strs_view(v@).map_values(|s: Seq<char>| js(s)));
    r
}

fn push_opt_u64(s: &mut String, present: bool, v: u64)
    ensures
        final(s)@ == old(s)@ + opt_u64(present, v),
{
    if present {
        push_u64(s, v);
    } else {
        push_lit(s, "null");
    }
}

fn push_seq_json(s: &mut String, sf: Option<&str>, present: bool, lo: u64, hi: u64, contiguous: bool, dups: &Vec<u64>, gaps: &Vec<u64>)
    ensures
        final(s)@ == old(s)@ + seq_json_text(sf, present, lo, hi, contiguous, dups@, gaps@),
{
    match sf {
        None => {},
        Some(f) => {
            push_lit(s, ",\"sequence\":{\"field\":");
            push_js(s, f);
            push_lit(s, ",\"min\":");
            push_opt_u64(s, present, lo);
            push_lit(s, ",\"max\":");
            push_opt_u64(s, present, hi);
            push_lit(s, ",\"contiguous\":");
            push_bool(s, contiguous);
            push_lit(s, ",\"duplicates\":[");
            let dl = nums_list(dups);
            push_joined(s, &dl);
            push_lit(s, "],\"gaps\":[");
            let gl = nums_list(gaps);
            push_joined(s, &gl);
            push_lit(s, "]}");
        },
    }
    assert(final(s)@ =~= old(s)@ + seq_json_text(sf, present, lo, hi, contiguous, dups@, gaps@));
}

fn push_txn_json(s: &mut String, st: &PostState, p: &PostingProfile, tdups: &Vec<String>)
    requires
        strs_view(tdups@) == txn_dups(post_view(*st).txn_values),
    ensures
        final(s)@ == old(s)@ + txn_json(post_view(*st), *p),
{
    match p.txn_id_field {
        None => {},
        Some(tf) => {
            push_lit(s, ",\"transaction_id\":{\"field\":");
            push_js(s, tf);
            push_lit(s, ",\"duplicates\":[");
            let tl = js_list(tdups);
            push_joined(s, &tl);
            push_lit(s, "]}");
        },
    }
    assert(final(s)@ =~= old(s)@ + txn_json(post_view(*st), *p));
}

#[verifier::rlimit(60)]
fn manifest_exec(
    data: &[u8],
    st: &PostState,
    p: &PostingProfile,
    present: bool,
    lo: u64,
    hi: u64,
    dups: &Vec<u64>,
    gaps: &Vec<u64>,
    tdups: &Vec<String>,
) -> (s: String)
    requires
        present == (st.seq_values@.len() > 0),
        present ==> lo == seq_min(st.seq_values@) && hi == seq_max(st.seq_values@),
        dups@ == seq_dups(post_view(*st)),
        gaps@ == seq_gaps(post_view(*st), *p),
        strs_view(tdups@) == txn_dups(post_view(*st).txn_values),
    ensures
        s@ == posting_manifest_json(data@, post_view(*st), *p),
{
    let mut s = String::new();
    push_lit(&mut s, "{\"schema\":\"kobold-posting-unit-manifest-v1\",\"posting_unit_id\":");
    push_js(&mut s, p.posting_unit_id);
    push_lit(&mut s, ",\"business_date\":");
    push_js(&mut s, p.business_date);
    push_lit(&mut s, ",\"extract_time_utc\":");
    push_js(&mut s, p.extract_time_utc);
    push_lit(&mut s, ",\"source_system\":");
    push_js(&mut s, p.source_system);
    push_lit(&mut s, ",\"file_hash\":");
    let h = sha256_hex(data);
    push_js(&mut s, h.as_str());
    push_lit(&mut s, ",\"record_count\":");
    push_usize(&mut s, st.count);
    push_seq_json(&mut s, p.sequence_field, present, lo, hi, p.sequence_contiguous, dups, gaps);
    assert(seq_json_text(p.sequence_field, present, lo, hi, p.sequence_contiguous, dups@, gaps@) == seq_json(post_view(*st), *p));
    push_txn_json(&mut s, st, p, tdups);
    push_lit(&mut s, ",\"record_order_hash_chain\":{\"algorithm\":\"sha256\",\"first_record_hash\":");
    push_js(&mut s, st.first_hash.as_str());
    push_lit(&mut s, ",\"last_chain_hash\":");
    push_js(&mut s, st.chain.as_str());
    push_lit(
        &mut s,
        "},\"truth_layers\":{\"posting_truth\":{\"claimed\":false},\"ledger_truth\":{\"claimed\":false},\"business_truth\":{\"claimed\":false}}}",
    );
    assert(s@ =~= posting_manifest_json(data@, post_view(*st), *p));
    s
}

/// Build a declared posting-unit custody manifest over a fixed-record buffer: the hash chain over
/// record order, sequence min/max/duplicates/(gaps), and duplicate transaction ids.
#[verifier::rlimit(60)]
pub fn posting_manifest(cb: &Copybook, data: &[u8], record_len: usize, profile: &PostingProfile, encoding: Encoding) -> (r: Result<
    PostingManifest,
    ShimError,
>)
    ensures
        match r {
            Ok(m) => posting_spec(*cb, data@, record_len, *profile, encoding) == Ok::<PostingView, ShimErrorView>(
                PostingView {
                    manifest: m.manifest_json@,
                    casefile: m.casefile_json@,
                    record_count: m.record_count as nat,
                    seq_duplicates: m.seq_duplicates@,
                    seq_gaps: m.seq_gaps@,
                    txn_duplicates: strs_view(m.txn_duplicates@),
                    last_chain_hash: m.last_chain_hash@,
                    findings: pairs_view(m.findings@),
                    file_hash: m.file_hash@,
                    seq_min: m.seq_min,
                    seq_max: m.seq_max,
                },
            ),
            Err(e) => posting_spec(*cb, data@, record_len, *profile, encoding) == Err::<PostingView, ShimErrorView>(
                shim_error_view(e),
            ),
        },
{
    if record_len == 0 {
        return Err(ShimError::Layout(String::from_str("record_len must be > 0")));
    }
    if profile.posting_unit_id.unicode_len() == 0 {
        return Err(ShimError::BadItem(String::from_str("posting_unit_id is required")));
    }
    let ghost n = record_len as nat;
    let ghost chunks = chunks_spec(data@, n);
    let mut st = PostState {
        count: 0,
        first_hash: String::new(),
        chain: String::new(),
        seq_values: Vec::new(),
        txn_values: Vec::new(),
        findings: Vec::new(),
    };
    assert(post_view(st) == post_fold(chunks, *cb, *profile, encoding, 0)) by {
        assert(strs_view(st.txn_values@) =~= seq![]);
        assert(pairs_view(st.findings@) =~= seq![]);
        assert(st.seq_values@ =~= seq![]);
    }
    let mut off: usize = 0;
    let mut idx: usize = 0;
    assert(data@.skip(0) =~= data@);
    assert(chunks.skip(0) =~= chunks);
    while off < data.len()
        invariant
            off <= data@.len(),
            record_len > 0,
            n == record_len as nat,
            chunks == chunks_spec(data@, n),
            idx <= chunks.len(),
            idx <= off,
            st.count == idx,
            chunks_spec(data@.skip(off as int), n) == chunks.skip(idx as int),
            post_fold(chunks, *cb, *profile, encoding, idx as nat) == post_view(st),
        decreases data@.len() - off,
    {
        let end = if data.len() - off <= record_len { data.len() } else { off + record_len };
        proof {
            lemma_chunks_step(data@, n, off as int);
            lemma_skip_head(chunks, idx as int, data@.subrange(off as int, end as int), chunks_spec(data@.skip(end as int), n));
        }
        let rec = vstd::slice::slice_subrange(data, off, end);
        post_one(&mut st, idx, rec, cb, profile, encoding);
        off = end;
        idx += 1;
    }
    assert(data@.skip(off as int).len() == 0);
    assert(chunks_spec(data@.skip(off as int), n) =~= seq![]);
    assert(idx == chunks.len());
    let ghost acc = post_view(st);
    let present = st.seq_values.len() > 0;
    let (lo, hi) = if present { min_max(&st.seq_values) } else { (0, 0) };
    let dups = sorted_dups(&st.seq_values);
    let gaps = if profile.sequence_contiguous && present {
        sorted_gaps(&st.seq_values, lo, hi)
    } else {
        Vec::new()
    };
    assert(gaps@ == seq_gaps(acc, *profile));
    let tdups = txn_dups_exec(&st.txn_values);
    let manifest_json = manifest_exec(data, &st, profile, present, lo, hi, &dups, &gaps, &tdups);
    let mut findings = Vec::new();
    std::mem::swap(&mut findings, &mut st.findings);
    let ghost fb = pairs_view(findings@);
    if dups.len() > 0 {
        let mut m = String::from_str("duplicate sequence value(s): ");
        let d = debug_u64s_exec(&dups);
        m.append(d.as_str());
        let ghost b = pairs_view(findings@);
        findings.push((String::from_str("KOBOLD-POSTING-DUPLICATE-SEQUENCE"), m));
        assert(pairs_view(findings@) =~= b.push(("KOBOLD-POSTING-DUPLICATE-SEQUENCE"@, m@)));
    }
    let ghost f1 = pairs_view(findings@);
    if gaps.len() > 0 {
        let mut m = String::from_str("missing sequence value(s) in a declared-contiguous unit: ");
        let d = debug_u64s_exec(&gaps);
        m.append(d.as_str());
        let ghost b = pairs_view(findings@);
        findings.push((String::from_str("KOBOLD-POSTING-SEQUENCE-GAP"), m));
        assert(pairs_view(findings@) =~= b.push(("KOBOLD-POSTING-SEQUENCE-GAP"@, m@)));
    }
    let ghost f2 = pairs_view(findings@);
    if tdups.len() > 0 {
        let mut m = String::from_str("duplicate transaction id(s): ");
        let d = debug_strs_exec(&tdups);
        m.append(d.as_str());
        let ghost b = pairs_view(findings@);
        findings.push((String::from_str("KOBOLD-POSTING-DUPLICATE-TXN-ID"), m));
        assert(pairs_view(findings@) =~= b.push(("KOBOLD-POSTING-DUPLICATE-TXN-ID"@, m@)));
    }
    assert(pairs_view(findings@) =~= post_findings(acc, *profile));
    let fl = findings_list(&findings);
    let mut casefile_json = String::new();
    push_lit(&mut casefile_json, "{\"schema\":\"kobold-posting-forensic-casefile-v1\",\"court\":\"KOBOLD.POSTING.1\",\"manifest\":");
    casefile_json.append(manifest_json.as_str());
    push_lit(&mut casefile_json, ",\"findings\":[");
    push_joined(&mut casefile_json, &fl);
    push_lit(
        &mut casefile_json,
        "],\"negative_capabilities\":[\"NEG.POSTING.UNIT\",\"NEG.POSTING.LEDGER_ACCEPTANCE\",\"NEG.POSTING.SETTLEMENT_FINALITY\",\"NEG.POSTING.ACCOUNT_BALANCE_TRUTH\",\"NEG.POSTING.SEQUENCE_CONTIGUITY_UNDECLARED\",\"NEG.POSTING.DUPLICATE_NOT_BUSINESS_DUPLICATE\",\"NEG.CURRENTNESS\"]}\n",
    );
    assert(casefile_json@ =~= posting_casefile_json(manifest_json@, pairs_view(findings@)));
    let last_chain_hash = st.chain;
    let file_hash = sha256_hex(data);
    let (seq_min_v, seq_max_v) = if present { (Some(lo), Some(hi)) } else { (None, None) };
    Ok(PostingManifest {
        manifest_json,
        casefile_json,
        record_count: st.count,
        seq_duplicates: dups,
        seq_gaps: gaps,
        txn_duplicates: tdups,
        last_chain_hash,
        findings,
        file_hash,
        seq_min: seq_min_v,
        seq_max: seq_max_v,
    })
}

/// The hash chain over the first `n` records in order: the first link is the hash of the first
/// record, each later link the hash of the previous link's text followed by the record's bytes.
pub open spec fn chain_of(chunks: Seq<Seq<u8>>, n: nat) -> Seq<char>
    decreases n,
{
    if n == 0 || n > chunks.len() {
        seq![]
    } else if n == 1 {
        spec_sha256_hex(chunks[0])
    } else {
        spec_sha256_hex(encode_utf8(chain_of(chunks, (n - 1) as nat)) + chunks[n - 1])
    }
}

proof fn lemma_fold_chain(chunks: Seq<Seq<u8>>, cb: Copybook, p: PostingProfile, enc: Encoding, n: nat)
    requires
        n <= chunks.len(),
    ensures
        post_fold(chunks, cb, p, enc, n).chain == chain_of(chunks, n),
        post_fold(chunks, cb, p, enc, n).count == n,
    decreases n,
{
    if n > 0 {
        lemma_fold_chain(chunks, cb, p, enc, (n - 1) as nat);
    }
}

/// A buffer cut into records of `n` bytes gives as many records as `n` goes into its length,
/// rounded up (the last record may be short).
pub proof fn lemma_chunk_count(data: Seq<u8>, n: nat)
    requires
        n > 0,
    ensures
        chunks_spec(data, n).len() == (data.len() + n - 1) / (n as int),
    decreases data.len(),
{
    if data.len() == 0 {
        vstd::arithmetic::div_mod::lemma_fundamental_div_mod_converse(n - 1, n as int, 0, n - 1);
    } else if data.len() <= n {
        vstd::arithmetic::div_mod::lemma_fundamental_div_mod_converse(
            data.len() + n - 1,
            n as int,
            1,
            data.len() - 1,
        );
    } else {
        let rest = data.skip(n as int);
        lemma_chunk_count(rest, n);
        vstd::arithmetic::div_mod::lemma_div_plus_one(rest.len() + n - 1, n as int);
        assert(n + (rest.len() + n - 1) == data.len() + n - 1);
    }
}

/// Custody counts every fixed record, the short last one included, and its last chain hash is
/// the hash chain over the records in their order; the chain of an empty buffer is empty.
pub proof fn lemma_posting_chain(cb: Copybook, data: Seq<u8>, record_len: usize, p: PostingProfile, enc: Encoding)
    requires
        record_len > 0,
        p.posting_unit_id@.len() > 0,
    ensures
        posting_spec(cb, data, record_len, p, enc) is Ok,
        ({
            let v = posting_spec(cb, data, record_len, p, enc)->Ok_0;
            let chunks = chunks_spec(data, record_len as nat);
            &&& v.record_count == chunks.len()
            &&& v.record_count == (data.len() + record_len - 1) / (record_len as int)
            &&& v.last_chain_hash == chain_of(chunks, chunks.len())
            &&& (data.len() == 0 ==> v.record_count == 0 && v.last_chain_hash.len() == 0)
        }),
{
    let chunks = chunks_spec(data, record_len as nat);
    lemma_fold_chain(chunks, cb, p, enc, chunks.len());
    lemma_chunk_count(data, record_len as nat);
}

/// The sequence value of one record: its declared sequence field, trimmed and read as an
/// unsigned 64-bit number; none where no field is declared, found or numeric.
pub open spec fn seq_value_of(cb: Copybook, rec: Seq<u8>, p: PostingProfile, enc: Encoding) -> Option<u64> {
    match p.sequence_field {
        None => None,
        Some(sf) => match field_value(cb, rec, sf@, enc) {
            Some(v) => match parse_unsigned(trim_ws(v), u64::MAX as nat) {
                Some(n) => Some(n as u64),
                None => None,
            },
            None => None,
        },
    }
}

/// The transaction id of one record: its declared id field, trimmed.
pub open spec fn txn_value_of(cb: Copybook, rec: Seq<u8>, p: PostingProfile, enc: Encoding) -> Option<Seq<char>> {
    match p.txn_id_field {
        None => None,
        Some(tf) => match field_value(cb, rec, tf@, enc) {
            Some(v) => Some(trim_ws(v)),
            None => None,
        },
    }
}

pub open spec fn opt_seq<T>(o: Option<T>) -> Seq<T> {
    match o {
        Some(x) => seq![x],
        None => seq![],
    }
}

/// The sequence values of the first `n` records, in record order, skipping records that have none.
pub open spec fn seq_values_of(chunks: Seq<Seq<u8>>, cb: Copybook, p: PostingProfile, enc: Encoding, n: nat) -> Seq<u64>
    decreases n,
{
    if n == 0 || n > chunks.len() {
        seq![]
    } else {
        seq_values_of(chunks, cb, p, enc, (n - 1) as nat) + opt_seq(seq_value_of(cb, chunks[n - 1], p, enc))
    }
}

/// The transaction ids of the first `n` records, in record order, skipping records that have none.
pub open spec fn txn_values_of(chunks: Seq<Seq<u8>>, cb: Copybook, p: PostingProfile, enc: Encoding, n: nat) -> Seq<Seq<char>>
    decreases n,
{
    if n == 0 || n > chunks.len() {
        seq![]
    } else {
        txn_values_of(chunks, cb, p, enc, (n - 1) as nat) + opt_seq(txn_value_of(cb, chunks[n - 1], p, enc))
    }
}

pub open spec fn has_rule(f: Seq<(Seq<char>, Seq<char>)>, rule: Seq<char>) -> bool {
    exists|i: int| 0 <= i < f.len() && f[i].0 == rule
}

proof fn lemma_fold_values(chunks: Seq<Seq<u8>>, cb: Copybook, p: PostingProfile, enc: Encoding, n: nat)
    requires
        n <= chunks.len(),
    ensures
        post_fold(chunks, cb, p, enc, n).seq_values == seq_values_of(chunks, cb, p, enc, n),
        post_fold(chunks, cb, p, enc, n).txn_values == txn_values_of(chunks, cb, p, enc, n),
        forall|i: int|
            0 <= i < post_fold(chunks, cb, p, enc, n).findings.len() ==> {
                let r = #[trigger] post_fold(chunks, cb, p, enc, n).findings[i].0;
                r == "KOBOLD-POSTING-DIRTY-SEQUENCE"@ || r == "KOBOLD-POSTING-NO-SEQUENCE"@
            },
    decreases n,
{
    if n > 0 {
        let k = (n - 1) as nat;
        lemma_fold_values(chunks, cb, p, enc, k);
        let a = post_fold(chunks, cb, p, enc, k);
        let c = chunks[k as int];
        assert(a.seq_values + opt_seq(seq_value_of(cb, c, p, enc)) =~= post_fold(chunks, cb, p, enc, n).seq_values);
        assert(a.txn_values + opt_seq(txn_value_of(cb, c, p, enc)) =~= post_fold(chunks, cb, p, enc, n).txn_values);
    }
}

spec fn below(set: Set<u64>, k: nat) -> Seq<u64>
    decreases k,
{
    if k == 0 {
        seq![]
    } else {
        below(set, (k - 1) as nat) + if set.contains((k - 1) as u64) {
            seq![(k - 1) as u64]
        } else {
            seq![]
        }
    }
}

proof fn lemma_below(set: Set<u64>, k: nat)
    requires
        k <= u64::MAX as nat + 1,
    ensures
        strictly_increasing(below(set, k)),
        forall|x: u64| below(set, k).contains(x) <==> (set.contains(x) && (x as nat) < k),
        forall|i: int| 0 <= i < below(set, k).len() ==> (below(set, k)[i] as nat) < k,
    decreases k,
{
    if k > 0 {
        let j = (k - 1) as nat;
        lemma_below(set, j);
        let a = below(set, j);
        let b = below(set, k);
        if set.contains(j as u64) {
            assert(b == a.push(j as u64));
            assert forall|x: u64| b.contains(x) <==> (set.contains(x) && (x as nat) < k) by {
                if b.contains(x) {
                    let i = choose|i: int| 0 <= i < b.len() && b[i] == x;
                    if i < a.len() {
                        assert(a[i] == x);
                        assert(a.contains(x));
                    }
                }
                if set.contains(x) && (x as nat) < k && x as nat != j {
                    assert(a.contains(x));
                    let i = choose|i: int| 0 <= i < a.len() && a[i] == x;
                    assert(b[i] == x);
                }
                if x as nat == j {
                    assert(b[a.len() as int] == x);
                }
            }
        } else {
            assert(b =~= a);
        }
    }
}

/// Every set of values has its ascending enumeration.
proof fn lemma_sorted_exists(set: Set<u64>)
    ensures
        strictly_increasing(sorted_of(set)),
        forall|x: u64| sorted_of(set).contains(x) <==> set.contains(x),
{
    lemma_below(set, u64::MAX as nat + 1);
    lemma_sorted_of(below(set, u64::MAX as nat + 1), set);
}

proof fn lemma_rules_differ()
    ensures
        "KOBOLD-POSTING-DIRTY-SEQUENCE"@ != "KOBOLD-POSTING-DUPLICATE-SEQUENCE"@,
        "KOBOLD-POSTING-NO-SEQUENCE"@ != "KOBOLD-POSTING-DUPLICATE-SEQUENCE"@,
        "KOBOLD-POSTING-DIRTY-SEQUENCE"@ != "KOBOLD-POSTING-SEQUENCE-GAP"@,
        "KOBOLD-POSTING-NO-SEQUENCE"@ != "KOBOLD-POSTING-SEQUENCE-GAP"@,
        "KOBOLD-POSTING-DIRTY-SEQUENCE"@ != "KOBOLD-POSTING-DUPLICATE-TXN-ID"@,
        "KOBOLD-POSTING-NO-SEQUENCE"@ != "KOBOLD-POSTING-DUPLICATE-TXN-ID"@,
        "KOBOLD-POSTING-DUPLICATE-SEQUENCE"@ != "KOBOLD-POSTING-SEQUENCE-GAP"@,
        "KOBOLD-POSTING-DUPLICATE-SEQUENCE"@ != "KOBOLD-POSTING-DUPLICATE-TXN-ID"@,
        "KOBOLD-POSTING-SEQUENCE-GAP"@ != "KOBOLD-POSTING-DUPLICATE-TXN-ID"@,
{
    reveal_strlit("KOBOLD-POSTING-DIRTY-SEQUENCE");
    reveal_strlit("KOBOLD-POSTING-NO-SEQUENCE");
    reveal_strlit("KOBOLD-POSTING-DUPLICATE-SEQUENCE");
    reveal_strlit("KOBOLD-POSTING-SEQUENCE-GAP");
    reveal_strlit("KOBOLD-POSTING-DUPLICATE-TXN-ID");
    assert("KOBOLD-POSTING-DIRTY-SEQUENCE"@[16] != "KOBOLD-POSTING-DUPLICATE-SEQUENCE"@[16]);
    assert("KOBOLD-POSTING-NO-SEQUENCE"@[15] != "KOBOLD-POSTING-DUPLICATE-SEQUENCE"@[15]);
    assert("KOBOLD-POSTING-DIRTY-SEQUENCE"@[15] != "KOBOLD-POSTING-SEQUENCE-GAP"@[15]);
    assert("KOBOLD-POSTING-NO-SEQUENCE"@[15] != "KOBOLD-POSTING-SEQUENCE-GAP"@[15]);
    assert("KOBOLD-POSTING-DIRTY-SEQUENCE"@[16] != "KOBOLD-POSTING-DUPLICATE-TXN-ID"@[16]);
    assert("KOBOLD-POSTING-DUPLICATE-SEQUENCE"@.len() != "KOBOLD-POSTING-DUPLICATE-TXN-ID"@.len());
    assert("KOBOLD-POSTING-NO-SEQUENCE"@[15] != "KOBOLD-POSTING-DUPLICATE-TXN-ID"@[15]);
    assert("KOBOLD-POSTING-DUPLICATE-SEQUENCE"@[15] != "KOBOLD-POSTING-SEQUENCE-GAP"@[15]);
    assert("KOBOLD-POSTING-SEQUENCE-GAP"@[15] != "KOBOLD-POSTING-DUPLICATE-TXN-ID"@[15]);
}

/// Duplicate and gap evidence: with S the records' sequence values and T their transaction ids,
/// in record order, the duplicates are the values occurring at least twice in S, ascending; the
/// gaps, only where contiguity is declared and S is not empty, are the values between the least
/// and greatest of S that S lacks, ascending; the duplicate ids are those of T that repeat, in
/// order of first repetition; and each of the three lists, where not empty, gives its finding.
#[verifier::rlimit(60)]
pub proof fn lemma_posting_evidence(cb: Copybook, data: Seq<u8>, record_len: usize, p: PostingProfile, enc: Encoding)
    requires
        record_len > 0,
        p.posting_unit_id@.len() > 0,
    ensures
        ({
            let v = posting_spec(cb, data, record_len, p, enc)->Ok_0;
            let chunks = chunks_spec(data, record_len as nat);
            let s = seq_values_of(chunks, cb, p, enc, chunks.len());
            let t = txn_values_of(chunks, cb, p, enc, chunks.len());
            &&& strictly_increasing(v.seq_duplicates)
            &&& forall|x: u64| v.seq_duplicates.contains(x) <==> occurrences(s, x) >= 2
            &&& strictly_increasing(v.seq_gaps)
            &&& (!p.sequence_contiguous || s.len() == 0 ==> v.seq_gaps.len() == 0)
            &&& (p.sequence_contiguous && s.len() > 0 ==> forall|x: u64|
                v.seq_gaps.contains(x) <==> (seq_min(s) <= x <= seq_max(s) && !s.contains(x)))
            &&& v.txn_duplicates == txn_dups(t)
            &&& (has_rule(v.findings, "KOBOLD-POSTING-DUPLICATE-SEQUENCE"@) <==> v.seq_duplicates.len() > 0)
            &&& (has_rule(v.findings, "KOBOLD-POSTING-SEQUENCE-GAP"@) <==> v.seq_gaps.len() > 0)
            &&& (has_rule(v.findings, "KOBOLD-POSTING-DUPLICATE-TXN-ID"@) <==> v.txn_duplicates.len() > 0)
        }),
{
    let chunks = chunks_spec(data, record_len as nat);
    let acc = post_fold(chunks, cb, p, enc, chunks.len());
    lemma_fold_values(chunks, cb, p, enc, chunks.len());
    lemma_rules_differ();
    let d = seq_dups(acc);
    let g = seq_gaps(acc, p);
    let t = txn_dups(acc.txn_values);
    lemma_sorted_exists(dup_set(acc.seq_values));
    if p.sequence_contiguous && acc.seq_values.len() > 0 {
        lemma_sorted_exists(gap_set(acc.seq_values));
    }
    let f0 = acc.findings;
    let pd: Seq<(Seq<char>, Seq<char>)> = if d.len() > 0 {
        seq![("KOBOLD-POSTING-DUPLICATE-SEQUENCE"@, "duplicate sequence value(s): "@ + debug_u64s(d))]
    } else {
        seq![]
    };
    let pg: Seq<(Seq<char>, Seq<char>)> = if g.len() > 0 {
        seq![("KOBOLD-POSTING-SEQUENCE-GAP"@, "missing sequence value(s) in a declared-contiguous unit: "@ + debug_u64s(g))]
    } else {
        seq![]
    };
    let pt: Seq<(Seq<char>, Seq<char>)> = if t.len() > 0 {
        seq![("KOBOLD-POSTING-DUPLICATE-TXN-ID"@, "duplicate transaction id(s): "@ + debug_strs(t))]
    } else {
        seq![]
    };
    let f = post_findings(acc, p);
    assert(f == f0 + pd + pg + pt);
    let n0: int = f0.len() as int;
    if d.len() > 0 {
        assert(f[n0].0 == "KOBOLD-POSTING-DUPLICATE-SEQUENCE"@);
    }
    if g.len() > 0 {
        assert(f[n0 + pd.len() as int].0 == "KOBOLD-POSTING-SEQUENCE-GAP"@);
    }
    if t.len() > 0 {
        assert(f[n0 + pd.len() as int + pg.len() as int].0 == "KOBOLD-POSTING-DUPLICATE-TXN-ID"@);
    }
    assert forall|i: int| 0 <= i < f.len() implies {
        let r = #[trigger] f[i].0;
        &&& (r == "KOBOLD-POSTING-DUPLICATE-SEQUENCE"@ ==> d.len() > 0)
        &&& (r == "KOBOLD-POSTING-SEQUENCE-GAP"@ ==> g.len() > 0)
        &&& (r == "KOBOLD-POSTING-DUPLICATE-TXN-ID"@ ==> t.len() > 0)
    } by {
        if i < n0 {
            assert(f[i] == f0[i]);
        } else if i < n0 + pd.len() {
            assert(f[i] == pd[i - n0]);
        } else if i < n0 + pd.len() + pg.len() {
            assert(f[i] == pg[i - n0 - pd.len()]);
        } else {
            assert(f[i] == pt[i - n0 - pd.len() - pg.len()]);
        }
    }
    let v = posting_spec(cb, data, record_len, p, enc)->Ok_0;
    assert(v.seq_duplicates == d);
    assert(v.seq_gaps == g);
    assert(v.txn_duplicates == t);
    assert(v.findings == f);
    assert(has_rule(v.findings, "KOBOLD-POSTING-DUPLICATE-SEQUENCE"@) <==> d.len() > 0);
    assert(has_rule(v.findings, "KOBOLD-POSTING-SEQUENCE-GAP"@) <==> g.len() > 0);
    assert(has_rule(v.findings, "KOBOLD-POSTING-DUPLICATE-TXN-ID"@) <==> t.len() > 0);
    let sv = acc.seq_values;
    assert(strictly_increasing(d));
    assert forall|x: u64| d.contains(x) <==> occurrences(sv, x) >= 2 by {
        assert(dup_set(sv).contains(x) <==> occurrences(sv, x) >= 2);
    }
    if p.sequence_contiguous && sv.len() > 0 {
        assert forall|x: u64| g.contains(x) <==> (seq_min(sv) <= x <= seq_max(sv) && !sv.contains(x)) by {
            assert(gap_set(sv).contains(x) <==> (seq_min(sv) <= x <= seq_max(sv) && !sv.contains(x)));
        }
    } else {
        assert(g.len() == 0);
    }
    assert(strictly_increasing(g));
}

} // verus!
