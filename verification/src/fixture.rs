//! Named, replayable fixtures for the decode courts.
//!
//! A fixture may prove that one input/copybook/profile combination produces the expected verdict,
//! findings, hashes and non-claims; conformance to any standard, language parity, certification,
//! oracle authority and business truth stay non-claims. Replay is honest: the caller runs the named
//! court, wraps its real outcome in a [`FixtureOutcome`], and [`replay_fixture`] compares actual
//! against expected, so a wrong expectation fails. Negative fixtures must carry non-claims.
use crate::diff::{id_set, id_set_exec, seqs_equal};
use crate::posting::{debug_strs, debug_strs_exec};
use crate::sha256::{sha256_hex, spec_sha256_hex};
use crate::text::{bool_text, join_comma, js, lemma_strs_push, push_bool, push_joined, push_js, push_lit, strs_view};
use vstd::prelude::*;

verus! {

/// A replayable fixture verdict. The negative verdicts are first-class.
#[derive(Debug, Clone, Copy, PartialEq, Eq, Structural)]
pub enum FixtureVerdict {
    /// The court accepted the input cleanly (no findings).
    Pass,
    /// The court refused or failed closed on a hostile or undeclared input.
    FailClosed,
    /// The court reported a declared-vs-observed mismatch.
    Mismatch,
    /// The input is outside the sealed subset and was refused as unsupported.
    Refused,
}

pub open spec fn verdict_text(v: FixtureVerdict) -> Seq<char> {
    match v {
        FixtureVerdict::Pass => "pass"@,
        FixtureVerdict::FailClosed => "fail_closed"@,
        FixtureVerdict::Mismatch => "mismatch"@,
        FixtureVerdict::Refused => "refused"@,
    }
}

pub fn verdict_str(v: FixtureVerdict) -> (r: &'static str)
    ensures
        r@ == verdict_text(v),
{
    match v {
        FixtureVerdict::Pass => "pass",
        FixtureVerdict::FailClosed => "fail_closed",
        FixtureVerdict::Mismatch => "mismatch",
        FixtureVerdict::Refused => "refused",
    }
}

/// A named, replayable fixture: declared inputs and the expected outcome.
pub struct Fixture<'a> {
    pub fixture_id: &'a str,
    pub court: &'a str,
    pub description: &'a str,
    pub copybook: &'a str,
    pub record: &'a [u8],
    /// An optional declared profile reference, bound by hash when not empty.
    pub profile: &'a str,
    pub expected_verdict: FixtureVerdict,
    pub expected_findings: &'a [&'a str],
    pub expected_non_claims: &'a [&'a str],
}

/// The actual outcome the caller captured by running the named court on the fixture inputs.
pub struct FixtureOutcome {
    pub verdict: FixtureVerdict,
    pub findings: Vec<String>,
}

/// The replay result: whether the actual outcome matched the expectation.
pub struct FixtureResult {
    pub matched: bool,
    pub fixture_json: String,
    pub mismatches: Vec<String>,
}

pub struct FixtureView {
    pub fixture_id: Seq<char>,
    pub court: Seq<char>,
    pub description: Seq<char>,
    pub copybook: Seq<char>,
    pub record: Seq<u8>,
    pub profile: Seq<char>,
    pub expected_verdict: FixtureVerdict,
    pub expected_findings: Seq<Seq<char>>,
    pub expected_non_claims: Seq<Seq<char>>,
}

pub open spec fn strs_of(v: Seq<&str>) -> Seq<Seq<char>> {
    v.map_values(|s: &str| s@)
}

pub open spec fn fixture_view(f: Fixture) -> FixtureView {
    FixtureView {
        fixture_id: f.fixture_id@,
        court: f.court@,
        description: f.description@,
        copybook: f.copybook@,
        record: f.record@,
        profile: f.profile@,
        expected_verdict: f.expected_verdict,
        expected_findings: strs_of(f.expected_findings@),
        expected_non_claims: strs_of(f.expected_non_claims@),
    }
}

/// Why the actual outcome does not match the fixture: a different verdict, a different set of
/// findings, or a negative fixture without non-claims.
pub open spec fn mismatches_spec(fx: FixtureView, verdict: FixtureVerdict, findings: Seq<Seq<char>>) -> Seq<Seq<char>> {
    (if fx.expected_verdict != verdict {
        seq![
            "KOBOLD-NIST-FIXTURE-VERDICT-MISMATCH: expected "@ + verdict_text(fx.expected_verdict) + ", actual "@ + verdict_text(
                verdict,
            ),
        ]
    } else {
        Seq::<Seq<char>>::empty()
    }) + (if id_set(fx.expected_findings) != id_set(findings) {
        seq![
            "KOBOLD-NIST-FIXTURE-FINDING-MISMATCH: expected "@ + debug_strs(fx.expected_findings) + ", actual "@ + debug_strs(
                findings,
            ),
        ]
    } else {
        Seq::<Seq<char>>::empty()
    }) + (if fx.expected_verdict != FixtureVerdict::Pass && fx.expected_non_claims.len() == 0 {
        seq!["KOBOLD-NIST-FIXTURE-NON-CLAIM-REQUIRED: a fail-closed/mismatch fixture must declare non-claims"@]
    } else {
        Seq::<Seq<char>>::empty()
    })
}

pub open spec fn arr(v: Seq<Seq<char>>) -> Seq<char> {
    join_comma(v.map_values(|s: Seq<char>| js(s)))
}

pub const FIXTURE_NEGATIVES: &'static str = "],\"negative_capabilities\":[\"NEG.FIXTURE.NOT_NIST_CONFORMANCE\",\"NEG.FIXTURE.NOT_LANGUAGE_SUITE\",\"NEG.FIXTURE.NOT_CERTIFICATION\",\"NEG.FIXTURE.EXPECTED_NOT_ORACLE\",\"NEG.FIXTURE.PASS_NOT_BUSINESS_TRUTH\",\"NEG.FIXTURE.SYNTHETIC_NOT_CUSTOMER_DATA\"]}\n";

pub open spec fn bytes_of(s: Seq<char>) -> Seq<u8> {
    vstd::utf8::encode_utf8(s)
}

/// The `kobold-fixture-v1` evidence of a replay.
pub open spec fn fixture_json_spec(fx: FixtureView, verdict: FixtureVerdict, findings: Seq<Seq<char>>) -> Seq<char> {
    let ms = mismatches_spec(fx, verdict, findings);
    "{\"schema\":\"kobold-fixture-v1\",\"court\":\"NIST-STYLE-FIXTURE-FORMAT.1\",\"fixture_id\":"@ + js(fx.fixture_id)
        + ",\"target_court\":"@ + js(fx.court) + ",\"description\":"@ + js(fx.description)
        + ",\"nist_conformance\":false,\"target_court_casefile\":"@ + js("reports/casefiles/"@ + fx.court + "/casefile.json"@)
        + ",\"inputs\":{\"copybook_sha256\":"@ + js(spec_sha256_hex(bytes_of(fx.copybook))) + ",\"record_sha256\":"@ + js(
        spec_sha256_hex(fx.record),
    ) + ",\"profile\":"@ + (if fx.profile.len() == 0 {
        "null"@
    } else {
        js(spec_sha256_hex(bytes_of(fx.profile)))
    }) + "},\"expected\":{\"verdict\":"@ + js(verdict_text(fx.expected_verdict)) + ",\"findings\":["@ + arr(
        fx.expected_findings,
    ) + "],\"non_claims\":["@ + arr(fx.expected_non_claims) + "]},\"actual\":{\"verdict\":"@ + js(verdict_text(verdict))
        + ",\"findings\":["@ + arr(findings) + "]},\"matched\":"@ + bool_text(ms.len() == 0) + ",\"mismatches\":["@ + arr(ms)
        + FIXTURE_NEGATIVES@
}

fn owned_strs(v: &[&str]) -> (r: Vec<String>)
    ensures
        strs_view(r@) == strs_of(v@),
{
    let mut out: Vec<String> = Vec::new();
    let mut i: usize = 0;
    while i < v.len()
        invariant
            i <= v@.len(),
            strs_view(out@) == strs_of(v@).take(i as int),
        decreases v@.len() - i,
    {
        let s = String::from_str(v[i]);
        proof {
            lemma_strs_push(out@, s);
        }
        out.push(s);
        assert(strs_of(v@).take(i + 1) =~= strs_of(v@).take(i as int).push(s@));
        i += 1;
    }
    assert(strs_of(v@).take(i as int) =~= strs_of(v@));
    out
}

fn push_arr(o: &mut String, v: &Vec<String>)
    ensures
        final(o)@ == old(o)@ + arr(strs_view(v@)),
{
    let ghost want = strs_view(v@).map_values(|s: Seq<char>| js(s));
    let mut q: Vec<String> = Vec::new();
    let mut i: usize = 0;
    while i < v.len()
        invariant
            i <= v@.len(),
            want == strs_view(v@).map_values(|s: Seq<char>| js(s)),
            strs_view(q@) == want.take(i as int),
        decreases v@.len() - i,
    {
        let mut s = String::new();
        push_js(&mut s, v[i].as_str());
        proof {
            lemma_strs_push(q@, s);
        }
        q.push(s);
        assert(want.take(i + 1) =~= want.take(i as int).push(s@));
        i += 1;
    }
    assert(want.take(i as int) =~= want);
    push_joined(o, &q);
}

/// Replay a fixture: compare a court's actual outcome with the fixture's declared expectation and
/// emit the `kobold-fixture-v1` evidence. A negative fixture without non-claims fails.
#[verifier::rlimit(40)]
pub fn replay_fixture(fx: &Fixture, actual: &FixtureOutcome) -> (r: FixtureResult)
    ensures
        strs_view(r.mismatches@) == mismatches_spec(fixture_view(*fx), actual.verdict, strs_view(actual.findings@)),
        r.matched == (r.mismatches@.len() == 0),
        r.fixture_json@ == fixture_json_spec(fixture_view(*fx), actual.verdict, strs_view(actual.findings@)),
{
    let ghost fv = fixture_view(*fx);
    let exp_find = owned_strs(fx.expected_findings);
    let exp_nc = owned_strs(fx.expected_non_claims);
    let mut mismatches: Vec<String> = Vec::new();
    if fx.expected_verdict != actual.verdict {
        let mut m = String::new();
        push_lit(&mut m, "KOBOLD-NIST-FIXTURE-VERDICT-MISMATCH: expected ");
        push_lit(&mut m, verdict_str(fx.expected_verdict));
        push_lit(&mut m, ", actual ");
        push_lit(&mut m, verdict_str(actual.verdict));
        proof {
            lemma_strs_push(mismatches@, m);
        }
        mismatches.push(m);
    }
    let ghost m1 = strs_view(mismatches@);
    let es = id_set_exec(&exp_find);
    let acts = id_set_exec(&actual.findings);
    if !seqs_equal(&es, &acts) {
        let mut m = String::new();
        push_lit(&mut m, "KOBOLD-NIST-FIXTURE-FINDING-MISMATCH: expected ");
        let d1 = debug_strs_exec(&exp_find);
        m.append(d1.as_str());
        push_lit(&mut m, ", actual ");
        let d2 = debug_strs_exec(&actual.findings);
        m.append(d2.as_str());
        proof {
            lemma_strs_push(mismatches@, m);
        }
        mismatches.push(m);
    }
    let ghost m2 = strs_view(mismatches@);
    if fx.expected_verdict != FixtureVerdict::Pass && fx.expected_non_claims.len() == 0 {
        let m = String::from_str("KOBOLD-NIST-FIXTURE-NON-CLAIM-REQUIRED: a fail-closed/mismatch fixture must declare non-claims");
        proof {
            lemma_strs_push(mismatches@, m);
        }
        mismatches.push(m);
    }
    assert(strs_view(mismatches@) =~= mismatches_spec(fv, actual.verdict, strs_view(actual.findings@)));
    let matched = mismatches.len() == 0;
    let mut path = String::new();
    push_lit(&mut path, "reports/casefiles/");
    path.append(fx.court);
    push_lit(&mut path, "/casefile.json");
    let cb_sha = sha256_hex(fx.copybook.as_bytes());
    let rec_sha = sha256_hex(fx.record);
    let mut o = String::new();
    push_lit(&mut o, "{\"schema\":\"kobold-fixture-v1\",\"court\":\"NIST-STYLE-FIXTURE-FORMAT.1\",\"fixture_id\":");
    push_js(&mut o, fx.fixture_id);
    push_lit(&mut o, ",\"target_court\":");
    push_js(&mut o, fx.court);
    push_lit(&mut o, ",\"description\":");
    push_js(&mut o, fx.description);
    push_lit(&mut o, ",\"nist_conformance\":false,\"target_court_casefile\":");
    push_js(&mut o, path.as_str());
    push_lit(&mut o, ",\"inputs\":{\"copybook_sha256\":");
    push_js(&mut o, cb_sha.as_str());
    push_lit(&mut o, ",\"record_sha256\":");
    push_js(&mut o, rec_sha.as_str());
    push_lit(&mut o, ",\"profile\":");
    if fx.profile.unicode_len() == 0 {
        push_lit(&mut o, "null");
    } else {
        let ps = sha256_hex(fx.profile.as_bytes());
        push_js(&mut o, ps.as_str());
    }
    push_lit(&mut o, "},\"expected\":{\"verdict\":");
    push_js(&mut o, verdict_str(fx.expected_verdict));
    push_lit(&mut o, ",\"findings\":[");
    push_arr(&mut o, &exp_find);
    push_lit(&mut o, "],\"non_claims\":[");
    push_arr(&mut o, &exp_nc);
    push_lit(&mut o, "]},\"actual\":{\"verdict\":");
    push_js(&mut o, verdict_str(actual.verdict));
    push_lit(&mut o, ",\"findings\":[");
    push_arr(&mut o, &actual.findings);
    push_lit(&mut o, "]},\"matched\":");
    push_bool(&mut o, matched);
    push_lit(&mut o, ",\"mismatches\":[");
    push_arr(&mut o, &mismatches);
    push_lit(&mut o, FIXTURE_NEGATIVES);
    FixtureResult { matched, fixture_json: o, mismatches }
}

} // verus!
