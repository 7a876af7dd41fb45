//! An operator reconciliation view over existing banking evidence.
//!
//! The view helps operators read the banking control, custody, indicator and privacy evidence;
//! every number is taken from a court result, never recomputed, and each source casefile is pinned
//! by its hash. It introduces no new evidence and claims no posting, ledger, settlement,
//! account-balance or business truth.
use crate::banking::{money, money_spec, pairs_view, BankingResult};
use crate::db2host::{Db2HostResult, NullState};
use crate::posting::{PostingManifest, PostingProfile};
use crate::sha256::{sha256_hex, spec_sha256_hex};
use crate::text::{
    dec_nat, join_comma, js, lemma_strs_push, push_joined, push_js, push_lit, push_u64, push_usize, strs_view, contains_sub, occurs_at, lemma_contains_within, lemma_contains_self, lemma_contains_prefix, lemma_contains_end,
};
use vstd::prelude::*;

verus! {

/// The existing-evidence inputs the view summarizes, each a court output.
pub struct BankReconcileInputs<'a> {
    pub batch: &'a PostingProfile<'a>,
    pub custody: &'a PostingManifest,
    pub banking: &'a BankingResult,
    pub db2: Option<&'a Db2HostResult>,
    pub redacted_field_count: usize,
    pub tokenized_field_count: usize,
    pub dirty_count: usize,
    pub unsupported_count: usize,
    /// Further source casefiles the view is derived from: (court, casefile content).
    pub extra_sources: &'a [(&'a str, &'a str)],
}

/// The generated operator report: JSON, markdown and SARIF, all from the inputs.
pub struct BankReconcileReport {
    pub report_json: String,
    pub report_md: String,
    pub sarif_json: String,
}

/// Everything the view reads from its inputs.
pub struct BRView {
    pub unit_id: Seq<char>,
    pub business_date: Seq<char>,
    pub extract_time: Seq<char>,
    pub source_system: Seq<char>,
    pub file_hash: Seq<char>,
    pub last_chain_hash: Seq<char>,
    pub declared_count: Option<u64>,
    pub observed_count: u64,
    pub declared_debit: Option<i64>,
    pub observed_debit: i64,
    pub declared_credit: Option<i64>,
    pub observed_credit: i64,
    pub unknown_record_types: usize,
    pub unknown_polarity: usize,
    pub balanced: bool,
    pub seq_min: Option<u64>,
    pub seq_max: Option<u64>,
    pub gaps: Seq<u64>,
    pub dups: Seq<u64>,
    pub txn_dups: Seq<Seq<char>>,
    pub db2: Option<(Seq<NullState>, Seq<(Seq<char>, Seq<char>)>, Seq<char>)>,
    pub dirty: usize,
    pub unsupported: usize,
    pub redacted: usize,
    pub tokenized: usize,
    pub bank_findings: Seq<(Seq<char>, Seq<char>)>,
    pub bank_casefile: Seq<char>,
    pub custody_findings: Seq<(Seq<char>, Seq<char>)>,
    pub custody_casefile: Seq<char>,
    pub extra: Seq<(Seq<char>, Seq<char>)>,
}

pub open spec fn br_view(i: BankReconcileInputs) -> BRView {
    let s = i.banking.summary;
    BRView {
        unit_id: i.batch.posting_unit_id@,
        business_date: i.batch.business_date@,
        extract_time: i.batch.extract_time_utc@,
        source_system: i.batch.source_system@,
        file_hash: i.custody.file_hash@,
        last_chain_hash: i.custody.last_chain_hash@,
        declared_count: s.declared_count,
        observed_count: s.observed_count,
        declared_debit: s.declared_debit_cents,
        observed_debit: s.observed_debit_cents,
        declared_credit: s.declared_credit_cents,
        observed_credit: s.observed_credit_cents,
        unknown_record_types: s.unknown_record_type_count,
        unknown_polarity: s.unknown_polarity_count,
        balanced: i.banking.balanced,
        seq_min: i.custody.seq_min,
        seq_max: i.custody.seq_max,
        gaps: i.custody.seq_gaps@,
        dups: i.custody.seq_duplicates@,
        txn_dups: strs_view(i.custody.txn_duplicates@),
        db2: match i.db2 {
            Some(d) => Some((d.states@, pairs_view(d.findings@), d.casefile_json@)),
            None => None,
        },
        dirty: i.dirty_count,
        unsupported: i.unsupported_count,
        redacted: i.redacted_field_count,
        tokenized: i.tokenized_field_count,
        bank_findings: pairs_view(i.banking.findings@),
        bank_casefile: i.banking.casefile_json@,
        custody_findings: pairs_view(i.custody.findings@),
        custody_casefile: i.custody.casefile_json@,
        extra: i.extra_sources@.map_values(|p: (&str, &str)| (p.0@, p.1@)),
    }
}

pub open spec fn count_null(s: Seq<NullState>) -> nat
    decreases s.len(),
{
    if s.len() == 0 {
        0
    } else {
        count_null(s.drop_last()) + if s.last().semantic_null { 1nat } else { 0nat }
    }
}

pub open spec fn count_trunc(s: Seq<NullState>) -> nat
    decreases s.len(),
{
    if s.len() == 0 {
        0
    } else {
        count_trunc(s.drop_last()) + if s.last().truncation_evidence { 1nat } else { 0nat }
    }
}

/// Semantic-null, truncation-evidence and dirty-indicator counts of the indicator evidence.
pub open spec fn db2_counts(v: BRView) -> (nat, nat, nat) {
    db2_counts_of(v.db2)
}

pub open spec fn db2_counts_of(db2: Option<(Seq<NullState>, Seq<(Seq<char>, Seq<char>)>, Seq<char>)>) -> (nat, nat, nat) {
    match db2 {
        Some((states, findings, _)) => (count_null(states), count_trunc(states), findings.len()),
        None => (0, 0, 0),
    }
}

pub open spec fn verdict_text(v: BRView) -> Seq<char> {
    if v.balanced {
        "matched"@
    } else {
        "mismatch"@
    }
}

pub open spec fn opt_u(o: Option<u64>) -> Seq<char> {
    match o {
        Some(n) => dec_nat(n as nat),
        None => "null"@,
    }
}

pub open spec fn opt_cents(o: Option<i64>) -> Seq<char> {
    match o {
        Some(c) => js(money_spec(c as int)),
        None => "null"@,
    }
}

pub open spec fn opt_cents_md(o: Option<i64>) -> Seq<char> {
    match o {
        Some(c) => money_spec(c as int),
        None => "null"@,
    }
}

pub open spec fn nums(v: Seq<u64>) -> Seq<char> {
    join_comma(v.map_values(|n: u64| dec_nat(n as nat)))
}

// ---- SARIF ----

pub open spec fn sarif_entry(f: (Seq<char>, Seq<char>), level: Seq<char>) -> Seq<char> {
    "{\"ruleId\":"@ + js(f.0) + ",\"level\":"@ + js(level) + ",\"message\":{\"text\":"@ + js(f.1) + "}}"@
}

/// The existing findings, banking first (errors), then indicator and custody findings (warnings).
pub open spec fn sarif_results(v: BRView) -> Seq<Seq<char>> {
    v.bank_findings.map_values(|f: (Seq<char>, Seq<char>)| sarif_entry(f, "error"@)) + match v.db2 {
        Some((_, fs, _)) => fs.map_values(|f: (Seq<char>, Seq<char>)| sarif_entry(f, "warning"@)),
        None => Seq::<Seq<char>>::empty(),
    } + v.custody_findings.map_values(|f: (Seq<char>, Seq<char>)| sarif_entry(f, "warning"@))
}

pub const SARIF_HEAD: &'static str = "{\"version\":\"2.1.0\",\"$schema\":\"https://json.schemastore.org/sarif-2.1.0.json\",\"runs\":[{\"tool\":{\"driver\":{\"name\":\"kobold-bank-reconcile\",\"informationUri\":\"https://github.com/infinityabundance/kobold-data-shim\",\"rules\":[]}},\"results\":[";

// ---- source evidence ----

pub open spec fn source_entry(court: Seq<char>, content: Seq<char>) -> Seq<char> {
    "{\"court\":"@ + js(court) + ",\"path\":"@ + js("reports/casefiles/"@ + court + "/casefile.json"@) + ",\"sha256\":"@ + js(
        spec_sha256_hex(vstd::utf8::encode_utf8(content)),
    ) + "}"@
}

/// The casefiles the view is derived from, each pinned by hash.
pub open spec fn sources(v: BRView) -> Seq<Seq<char>> {
    seq![source_entry("KOBOLD.BANK.1"@, v.bank_casefile), source_entry("KOBOLD.POSTING.1"@, v.custody_casefile)] + match v.db2 {
        Some((_, _, c)) => seq![source_entry("KOBOLD.DB2HOST.1"@, c)],
        None => Seq::<Seq<char>>::empty(),
    } + v.extra.map_values(|p: (Seq<char>, Seq<char>)| source_entry(p.0, p.1))
}

// ---- the report ----

pub open spec fn report_head(v: BRView) -> Seq<char> {
    "{\"schema\":\"kobold-bank-reconcile-report-v1\",\"court\":\"KOBOLD.BANK.RECONCILE.1\","@ + "\"view_only\":true"@ + ","@
        + "\"introduces_new_evidence\":false"@ + ",\"derived_view\":true,\"creates_new_truth\":false,\"source_evidence\":["@
        + join_comma(sources(v)) + "],\"batch\":{\"posting_unit_id\":"@ + js(v.unit_id) + ",\"business_date\":"@ + js(v.business_date)
        + ",\"extract_time_utc\":"@ + js(v.extract_time) + ",\"source_system\":"@ + js(v.source_system) + ",\"file_hash\":"@ + js(
        v.file_hash,
    ) + ",\"last_chain_hash\":"@ + js(v.last_chain_hash) + "},"@
}

pub open spec fn report_controls(v: BRView) -> Seq<char> {
    "\"controls\":{\"declared_count\":"@ + opt_u(v.declared_count) + ",\"observed_count\":"@ + dec_nat(v.observed_count as nat)
        + ",\"declared_debit\":"@ + opt_cents(v.declared_debit) + ",\"observed_debit\":"@ + js(money_spec(v.observed_debit as int))
        + ",\"declared_credit\":"@ + opt_cents(v.declared_credit) + ",\"observed_credit\":"@ + js(money_spec(v.observed_credit as int))
        + ",\"verdict\":"@ + js(verdict_text(v)) + "},"@
}

pub const REPORT_NEGATIVES: &'static str = "},\"negative_capabilities\":[\"NEG.BANK_RECONCILE.NOT_LEDGER_ACCEPTANCE\",\"NEG.BANK_RECONCILE.NOT_SETTLEMENT_FINALITY\",\"NEG.BANK_RECONCILE.NOT_ACCOUNT_BALANCE_TRUTH\",\"NEG.BANK_RECONCILE.NOT_BUSINESS_APPROVAL\",\"NEG.BANK_RECONCILE.VIEW_NOT_NEW_EVIDENCE\",\"NEG.BANK_RECONCILE.MATCH_NOT_CORRECTNESS\",\"NEG.BANK_RECONCILE.SOURCE_HASH_MISMATCH\"]}\n";

/// The end of the report: no public-output claim, and posting, ledger, settlement and business
/// truth refused.
pub open spec fn report_tail() -> Seq<char> {
    ","@ + "\"public_output_claim\":false"@ + "},\"truth_layers\":{\"record_truth\":true,"@ + "\"posting_truth\":false"@
        + ",\"ledger_truth\":false,\"settlement_truth\":false,"@ + "\"business_truth\":false"@ + REPORT_NEGATIVES@
}

pub open spec fn report_rest(v: BRView) -> Seq<char> {
    let (null_n, trunc_n, dirty_ind) = db2_counts(v);
    "\"custody\":{\"sequence_min\":"@ + opt_u(v.seq_min) + ",\"sequence_max\":"@ + opt_u(v.seq_max) + ",\"sequence_gaps\":["@ + nums(
        v.gaps,
    ) + "],\"duplicate_sequences\":["@ + nums(v.dups) + "],\"duplicate_transaction_ids\":["@ + join_comma(
        v.txn_dups.map_values(|t: Seq<char>| js(t)),
    ) + "]},\"db2\":{\"semantic_null_count\":"@ + dec_nat(null_n) + ",\"truncation_evidence_count\":"@ + dec_nat(trunc_n)
        + ",\"dirty_indicator_count\":"@ + dec_nat(dirty_ind) + "},\"findings\":{\"dirty_count\":"@ + dec_nat(v.dirty as nat)
        + ",\"unsupported_count\":"@ + dec_nat(v.unsupported as nat) + ",\"unknown_record_type_count\":"@ + dec_nat(
        v.unknown_record_types as nat,
    ) + ",\"unknown_polarity_count\":"@ + dec_nat(v.unknown_polarity as nat) + "},\"privacy\":{\"redacted_field_count\":"@
        + dec_nat(v.redacted as nat) + ",\"tokenized_field_count\":"@ + dec_nat(v.tokenized as nat) + report_tail()
}

pub open spec fn report_json_spec(v: BRView) -> Seq<char> {
    report_head(v) + report_controls(v) + report_rest(v)
}

// ---- the markdown ----

pub open spec fn none_or(v: Seq<char>, empty: bool) -> Seq<char> {
    if empty {
        "none"@
    } else {
        v
    }
}

pub const MD_INTRO: &'static str = "> Generated operator **view** over existing KOBOLD evidence (BANK.1/2 \u{b7} DB2HOST.1 \u{b7} POSTING.1 \u{b7} PRIVACY.REDACTION.1). It summarizes; it does **not** create posting, ledger, settlement, account-balance, or business truth.\n\n- business date: ";

pub const MD_TAIL: &'static str = " \u{b7} public_output_claim: false\n\n## Truth layers\n- record_truth: \u{2713}  \u{b7}  posting/ledger/settlement/business truth: **refused** (claimed:false)\n";

pub open spec fn md_head(v: BRView) -> Seq<char> {
    "# Banking reconciliation view \u{2014} "@ + v.unit_id + "\n\n"@ + MD_INTRO@ + v.business_date + " \u{b7} source: "@
        + v.source_system + " \u{b7} extract: "@ + v.extract_time + "\n- file_hash: `"@ + v.file_hash + "`\n- last_chain_hash: `"@
        + v.last_chain_hash + "`\n\n"@ + "## Controls \u{2014} **"@ + verdict_text(v) + "**"@ + "\n\n| | declared | observed |\n|---|---|---|\n| count | "@
        + opt_u(v.declared_count) + " | "@ + dec_nat(v.observed_count as nat) + " |\n| debit | "@ + opt_cents_md(v.declared_debit)
        + " | "@ + money_spec(v.observed_debit as int) + " |\n| credit | "@ + opt_cents_md(v.declared_credit) + " | "@ + money_spec(
        v.observed_credit as int,
    ) + " |\n\n"@
}

pub open spec fn md_rest(v: BRView) -> Seq<char> {
    let (null_n, trunc_n, dirty_ind) = db2_counts(v);
    "## Custody\n- sequence: "@ + opt_u(v.seq_min) + "\u{2026}"@ + opt_u(v.seq_max) + "  \u{b7} gaps: "@ + none_or(
        nums(v.gaps),
        v.gaps.len() == 0,
    ) + "  \u{b7} dup sequences: "@ + none_or(nums(v.dups), v.dups.len() == 0) + "  \u{b7} dup txn ids: "@ + none_or(
        join_comma(v.txn_dups),
        v.txn_dups.len() == 0,
    ) + "\n\n## DB2 indicators\n- semantic null: "@ + dec_nat(null_n) + " \u{b7} truncation: "@ + dec_nat(trunc_n)
        + " \u{b7} dirty/missing: "@ + dec_nat(dirty_ind) + "\n\n## Findings\n- dirty: "@ + dec_nat(v.dirty as nat)
        + " \u{b7} unsupported: "@ + dec_nat(v.unsupported as nat) + " \u{b7} unknown record type: "@ + dec_nat(
        v.unknown_record_types as nat,
    ) + " \u{b7} unknown polarity: "@ + dec_nat(v.unknown_polarity as nat) + "\n\n## Privacy\n- redacted: "@ + dec_nat(
        v.redacted as nat,
    ) + " \u{b7} tokenized: "@ + dec_nat(v.tokenized as nat) + MD_TAIL@
}

pub struct ReportView {
    pub report_json: Seq<char>,
    pub report_md: Seq<char>,
    pub sarif_json: Seq<char>,
}

/// What [`bank_reconcile_report`] returns.
pub open spec fn bank_reconcile_spec(v: BRView) -> ReportView {
    ReportView {
        report_json: report_json_spec(v),
        report_md: md_head(v) + md_rest(v),
        sarif_json: SARIF_HEAD@ + join_comma(sarif_results(v)) + "]}]}\n"@,
    }
}

// ---- executable parts ----

fn db2_counts_exec(db2: Option<&Db2HostResult>) -> (r: (usize, usize, usize))
    ensures
        (r.0 as nat, r.1 as nat, r.2 as nat) == db2_counts_of(match db2 {
            Some(d) => Some((d.states@, pairs_view(d.findings@), d.casefile_json@)),
            None => None,
        }),
{
    match db2 {
        None => (0, 0, 0),
        Some(d) => {
            let mut n: usize = 0;
            let mut t: usize = 0;
            let mut i: usize = 0;
            while i < d.states.len()
                invariant
                    i <= d.states@.len(),
                    n as nat == count_null(d.states@.take(i as int)),
                    t as nat == count_trunc(d.states@.take(i as int)),
                    n <= i,
                    t <= i,
                decreases d.states@.len() - i,
            {
                assert(d.states@.take(i + 1).drop_last() =~= d.states@.take(i as int));
                if d.states[i].semantic_null {
                    n = n + 1;
                }
                if d.states[i].truncation_evidence {
                    t = t + 1;
                }
                i += 1;
            }
            assert(d.states@.take(i as int) =~= d.states@);
            (n, t, d.findings.len())
        },
    }
}

fn push_sarif_entries(out: &mut Vec<String>, fs: &Vec<(String, String)>, level: &str)
    ensures
        strs_view(final(out)@) == strs_view(old(out)@) + pairs_view(fs@).map_values(
            |f: (Seq<char>, Seq<char>)| sarif_entry(f, level@),
        ),
{
    let ghost want = pairs_view(fs@).map_values(|f: (Seq<char>, Seq<char>)| sarif_entry(f, level@));
    let mut i: usize = 0;
    assert(strs_view(out@) =~= strs_view(old(out)@) + want.take(0));
    while i < fs.len()
        invariant
            i <= fs@.len(),
            want == pairs_view(fs@).map_values(|f: (Seq<char>, Seq<char>)| sarif_entry(f, level@)),
            strs_view(out@) == strs_view(old(out)@) + want.take(i as int),
        decreases fs@.len() - i,
    {
        let mut e = String::new();
        push_lit(&mut e, "{\"ruleId\":");
        push_js(&mut e, fs[i].0.as_str());
        push_lit(&mut e, ",\"level\":");
        push_js(&mut e, level);
        push_lit(&mut e, ",\"message\":{\"text\":");
        push_js(&mut e, fs[i].1.as_str());
        push_lit(&mut e, "}}");
        proof {
            lemma_strs_push(out@, e);
        }
        out.push(e);
        assert(strs_view(old(out)@) + want.take(i + 1) =~= strs_view(old(out)@) + want.take(i as int) + seq![e@]);
        i += 1;
    }
    assert(want.take(i as int) =~= want);
}

fn source_entry_exec(court: &str, content: &str) -> (r: String)
    ensures
        r@ == source_entry(court@, content@),
{
    let mut path = String::new();
    push_lit(&mut path, "reports/casefiles/");
    path.append(court);
    push_lit(&mut path, "/casefile.json");
    let h = sha256_hex(content.as_bytes());
    let mut e = String::new();
    push_lit(&mut e, "{\"court\":");
    push_js(&mut e, court);
    push_lit(&mut e, ",\"path\":");
    push_js(&mut e, path.as_str());
    push_lit(&mut e, ",\"sha256\":");
    push_js(&mut e, h.as_str());
    push_lit(&mut e, "}");
    e
}

fn sources_exec(i: &BankReconcileInputs) -> (r: Vec<String>)
    ensures
        strs_view(r@) == sources(br_view(*i)),
{
    let ghost v = br_view(*i);
    let mut out: Vec<String> = Vec::new();
    let a = source_entry_exec("KOBOLD.BANK.1", i.banking.casefile_json.as_str());
    out.push(a);
    let b = source_entry_exec("KOBOLD.POSTING.1", i.custody.casefile_json.as_str());
    out.push(b);
    match i.db2 {
        Some(d) => {
            let c = source_entry_exec("KOBOLD.DB2HOST.1", d.casefile_json.as_str());
            out.push(c);
        },
        None => {},
    }
    let ghost base = strs_view(out@);
    let ghost want = v.extra.map_values(|p: (Seq<char>, Seq<char>)| source_entry(p.0, p.1));
    let mut k: usize = 0;
    while k < i.extra_sources.len()
        invariant
            k <= i.extra_sources@.len(),
            v == br_view(*i),
            want == v.extra.map_values(|p: (Seq<char>, Seq<char>)| source_entry(p.0, p.1)),
            strs_view(out@) == base + want.take(k as int),
        decreases i.extra_sources@.len() - k,
    {
        let (c, content) = i.extra_sources[k];
        let e = source_entry_exec(c, content);
        proof {
            lemma_strs_push(out@, e);
        }
        out.push(e);
        assert(base + want.take(k + 1) =~= base + want.take(k as int) + seq![e@]);
        k += 1;
    }
    assert(want.take(k as int) =~= want);
    assert(strs_view(out@) =~= sources(v));
    out
}

fn nums_exec(v: &Vec<u64>) -> (r: Vec<String>)
    ensures
        strs_view(r@) == v@.map_values(|n: u64| dec_nat(n as nat)),
{
    let ghost want = v@.map_values(|n: u64| dec_nat(n as nat));
    let mut out: Vec<String> = Vec::new();
    let mut i: usize = 0;
    while i < v.len()
        invariant
            i <= v@.len(),
            want == v@.map_values(|n: u64| dec_nat(n as nat)),
            strs_view(out@) == want.take(i as int),
        decreases v@.len() - i,
    {
        let mut s = String::new();
        push_u64(&mut s, v[i]);
        proof {
            lemma_strs_push(out@, s);
        }
        out.push(s);
        assert(want.take(i + 1) =~= want.take(i as int).push(s@));
        i += 1;
    }
    assert(want.take(i as int) =~= want);
    out
}

fn js_list(v: &Vec<String>) -> (r: Vec<String>)
    ensures
        strs_view(r@) == strs_view(v@).map_values(|t: Seq<char>| js(t)),
{
    let ghost want = strs_view(v@).map_values(|t: Seq<char>| js(t));
    let mut out: Vec<String> = Vec::new();
    let mut i: usize = 0;
    while i < v.len()
        invariant
            i <= v@.len(),
            want == strs_view(v@).map_values(|t: Seq<char>| js(t)),
            strs_view(out@) == want.take(i as int),
        decreases v@.len() - i,
    {
        let mut s = String::new();
        push_js(&mut s, v[i].as_str());
        proof {
            lemma_strs_push(out@, s);
        }
        out.push(s);
        assert(want.take(i + 1) =~= want.take(i as int).push(s@));
        i += 1;
    }
    assert(want.take(i as int) =~= want);
    out
}

fn push_opt_u(o: &mut String, v: Option<u64>)
    ensures
        final(o)@ == old(o)@ + opt_u(v),
{
    match v {
        Some(n) => push_u64(o, n),
        None => push_lit(o, "null"),
    }
}

fn push_opt_cents(o: &mut String, v: Option<i64>, quoted: bool)
    ensures
        final(o)@ == old(o)@ + if quoted { opt_cents(v) } else { opt_cents_md(v) },
{
    match v {
        Some(c) => {
            let m = money(c);
            if quoted {
                push_js(o, m.as_str());
            } else {
                o.append(m.as_str());
            }
        },
        None => push_lit(o, "null"),
    }
}

#[verifier::rlimit(40)]
fn report_head_exec(i: &BankReconcileInputs) -> (r: String)
    ensures
        r@ == report_head(br_view(*i)),
{
    let src = sources_exec(i);
    let mut o = String::new();
    push_lit(&mut o, "{\"schema\":\"kobold-bank-reconcile-report-v1\",\"court\":\"KOBOLD.BANK.RECONCILE.1\",");
    push_lit(&mut o, "\"view_only\":true");
    push_lit(&mut o, ",");
    push_lit(&mut o, "\"introduces_new_evidence\":false");
    push_lit(&mut o, ",\"derived_view\":true,\"creates_new_truth\":false,\"source_evidence\":[");
    push_joined(&mut o, &src);
    push_lit(&mut o, "],\"batch\":{\"posting_unit_id\":");
    push_js(&mut o, i.batch.posting_unit_id);
    push_lit(&mut o, ",\"business_date\":");
    push_js(&mut o, i.batch.business_date);
    push_lit(&mut o, ",\"extract_time_utc\":");
    push_js(&mut o, i.batch.extract_time_utc);
    push_lit(&mut o, ",\"source_system\":");
    push_js(&mut o, i.batch.source_system);
    push_lit(&mut o, ",\"file_hash\":");
    push_js(&mut o, i.custody.file_hash.as_str());
    push_lit(&mut o, ",\"last_chain_hash\":");
    push_js(&mut o, i.custody.last_chain_hash.as_str());
    push_lit(&mut o, "},");
    o
}

#[verifier::rlimit(40)]
fn report_controls_exec(i: &BankReconcileInputs) -> (r: String)
    ensures
        r@ == report_controls(br_view(*i)),
{
    let s = &i.banking.summary;
    let mut o = String::new();
    push_lit(&mut o, "\"controls\":{\"declared_count\":");
    push_opt_u(&mut o, s.declared_count);
    push_lit(&mut o, ",\"observed_count\":");
    push_u64(&mut o, s.observed_count);
    push_lit(&mut o, ",\"declared_debit\":");
    push_opt_cents(&mut o, s.declared_debit_cents, true);
    push_lit(&mut o, ",\"observed_debit\":");
    let od = money(s.observed_debit_cents);
    push_js(&mut o, od.as_str());
    push_lit(&mut o, ",\"declared_credit\":");
    push_opt_cents(&mut o, s.declared_credit_cents, true);
    push_lit(&mut o, ",\"observed_credit\":");
    let oc = money(s.observed_credit_cents);
    push_js(&mut o, oc.as_str());
    push_lit(&mut o, ",\"verdict\":");
    if i.banking.balanced {
        push_js(&mut o, "matched");
    } else {
        push_js(&mut o, "mismatch");
    }
    push_lit(&mut o, "},");
    o
}

#[verifier::rlimit(40)]
fn report_rest_exec(i: &BankReconcileInputs, counts: (usize, usize, usize)) -> (r: String)
    requires
        (counts.0 as nat, counts.1 as nat, counts.2 as nat) == db2_counts(br_view(*i)),
    ensures
        r@ == report_rest(br_view(*i)),
{
    let gaps = nums_exec(&i.custody.seq_gaps);
    let dups = nums_exec(&i.custody.seq_duplicates);
    let txns = js_list(&i.custody.txn_duplicates);
    let mut o = String::new();
    push_lit(&mut o, "\"custody\":{\"sequence_min\":");
    push_opt_u(&mut o, i.custody.seq_min);
    push_lit(&mut o, ",\"sequence_max\":");
    push_opt_u(&mut o, i.custody.seq_max);
    push_lit(&mut o, ",\"sequence_gaps\":[");
    push_joined(&mut o, &gaps);
    push_lit(&mut o, "],\"duplicate_sequences\":[");
    push_joined(&mut o, &dups);
    push_lit(&mut o, "],\"duplicate_transaction_ids\":[");
    push_joined(&mut o, &txns);
    push_lit(&mut o, "]},\"db2\":{\"semantic_null_count\":");
    push_usize(&mut o, counts.0);
    push_lit(&mut o, ",\"truncation_evidence_count\":");
    push_usize(&mut o, counts.1);
    push_lit(&mut o, ",\"dirty_indicator_count\":");
    push_usize(&mut o, counts.2);
    push_lit(&mut o, "},\"findings\":{\"dirty_count\":");
    push_usize(&mut o, i.dirty_count);
    push_lit(&mut o, ",\"unsupported_count\":");
    push_usize(&mut o, i.unsupported_count);
    push_lit(&mut o, ",\"unknown_record_type_count\":");
    push_usize(&mut o, i.banking.summary.unknown_record_type_count);
    push_lit(&mut o, ",\"unknown_polarity_count\":");
    push_usize(&mut o, i.banking.summary.unknown_polarity_count);
    push_lit(&mut o, "},\"privacy\":{\"redacted_field_count\":");
    push_usize(&mut o, i.redacted_field_count);
    push_lit(&mut o, ",\"tokenized_field_count\":");
    push_usize(&mut o, i.tokenized_field_count);
    push_lit(&mut o, ",");
    push_lit(&mut o, "\"public_output_claim\":false");
    push_lit(&mut o, "},\"truth_layers\":{\"record_truth\":true,");
    push_lit(&mut o, "\"posting_truth\":false");
    push_lit(&mut o, ",\"ledger_truth\":false,\"settlement_truth\":false,");
    push_lit(&mut o, "\"business_truth\":false");
    push_lit(&mut o, REPORT_NEGATIVES);
    o
}

#[verifier::rlimit(40)]
fn md_head_exec(i: &BankReconcileInputs) -> (r: String)
    ensures
        r@ == md_head(br_view(*i)),
{
    let s = &i.banking.summary;
    let mut o = String::new();
    push_lit(&mut o, "# Banking reconciliation view \u{2014} ");
    o.append(i.batch.posting_unit_id);
    push_lit(&mut o, "\n\n");
    push_lit(&mut o, MD_INTRO);
    o.append(i.batch.business_date);
    push_lit(&mut o, " \u{b7} source: ");
    o.append(i.batch.source_system);
    push_lit(&mut o, " \u{b7} extract: ");
    o.append(i.batch.extract_time_utc);
    push_lit(&mut o, "\n- file_hash: `");
    o.append(i.custody.file_hash.as_str());
    push_lit(&mut o, "`\n- last_chain_hash: `");
    o.append(i.custody.last_chain_hash.as_str());
    push_lit(&mut o, "`\n\n");
    push_lit(&mut o, "## Controls \u{2014} **");
    if i.banking.balanced {
        push_lit(&mut o, "matched");
    } else {
        push_lit(&mut o, "mismatch");
    }
    push_lit(&mut o, "**");
    push_lit(&mut o, "\n\n| | declared | observed |\n|---|---|---|\n| count | ");
    push_opt_u(&mut o, s.declared_count);
    push_lit(&mut o, " | ");
    push_u64(&mut o, s.observed_count);
    push_lit(&mut o, " |\n| debit | ");
    push_opt_cents(&mut o, s.declared_debit_cents, false);
    push_lit(&mut o, " | ");
    let od = money(s.observed_debit_cents);
    o.append(od.as_str());
    push_lit(&mut o, " |\n| credit | ");
    push_opt_cents(&mut o, s.declared_credit_cents, false);
    push_lit(&mut o, " | ");
    let oc = money(s.observed_credit_cents);
    o.append(oc.as_str());
    push_lit(&mut o, " |\n\n");
    o
}

#[verifier::rlimit(40)]
fn md_rest_exec(i: &BankReconcileInputs, counts: (usize, usize, usize)) -> (r: String)
    requires
        (counts.0 as nat, counts.1 as nat, counts.2 as nat) == db2_counts(br_view(*i)),
    ensures
        r@ == md_rest(br_view(*i)),
{
    let gaps = nums_exec(&i.custody.seq_gaps);
    let dups = nums_exec(&i.custody.seq_duplicates);
    let mut o = String::new();
    push_lit(&mut o, "## Custody\n- sequence: ");
    push_opt_u(&mut o, i.custody.seq_min);
    push_lit(&mut o, "\u{2026}");
    push_opt_u(&mut o, i.custody.seq_max);
    push_lit(&mut o, "  \u{b7} gaps: ");
    if i.custody.seq_gaps.len() == 0 {
        push_lit(&mut o, "none");
    } else {
        push_joined(&mut o, &gaps);
    }
    push_lit(&mut o, "  \u{b7} dup sequences: ");
    if i.custody.seq_duplicates.len() == 0 {
        push_lit(&mut o, "none");
    } else {
        push_joined(&mut o, &dups);
    }
    push_lit(&mut o, "  \u{b7} dup txn ids: ");
    if i.custody.txn_duplicates.len() == 0 {
        push_lit(&mut o, "none");
    } else {
        push_joined(&mut o, &i.custody.txn_duplicates);
    }
    push_lit(&mut o, "\n\n## DB2 indicators\n- semantic null: ");
    push_usize(&mut o, counts.0);
    push_lit(&mut o, " \u{b7} truncation: ");
    push_usize(&mut o, counts.1);
    push_lit(&mut o, " \u{b7} dirty/missing: ");
    push_usize(&mut o, counts.2);
    push_lit(&mut o, "\n\n## Findings\n- dirty: ");
    push_usize(&mut o, i.dirty_count);
    push_lit(&mut o, " \u{b7} unsupported: ");
    push_usize(&mut o, i.unsupported_count);
    push_lit(&mut o, " \u{b7} unknown record type: ");
    push_usize(&mut o, i.banking.summary.unknown_record_type_count);
    push_lit(&mut o, " \u{b7} unknown polarity: ");
    push_usize(&mut o, i.banking.summary.unknown_polarity_count);
    push_lit(&mut o, "\n\n## Privacy\n- redacted: ");
    push_usize(&mut o, i.redacted_field_count);
    push_lit(&mut o, " \u{b7} tokenized: ");
    push_usize(&mut o, i.tokenized_field_count);
    push_lit(&mut o, MD_TAIL);
    o
}

/// Build the operator reconciliation view from existing court evidence: the controls verdict
/// renders from `balanced`, every number comes from a court result, the existing findings are
/// aggregated into SARIF, and each source casefile is pinned by its hash.
pub fn bank_reconcile_report(i: &BankReconcileInputs) -> (r: BankReconcileReport)
    ensures
        r.report_json@ == bank_reconcile_spec(br_view(*i)).report_json,
        r.report_md@ == bank_reconcile_spec(br_view(*i)).report_md,
        r.sarif_json@ == bank_reconcile_spec(br_view(*i)).sarif_json,
{
    let ghost v = br_view(*i);
    let counts = db2_counts_exec(i.db2);
    assert(db2_counts(v) == (counts.0 as nat, counts.1 as nat, counts.2 as nat));
    let mut results: Vec<String> = Vec::new();
    push_sarif_entries(&mut results, &i.banking.findings, "error");
    match i.db2 {
        Some(d) => push_sarif_entries(&mut results, &d.findings, "warning"),
        None => {},
    }
    push_sarif_entries(&mut results, &i.custody.findings, "warning");
    assert(strs_view(results@) =~= sarif_results(v));
    let mut sarif_json = String::new();
    push_lit(&mut sarif_json, SARIF_HEAD);
    push_joined(&mut sarif_json, &results);
    push_lit(&mut sarif_json, "]}]}\n");
    let h = report_head_exec(i);
    let c = report_controls_exec(i);
    let t = report_rest_exec(i, counts);
    let mut report_json = String::new();
    report_json.append(h.as_str());
    report_json.append(c.as_str());
    report_json.append(t.as_str());
    let mh = md_head_exec(i);
    let mr = md_rest_exec(i, counts);
    let mut report_md = String::new();
    report_md.append(mh.as_str());
    report_md.append(mr.as_str());
    BankReconcileReport { report_json, report_md, sarif_json }
}

proof fn lemma_head_markers(v: BRView)
    ensures
        contains_sub(report_head(v), "\"view_only\":true"@),
        contains_sub(report_head(v), "\"introduces_new_evidence\":false"@),
        contains_sub(report_head(v), ",\"last_chain_hash\":"@ + js(v.last_chain_hash) + "},"@),
{
    let h = report_head(v);
    let h0 = "{\"schema\":\"kobold-bank-reconcile-report-v1\",\"court\":\"KOBOLD.BANK.RECONCILE.1\","@;
    let view = "\"view_only\":true"@;
    let nonew = "\"introduces_new_evidence\":false"@;
    assert(h.subrange(h0.len() as int, h0.len() + view.len() as int) =~= view);
    assert(occurs_at(h, view, h0.len() as int));
    let k: int = (h0.len() + view.len() + ","@.len()) as int;
    assert(h.subrange(k, k + nonew.len() as int) =~= nonew);
    assert(occurs_at(h, nonew, k));
    let lch = ",\"last_chain_hash\":"@ + js(v.last_chain_hash) + "},"@;
    assert(h.subrange(h.len() - lch.len(), h.len() as int) =~= lch);
    assert(occurs_at(h, lch, h.len() - lch.len()));
}

proof fn lemma_tail_markers()
    ensures
        contains_sub(report_tail(), "\"public_output_claim\":false"@),
        contains_sub(report_tail(), "\"posting_truth\":false"@),
        contains_sub(report_tail(), "\"business_truth\":false"@),
{
    let t = report_tail();
    let pubc = "\"public_output_claim\":false"@;
    let post = "\"posting_truth\":false"@;
    let bus = "\"business_truth\":false"@;
    let k1: int = ","@.len() as int;
    assert(t.subrange(k1, k1 + pubc.len() as int) =~= pubc);
    assert(occurs_at(t, pubc, k1));
    let k2: int = k1 + pubc.len() + "},\"truth_layers\":{\"record_truth\":true,"@.len();
    assert(t.subrange(k2, k2 + post.len() as int) =~= post);
    assert(occurs_at(t, post, k2));
    let k3: int = k2 + post.len() + ",\"ledger_truth\":false,\"settlement_truth\":false,"@.len();
    assert(t.subrange(k3, k3 + bus.len() as int) =~= bus);
    assert(occurs_at(t, bus, k3));
}

#[verifier::rlimit(40)]
proof fn lemma_md_controls(v: BRView)
    ensures
        contains_sub(md_head(v), "## Controls \u{2014} **"@ + verdict_text(v) + "**"@),
{
    let mh = md_head(v);
    let mc = "## Controls \u{2014} **"@ + verdict_text(v) + "**"@;
    let tail_md = "\n\n| | declared | observed |\n|---|---|---|\n| count | "@ + opt_u(v.declared_count) + " | "@ + dec_nat(
        v.observed_count as nat,
    ) + " |\n| debit | "@ + opt_cents_md(v.declared_debit) + " | "@ + money_spec(v.observed_debit as int) + " |\n| credit | "@
        + opt_cents_md(v.declared_credit) + " | "@ + money_spec(v.observed_credit as int) + " |\n\n"@;
    let ms: int = mh.len() - tail_md.len() - mc.len();
    assert(mh.subrange(ms, ms + mc.len() as int) =~= mc);
    assert(occurs_at(mh, mc, ms));
}

proof fn lemma_json_head_markers(v: BRView, pat: Seq<char>)
    requires
        contains_sub(report_head(v), pat),
    ensures
        contains_sub(report_json_spec(v), pat),
{
    lemma_contains_prefix(report_head(v), report_controls(v), pat);
    lemma_contains_prefix(report_head(v) + report_controls(v), report_rest(v), pat);
}

proof fn lemma_json_tail_markers(v: BRView, pat: Seq<char>)
    requires
        contains_sub(report_tail(), pat),
    ensures
        contains_sub(report_json_spec(v), pat),
{
    let rest = report_rest(v);
    let t = report_tail();
    assert(rest.subrange(rest.len() - t.len(), rest.len() as int) =~= t);
    lemma_contains_end(rest, t, pat);
    lemma_contains_within(report_head(v) + report_controls(v), rest, seq![], pat);
    assert(report_head(v) + report_controls(v) + rest + Seq::<char>::empty() =~= report_json_spec(v));
}

proof fn lemma_json_controls(v: BRView)
    ensures
        contains_sub(report_json_spec(v), report_controls(v)),
{
    lemma_contains_self(report_controls(v));
    lemma_contains_within(report_head(v), report_controls(v), report_rest(v), report_controls(v));
}

/// The view's verdict and refusals: the report's controls are the banking summary's declared and
/// observed count, debit and credit, with the verdict `matched` exactly when the banking result
/// is balanced, else `mismatch`, and the markdown's controls heading says the same; the report
/// always says it is a view only, brings no new evidence, makes no public-output claim and
/// refuses posting and business truth; its last chain hash is the custody manifest's.
pub proof fn lemma_report_follows_the_evidence(i: BankReconcileInputs)
    ensures
        ({
            let r = bank_reconcile_spec(br_view(i));
            let s = i.banking.summary;
            let vt = if i.banking.balanced { "matched"@ } else { "mismatch"@ };
            &&& contains_sub(
                r.report_json,
                "\"controls\":{\"declared_count\":"@ + opt_u(s.declared_count) + ",\"observed_count\":"@ + dec_nat(
                    s.observed_count as nat,
                ) + ",\"declared_debit\":"@ + opt_cents(s.declared_debit_cents) + ",\"observed_debit\":"@ + js(
                    money_spec(s.observed_debit_cents as int),
                ) + ",\"declared_credit\":"@ + opt_cents(s.declared_credit_cents) + ",\"observed_credit\":"@ + js(
                    money_spec(s.observed_credit_cents as int),
                ) + ",\"verdict\":"@ + js(vt) + "},"@,
            )
            &&& contains_sub(r.report_md, "## Controls \u{2014} **"@ + vt + "**"@)
            &&& contains_sub(r.report_json, ",\"last_chain_hash\":"@ + js(i.custody.last_chain_hash@) + "},"@)
            &&& contains_sub(r.report_json, "\"view_only\":true"@)
            &&& contains_sub(r.report_json, "\"introduces_new_evidence\":false"@)
            &&& contains_sub(r.report_json, "\"public_output_claim\":false"@)
            &&& contains_sub(r.report_json, "\"posting_truth\":false"@)
            &&& contains_sub(r.report_json, "\"business_truth\":false"@)
        }),
{
    let v = br_view(i);
    lemma_head_markers(v);
    lemma_tail_markers();
    lemma_md_controls(v);
    lemma_json_controls(v);
    lemma_json_head_markers(v, "\"view_only\":true"@);
    lemma_json_head_markers(v, "\"introduces_new_evidence\":false"@);
    lemma_json_head_markers(v, ",\"last_chain_hash\":"@ + js(v.last_chain_hash) + "},"@);
    lemma_json_tail_markers(v, "\"public_output_claim\":false"@);
    lemma_json_tail_markers(v, "\"posting_truth\":false"@);
    lemma_json_tail_markers(v, "\"business_truth\":false"@);
    lemma_contains_prefix(md_head(v), md_rest(v), "## Controls \u{2014} **"@ + verdict_text(v) + "**"@);
}

} // verus!
