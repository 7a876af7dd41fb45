//! KOBOLD.BATCH.CHAIN.1 — tamper-evident batch custody chain.
//!
//! Each batch is sealed into a custody link whose hash binds the declared artifact hashes **and its
//! predecessor's link hash**, so the links form a chain: altering a bound artifact, dropping a batch,
//! or reordering the sequence breaks the chain at a detectable point. Tamper-**evident**, not
//! tamper-proof; it proves custody integrity over declared artifacts, not batch correctness.
use crate::sha256::{sha256_hex, spec_sha256_hex};
use crate::text::{dec_nat, js, push_char, push_js, push_usize};
use vstd::prelude::*;
use vstd::utf8::encode_utf8;

verus! {

/// The genesis predecessor hash for the first batch in a chain.
pub const GENESIS: &'static str = "GENESIS";

/// One declared batch's artifact hashes (each a sha256 hex of the bound artifact).
pub struct BatchLink<'a> {
    pub batch_id: &'a str,
    pub input_sha256: &'a str,
    pub control_sha256: &'a str,
    pub output_sha256: &'a str,
}

/// A sealed custody link: the declared hashes plus the chain `prev_hash` and the computed `link_hash`.
#[derive(Debug, Clone, PartialEq, Eq)]
pub struct SealedLink {
    pub batch_id: String,
    pub input_sha256: String,
    pub control_sha256: String,
    pub output_sha256: String,
    pub prev_hash: String,
    pub link_hash: String,
}

/// The custody-chain result.
pub struct BatchCustody {
    pub manifest_json: String,
    pub casefile_json: String,
    pub sealed: Vec<SealedLink>,
    /// the last link's hash (the chain head).
    pub chain_head: String,
}

/// The verification verdict for a sealed chain.
#[derive(Debug, Clone, PartialEq, Eq, Structural)]
pub struct ChainVerdict {
    pub intact: bool,
    /// the first index whose link hash or predecessor link is broken, if any.
    pub broken_at: Option<usize>,
}

/// The declared artifact hashes of one batch, as character sequences.
pub struct LinkModel {
    pub batch_id: Seq<char>,
    pub input: Seq<char>,
    pub control: Seq<char>,
    pub output: Seq<char>,
}

pub open spec fn link_model(l: BatchLink) -> LinkModel {
    LinkModel {
        batch_id: l.batch_id@,
        input: l.input_sha256@,
        control: l.control_sha256@,
        output: l.output_sha256@,
    }
}

pub open spec fn sealed_model(s: SealedLink) -> LinkModel {
    LinkModel {
        batch_id: s.batch_id@,
        input: s.input_sha256@,
        control: s.control_sha256@,
        output: s.output_sha256@,
    }
}

/// The text a link hash binds: the five fields joined by the record separator `U+001E`.
pub open spec fn bound_text(l: LinkModel, prev: Seq<char>) -> Seq<char> {
    l.batch_id + seq!['\u{1e}'] + l.input + seq!['\u{1e}'] + l.control + seq!['\u{1e}'] + l.output
        + seq!['\u{1e}'] + prev
}

/// The link hash of a batch given its predecessor hash.
pub open spec fn link_hash_spec(l: LinkModel, prev: Seq<char>) -> Seq<char> {
    spec_sha256_hex(encode_utf8(bound_text(l, prev)))
}

fn link_hash(batch_id: &str, input: &str, control: &str, output: &str, prev: &str) -> (h: String)
    ensures
        h@ == link_hash_spec(
            LinkModel { batch_id: batch_id@, input: input@, control: control@, output: output@ },
            prev@,
        ),
{
    let mut bound = String::new();
    bound.append(batch_id);
    push_char(&mut bound, '\u{1e}');
    bound.append(input);
    push_char(&mut bound, '\u{1e}');
    bound.append(control);
    push_char(&mut bound, '\u{1e}');
    bound.append(output);
    push_char(&mut bound, '\u{1e}');
    bound.append(prev);
    let ghost l = LinkModel { batch_id: batch_id@, input: input@, control: control@, output: output@ };
    assert(bound@ =~= bound_text(l, prev@));
    let b = bound.as_str();
    sha256_hex(b.as_bytes())
}

/// The predecessor hash of link `k` when `links` are sealed after `genesis`.
pub open spec fn chain_prev(links: Seq<LinkModel>, genesis: Seq<char>, k: nat) -> Seq<char>
    decreases k,
{
    if k == 0 {
        genesis
    } else {
        link_hash_spec(links[k - 1], chain_prev(links, genesis, (k - 1) as nat))
    }
}

/// The link hash of link `k` when `links` are sealed after `genesis`.
pub open spec fn chain_link(links: Seq<LinkModel>, genesis: Seq<char>, k: nat) -> Seq<char> {
    link_hash_spec(links[k as int], chain_prev(links, genesis, k))
}

/// The head of the chain (`""` for an empty chain).
pub open spec fn chain_head_spec(links: Seq<LinkModel>, genesis: Seq<char>) -> Seq<char> {
    if links.len() == 0 {
        seq![]
    } else {
        chain_link(links, genesis, (links.len() - 1) as nat)
    }
}

/// `s` is the sealing of `l` at position `k` of a chain after `genesis`.
pub open spec fn sealed_matches(s: SealedLink, links: Seq<LinkModel>, genesis: Seq<char>, k: nat) -> bool {
    &&& sealed_model(s) == links[k as int]
    &&& s.prev_hash@ == chain_prev(links, genesis, k)
    &&& s.link_hash@ == chain_link(links, genesis, k)
}

/// Link `k` of a sealed chain is sound: its predecessor is the previous link hash (or the genesis)
/// and its link hash recomputes from its own bound fields.
pub open spec fn link_ok(sealed: Seq<SealedLink>, genesis: Seq<char>, k: int) -> bool {
    &&& sealed[k].prev_hash@ == (if k == 0 {
        genesis
    } else {
        sealed[k - 1].link_hash@
    })
    &&& sealed[k].link_hash@ == link_hash_spec(sealed_model(sealed[k]), sealed[k].prev_hash@)
}

/// The verdict a chain deserves: intact iff every link is sound, else the first unsound index.
pub open spec fn chain_verdict_spec(sealed: Seq<SealedLink>, genesis: Seq<char>) -> ChainVerdict {
    if forall|k: int| 0 <= k < sealed.len() ==> link_ok(sealed, genesis, k) {
        ChainVerdict { intact: true, broken_at: None }
    } else {
        let b = choose|b: int|
            0 <= b < sealed.len() && !link_ok(sealed, genesis, b) && forall|k: int|
                0 <= k < b ==> link_ok(sealed, genesis, k);
        ChainVerdict { intact: false, broken_at: Some(b as usize) }
    }
}

pub open spec fn links_model(links: Seq<BatchLink>) -> Seq<LinkModel> {
    links.map_values(|l: BatchLink| link_model(l))
}

pub open spec fn link_json_spec(i: nat, s: SealedLink) -> Seq<char> {
    "{\"index\":"@ + dec_nat(i) + ",\"batch_id\":"@ + js(s.batch_id@) + ",\"input_sha256\":"@ + js(
        s.input_sha256@,
    ) + ",\"control_sha256\":"@ + js(s.control_sha256@) + ",\"output_sha256\":"@ + js(
        s.output_sha256@,
    ) + ",\"prev_hash\":"@ + js(s.prev_hash@) + ",\"link_hash\":"@ + js(s.link_hash@) + "}"@
}

/// The links of a manifest, comma separated.
pub open spec fn links_json_spec(s: Seq<SealedLink>) -> Seq<char>
    decreases s.len(),
{
    if s.len() == 0 {
        seq![]
    } else if s.len() == 1 {
        link_json_spec(0, s[0])
    } else {
        links_json_spec(s.drop_last()) + ","@ + link_json_spec((s.len() - 1) as nat, s.last())
    }
}

pub open spec fn chain_manifest_spec(genesis: Seq<char>, sealed: Seq<SealedLink>, head: Seq<char>) -> Seq<char> {
    "{\"schema\":\"kobold-batch-chain-manifest-v1\",\"court\":\"KOBOLD.BATCH.CHAIN.1\",\"genesis_prev\":"@
        + js(genesis) + ",\"batch_count\":"@ + dec_nat(sealed.len()) + ",\"links\":["@
        + links_json_spec(sealed) + "],\"chain_head\":"@ + js(head) + "}"@
}

pub open spec fn chain_casefile_spec(manifest: Seq<char>) -> Seq<char> {
    "{\"schema\":\"kobold-batch-chain-forensic-casefile-v1\",\"court\":\"KOBOLD.BATCH.CHAIN.1\",\"manifest\":"@
        + manifest
        + ",\"truth_layers\":{\"custody_integrity_truth\":true,\"order_truth\":true,\"authenticity\":false,\"batch_correctness\":false,\"authorization\":false},\"negative_capabilities\":[\"NEG.BATCH_CHAIN.TAMPER_EVIDENT_NOT_TAMPER_PROOF\",\"NEG.BATCH_CHAIN.NO_AUTHENTICITY\",\"NEG.BATCH_CHAIN.NO_BATCH_CORRECTNESS\",\"NEG.BATCH_CHAIN.REQUIRES_DECLARED_ARTIFACTS\",\"NEG.BATCH_CHAIN.NO_TIMESTAMP_TRUTH\",\"NEG.BATCH_CHAIN.WRITE_BACK_NOT_CLAIMED\"]}\n"@
}

fn push_link_json(out: &mut String, i: usize, s: &SealedLink)
    ensures
        final(out)@ == old(out)@ + link_json_spec(i as nat, *s),
{
    out.append("{\"index\":");
    push_usize(out, i);
    out.append(",\"batch_id\":");
    push_js(out, s.batch_id.as_str());
    out.append(",\"input_sha256\":");
    push_js(out, s.input_sha256.as_str());
    out.append(",\"control_sha256\":");
    push_js(out, s.control_sha256.as_str());
    out.append(",\"output_sha256\":");
    push_js(out, s.output_sha256.as_str());
    out.append(",\"prev_hash\":");
    push_js(out, s.prev_hash.as_str());
    out.append(",\"link_hash\":");
    push_js(out, s.link_hash.as_str());
    out.append("}");
}

/// Seal a sequence of declared batches into a custody chain. The first batch's predecessor is
/// `genesis_prev` (use [`GENESIS`] for a fresh chain, or the head of an existing chain to extend it).
pub fn seal_chain(links: &[BatchLink], genesis_prev: &str) -> (r: BatchCustody)
    ensures
        r.sealed@.len() == links@.len(),
        forall|k: int|
            0 <= k < links@.len() ==> sealed_matches(
                #[trigger] r.sealed@[k],
                links_model(links@),
                genesis_prev@,
                k as nat,
            ),
        r.chain_head@ == chain_head_spec(links_model(links@), genesis_prev@),
        r.manifest_json@ == chain_manifest_spec(genesis_prev@, r.sealed@, r.chain_head@),
        r.casefile_json@ == chain_casefile_spec(r.manifest_json@),
{
    let ghost lm = links_model(links@);
    let mut prev = String::from_str(genesis_prev);
    let mut sealed: Vec<SealedLink> = Vec::new();
    let mut i: usize = 0;
    while i < links.len()
        invariant
            i <= links@.len(),
            lm == links_model(links@),
            lm.len() == links@.len(),
            sealed@.len() == i,
            prev@ == chain_prev(lm, genesis_prev@, i as nat),
            forall|k: int| 0 <= k < i ==> sealed_matches(#[trigger] sealed@[k], lm, genesis_prev@, k as nat),
        decreases links@.len() - i,
    {
        let l = &links[i];
        let h = link_hash(l.batch_id, l.input_sha256, l.control_sha256, l.output_sha256, prev.as_str());
        assert(lm[i as int] == link_model(links@[i as int]));
        let s = SealedLink {
            batch_id: String::from_str(l.batch_id),
            input_sha256: String::from_str(l.input_sha256),
            control_sha256: String::from_str(l.control_sha256),
            output_sha256: String::from_str(l.output_sha256),
            prev_hash: prev.clone(),
            link_hash: h.clone(),
        };
        sealed.push(s);
        prev = h;
        i += 1;
    }
    let chain_head = if sealed.len() > 0 {
        sealed[sealed.len() - 1].link_hash.clone()
    } else {
        String::new()
    };
    let mut links_json = String::new();
    let mut j: usize = 0;
    while j < sealed.len()
        invariant
            j <= sealed@.len(),
            links_json@ == links_json_spec(sealed@.take(j as int)),
        decreases sealed@.len() - j,
    {
        if j > 0 {
            links_json.append(",");
        }
        push_link_json(&mut links_json, j, &sealed[j]);
        assert(sealed@.take(j + 1).drop_last() =~= sealed@.take(j as int));
        j += 1;
    }
    assert(sealed@.take(sealed@.len() as int) =~= sealed@);
    let mut manifest_json = String::from_str(
        "{\"schema\":\"kobold-batch-chain-manifest-v1\",\"court\":\"KOBOLD.BATCH.CHAIN.1\",\"genesis_prev\":",
    );
    push_js(&mut manifest_json, genesis_prev);
    manifest_json.append(",\"batch_count\":");
    push_usize(&mut manifest_json, sealed.len());
    manifest_json.append(",\"links\":[");
    manifest_json.append(links_json.as_str());
    manifest_json.append("],\"chain_head\":");
    push_js(&mut manifest_json, chain_head.as_str());
    manifest_json.append("}");
    let mut casefile_json = String::from_str(
        "{\"schema\":\"kobold-batch-chain-forensic-casefile-v1\",\"court\":\"KOBOLD.BATCH.CHAIN.1\",\"manifest\":",
    );
    casefile_json.append(manifest_json.as_str());
    casefile_json.append(
        ",\"truth_layers\":{\"custody_integrity_truth\":true,\"order_truth\":true,\"authenticity\":false,\"batch_correctness\":false,\"authorization\":false},\"negative_capabilities\":[\"NEG.BATCH_CHAIN.TAMPER_EVIDENT_NOT_TAMPER_PROOF\",\"NEG.BATCH_CHAIN.NO_AUTHENTICITY\",\"NEG.BATCH_CHAIN.NO_BATCH_CORRECTNESS\",\"NEG.BATCH_CHAIN.REQUIRES_DECLARED_ARTIFACTS\",\"NEG.BATCH_CHAIN.NO_TIMESTAMP_TRUTH\",\"NEG.BATCH_CHAIN.WRITE_BACK_NOT_CLAIMED\"]}\n",
    );
    BatchCustody { manifest_json, casefile_json, sealed, chain_head }
}

/// Verify a sealed chain: each link's hash must recompute from its bound artifacts + recorded
/// `prev_hash`, and each `prev_hash` must equal the predecessor's `link_hash`. Returns the first
/// broken index, if any.
pub fn verify_chain(sealed: &[SealedLink], genesis_prev: &str) -> (v: ChainVerdict)
    ensures
        v == chain_verdict_spec(sealed@, genesis_prev@),
{
    let mut i: usize = 0;
    while i < sealed.len()
        invariant
            i <= sealed@.len(),
            forall|k: int| 0 <= k < i ==> link_ok(sealed@, genesis_prev@, k),
        decreases sealed@.len() - i,
    {
        let s = &sealed[i];
        let expected_ok = if i == 0 {
            crate::text::str_eq(s.prev_hash.as_str(), genesis_prev)
        } else {
            crate::text::str_eq(s.prev_hash.as_str(), sealed[i - 1].link_hash.as_str())
        };
        let recomputed = link_hash(
            s.batch_id.as_str(),
            s.input_sha256.as_str(),
            s.control_sha256.as_str(),
            s.output_sha256.as_str(),
            s.prev_hash.as_str(),
        );
        let hash_ok = crate::text::str_eq(recomputed.as_str(), s.link_hash.as_str());
        if !expected_ok || !hash_ok {
            proof {
                assert(!link_ok(sealed@, genesis_prev@, i as int));
                let b = choose|b: int|
                    0 <= b < sealed@.len() && !link_ok(sealed@, genesis_prev@, b) && forall|k: int|
                        0 <= k < b ==> link_ok(sealed@, genesis_prev@, k);
                if b < i {
                } else if b > i {
                    assert(link_ok(sealed@, genesis_prev@, i as int));
                }
            }
            return ChainVerdict { intact: false, broken_at: Some(i) };
        }
        i += 1;
    }
    ChainVerdict { intact: true, broken_at: None }
}

/// A freshly sealed chain verifies intact against the genesis it was sealed after.
pub proof fn lemma_sealed_chain_is_intact(links: Seq<LinkModel>, genesis: Seq<char>, sealed: Seq<SealedLink>)
    requires
        sealed.len() == links.len(),
        forall|k: int| 0 <= k < links.len() ==> sealed_matches(#[trigger] sealed[k], links, genesis, k as nat),
    ensures
        chain_verdict_spec(sealed, genesis) == (ChainVerdict { intact: true, broken_at: None }),
{
    assert forall|k: int| 0 <= k < sealed.len() implies link_ok(sealed, genesis, k) by {
        assert(sealed_matches(sealed[k], links, genesis, k as nat));
        if k > 0 {
            assert(sealed_matches(sealed[k - 1], links, genesis, (k - 1) as nat));
        }
    }
}

/// Extending a chain continues it: sealing `a` then sealing `b` after `a`'s head gives exactly the
/// links that sealing `a + b` at once gives.
pub proof fn lemma_chain_extension(a: Seq<LinkModel>, b: Seq<LinkModel>, genesis: Seq<char>, k: nat)
    requires
        a.len() > 0,
        k <= b.len(),
    ensures
        chain_prev(a + b, genesis, a.len() + k) == chain_prev(b, chain_head_spec(a, genesis), k),
    decreases k,
{
    if k == 0 {
        lemma_chain_prefix(a, b, genesis, (a.len() - 1) as nat);
        assert((a + b)[a.len() - 1] == a[a.len() - 1]);
    } else {
        lemma_chain_extension(a, b, genesis, (k - 1) as nat);
        assert((a + b)[a.len() + k - 1] == b[k - 1]);
    }
}

/// The chain over a prefix does not depend on what follows it.
pub proof fn lemma_chain_prefix(a: Seq<LinkModel>, b: Seq<LinkModel>, genesis: Seq<char>, k: nat)
    requires
        k <= a.len(),
    ensures
        chain_prev(a + b, genesis, k) == chain_prev(a, genesis, k),
    decreases k,
{
    if k > 0 {
        lemma_chain_prefix(a, b, genesis, (k - 1) as nat);
        assert((a + b)[k - 1] == a[k - 1]);
    }
}

/// `s` holds no record separator.
pub open spec fn no_separator(s: Seq<char>) -> bool {
    forall|i: int| 0 <= i < s.len() ==> s[i] != '\u{1e}'
}

/// The declared fields of a link hold no record separator.
pub open spec fn separator_free(l: LinkModel) -> bool {
    no_separator(l.batch_id) && no_separator(l.input) && no_separator(l.control) && no_separator(l.output)
}

proof fn lemma_split_at_separator(a: Seq<char>, x: Seq<char>, b: Seq<char>, y: Seq<char>)
    requires
        no_separator(a),
        no_separator(b),
        a + seq!['\u{1e}'] + x == b + seq!['\u{1e}'] + y,
    ensures
        a == b,
        x == y,
{
    let l = a + seq!['\u{1e}'] + x;
    let r = b + seq!['\u{1e}'] + y;
    if a.len() < b.len() {
        assert(l[a.len() as int] == '\u{1e}');
        assert(r[a.len() as int] == b[a.len() as int]);
    } else if b.len() < a.len() {
        assert(r[b.len() as int] == '\u{1e}');
        assert(l[b.len() as int] == a[b.len() as int]);
    } else {
        assert forall|i: int| 0 <= i < a.len() implies a[i] == b[i] by {
            assert(l[i] == r[i]);
        }
        assert(a =~= b);
        assert(l.len() == r.len());
        assert(x.len() == y.len());
        assert forall|i: int| 0 <= i < x.len() implies x[i] == y[i] by {
            assert(l[a.len() + 1 + i] == r[a.len() + 1 + i]);
            assert(l[a.len() + 1 + i] == x[i]);
            assert(r[b.len() + 1 + i] == y[i]);
        }
        assert(x =~= y);
    }
}

/// The text a link hash binds determines the link: two links whose declared fields hold no record
/// separator bind the same text only when their batch id, input, control and output hashes and
/// their predecessors are all equal; so changing any one bound field changes what is hashed.
pub proof fn lemma_bound_text_binds_every_field(l1: LinkModel, p1: Seq<char>, l2: LinkModel, p2: Seq<char>)
    requires
        separator_free(l1),
        separator_free(l2),
        bound_text(l1, p1) == bound_text(l2, p2),
    ensures
        l1 == l2,
        p1 == p2,
{
    let rs = seq!['\u{1e}'];
    let t1 = l1.output + rs + p1;
    let t2 = l2.output + rs + p2;
    let c1 = l1.control + rs + t1;
    let c2 = l2.control + rs + t2;
    let i1 = l1.input + rs + c1;
    let i2 = l2.input + rs + c2;
    assert(bound_text(l1, p1) =~= l1.batch_id + rs + i1);
    assert(bound_text(l2, p2) =~= l2.batch_id + rs + i2);
    lemma_split_at_separator(l1.batch_id, i1, l2.batch_id, i2);
    lemma_split_at_separator(l1.input, c1, l2.input, c2);
    lemma_split_at_separator(l1.control, t1, l2.control, t2);
    lemma_split_at_separator(l1.output, p1, l2.output, p2);
}

/// Tampering with a bound field of one link of a sealed chain, leaving its stored hashes as they
/// were, changes the text its hash binds; and unless the hash of the altered text happens to equal
/// the stored one, verification reports the chain broken exactly at that link.
pub proof fn lemma_tampering_breaks_the_chain(
    links: Seq<LinkModel>,
    genesis: Seq<char>,
    sealed: Seq<SealedLink>,
    k: int,
    t: SealedLink,
)
    requires
        sealed.len() == links.len(),
        forall|j: int| 0 <= j < links.len() ==> sealed_matches(#[trigger] sealed[j], links, genesis, j as nat),
        0 <= k < sealed.len(),
        t.prev_hash@ == sealed[k].prev_hash@,
        t.link_hash@ == sealed[k].link_hash@,
        sealed_model(t) != sealed_model(sealed[k]),
        separator_free(sealed_model(t)),
        separator_free(sealed_model(sealed[k])),
    ensures
        bound_text(sealed_model(t), t.prev_hash@) != bound_text(sealed_model(sealed[k]), sealed[k].prev_hash@),
        link_hash_spec(sealed_model(t), t.prev_hash@) != sealed[k].link_hash@ ==> chain_verdict_spec(sealed.update(k, t), genesis)
            == (ChainVerdict { intact: false, broken_at: Some(k as usize) }),
{
    if bound_text(sealed_model(t), t.prev_hash@) == bound_text(sealed_model(sealed[k]), sealed[k].prev_hash@) {
        lemma_bound_text_binds_every_field(sealed_model(t), t.prev_hash@, sealed_model(sealed[k]), sealed[k].prev_hash@);
    }
    let s2 = sealed.update(k, t);
    assert forall|j: int| 0 <= j < k implies link_ok(s2, genesis, j) by {
        assert(s2[j] == sealed[j]);
        assert(sealed_matches(sealed[j], links, genesis, j as nat));
        if j > 0 {
            assert(s2[j - 1] == sealed[j - 1]);
            assert(sealed_matches(sealed[j - 1], links, genesis, (j - 1) as nat));
        }
    }
    if link_hash_spec(sealed_model(t), t.prev_hash@) != sealed[k].link_hash@ {
        assert(!link_ok(s2, genesis, k));
        let b = choose|b: int|
            0 <= b < s2.len() && !link_ok(s2, genesis, b) && forall|j: int| 0 <= j < b ==> link_ok(s2, genesis, j);
        if b < k {
            assert(link_ok(s2, genesis, b));
        } else if b > k {
            assert(link_ok(s2, genesis, k));
        }
    }
}

/// Dropping a batch from a sealed chain breaks it exactly where the batch was: the next link
/// names the dropped link's hash as its predecessor, which verification compares with the hash
/// that now precedes it (unless those two hashes happen to be equal).
pub proof fn lemma_dropping_a_batch_breaks_the_chain(links: Seq<LinkModel>, genesis: Seq<char>, sealed: Seq<SealedLink>, j: int)
    requires
        sealed.len() == links.len(),
        forall|k: int| 0 <= k < links.len() ==> sealed_matches(#[trigger] sealed[k], links, genesis, k as nat),
        0 <= j < sealed.len() - 1,
        chain_link(links, genesis, j as nat) != chain_prev(links, genesis, j as nat),
    ensures
        chain_verdict_spec(sealed.remove(j), genesis) == (ChainVerdict { intact: false, broken_at: Some(j as usize) }),
{
    let s2 = sealed.remove(j);
    assert forall|i: int| 0 <= i < j implies link_ok(s2, genesis, i) by {
        assert(s2[i] == sealed[i]);
        assert(sealed_matches(sealed[i], links, genesis, i as nat));
        if i > 0 {
            assert(s2[i - 1] == sealed[i - 1]);
            assert(sealed_matches(sealed[i - 1], links, genesis, (i - 1) as nat));
        }
    }
    assert(s2[j] == sealed[j + 1]);
    assert(sealed_matches(sealed[j + 1], links, genesis, (j + 1) as nat));
    if j > 0 {
        assert(s2[j - 1] == sealed[j - 1]);
        assert(sealed_matches(sealed[j - 1], links, genesis, (j - 1) as nat));
    }
    assert(!link_ok(s2, genesis, j));
    let b = choose|b: int| 0 <= b < s2.len() && !link_ok(s2, genesis, b) && forall|k: int| 0 <= k < b ==> link_ok(s2, genesis, k);
    if b < j {
        assert(link_ok(s2, genesis, b));
    } else if b > j {
        assert(link_ok(s2, genesis, j));
    }
}

} // verus!
