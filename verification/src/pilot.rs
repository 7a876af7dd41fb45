//! A hash-bound pilot evidence packet for the operator who signs off a pilot run.
//!
//! The packet is a derived view over a pilot run's existing court artifacts, each pinned by its
//! SHA-256, with an operator checklist and the hash of the review notes (the notes are hashed,
//! never embedded). It is pilot evidence, not certification, compliance, production approval or
//! customer acceptance; it creates no new truth, and a changed artifact changes the packet.
use crate::posting::debug_strs;
use crate::sha256::{sha256_hex, spec_sha256_hex};
use crate::text::{
    bool_text, chars_of, dec_nat, debug_str, join_comma, js, lemma_strs_push, push_bool, push_joined, push_js, push_lit,
    push_range, push_usize, spec_debug_str, str_eq, strs_view, contains_chars, contains_sub,
};
use vstd::prelude::*;

verus! {

/// One pilot artifact, pinned by its SHA-256 (the content is hashed, not embedded).
pub struct PilotArtifact<'a> {
    pub name: &'a str,
    pub court: &'a str,
    pub content: &'a str,
}

/// A pilot's identity, copybook, artifacts and the operator's review notes.
pub struct PilotInputs<'a> {
    pub pilot_id: &'a str,
    pub business_date: &'a str,
    pub source_system: &'a str,
    pub copybook: &'a str,
    /// Free-text review notes: hashed, never embedded.
    pub operator_review_notes: &'a str,
    /// The run's court artifacts, each pinned by SHA-256.
    pub artifacts: &'a [PilotArtifact<'a>],
}

/// The generated pilot packet.
pub struct PilotPacket {
    pub packet_json: String,
    pub packet_md: String,
    pub findings: Vec<(String, String)>,
}

pub struct ArtifactView {
    pub name: Seq<char>,
    pub court: Seq<char>,
    pub content: Seq<char>,
}

pub open spec fn artifacts_view(v: Seq<PilotArtifact>) -> Seq<ArtifactView> {
    v.map_values(|a: PilotArtifact| ArtifactView { name: a.name@, court: a.court@, content: a.content@ })
}

pub struct PilotView {
    pub pilot_id: Seq<char>,
    pub business_date: Seq<char>,
    pub source_system: Seq<char>,
    pub copybook: Seq<char>,
    pub notes: Seq<char>,
    pub artifacts: Seq<ArtifactView>,
}

pub open spec fn pilot_view(i: PilotInputs) -> PilotView {
    PilotView {
        pilot_id: i.pilot_id@,
        business_date: i.business_date@,
        source_system: i.source_system@,
        copybook: i.copybook@,
        notes: i.operator_review_notes@,
        artifacts: artifacts_view(i.artifacts@),
    }
}

/// The artifacts a defensible packet carries; an absent one is flagged (not fatal).
pub open spec fn required() -> Seq<Seq<char>> {
    seq!["extract_profile"@, "redaction_policy"@, "bank_reconcile"@]
}

/// The operator's standing checklist.
pub open spec fn checklist() -> Seq<Seq<char>> {
    seq![
        "declared copybook confirmed current for this extract (EXTRACT.PROFILE.1 copybook freshness is a permanent uncertainty)"@,
        "redaction policy reviewed and applied before any extract left the secure zone (PRIVACY.REDACTION.1)"@,
        "BANK.1 declared-vs-observed control totals matched, or the mismatch is acknowledged in the notes"@,
        "BANK.2 polarity came only from declared value tables; no sign-as-polarity inference"@,
        "DIFF.1 target oracle-status recorded; a match was read as equality-to-declared, not correctness"@,
        "no real customer data appears in any artifact shared outside the secure zone"@,
        "truth boundaries acknowledged: this packet is pilot evidence, not ledger/settlement/business truth"@,
    ]
}

pub open spec fn has_artifact(arts: Seq<ArtifactView>, name: Seq<char>) -> bool {
    exists|i: int| 0 <= i < arts.len() && #[trigger] arts[i].name == name
}

/// A finding for each required artifact that is absent, in the order of the requirement list.
pub open spec fn missing_findings(arts: Seq<ArtifactView>, n: nat) -> Seq<(Seq<char>, Seq<char>)>
    decreases n,
{
    if n == 0 || n > required().len() {
        seq![]
    } else {
        let prev = missing_findings(arts, (n - 1) as nat);
        let req = required()[n - 1];
        if has_artifact(arts, req) {
            prev
        } else {
            prev.push(
                (
                    "KOBOLD-PILOT-MISSING-REQUIRED"@,
                    "required pilot artifact "@ + spec_debug_str(req) + " absent \u{2014} the packet is incomplete"@,
                ),
            )
        }
    }
}

pub open spec fn bytes_of(s: Seq<char>) -> Seq<u8> {
    vstd::utf8::encode_utf8(s)
}

pub open spec fn source_entry(a: ArtifactView) -> Seq<char> {
    "{\"name\":"@ + js(a.name) + ",\"court\":"@ + js(a.court) + ",\"sha256\":"@ + js(spec_sha256_hex(bytes_of(a.content))) + "}"@
}

pub const PILOT_TAIL: &'static str = ",\"review_notes_embedded\":false,\"truth_boundary_summary\":\"pilot evidence over named hash-pinned court artifacts; bytes < record < transform < custody < reconciliation evidence; REFUSED: posting, ledger, settlement, account-balance, business truth, certification, compliance, production approval, customer acceptance\",\"complete\":";

pub const PILOT_NEGATIVES: &'static str = ",\"negative_capabilities\":[\"NEG.PILOT.NOT_CERTIFICATION\",\"NEG.PILOT.NOT_COMPLIANCE\",\"NEG.PILOT.NOT_PRODUCTION_APPROVAL\",\"NEG.PILOT.NOT_CUSTOMER_ACCEPTANCE\",\"NEG.PILOT.SNAPSHOT_NOT_LIVE\",\"NEG.PILOT.NO_NEW_TRUTH\"]}\n";

pub open spec fn packet_json_spec(v: PilotView) -> Seq<char> {
    let complete = missing_findings(v.artifacts, 3).len() == 0;
    "{\"schema\":\"kobold-pilot-packet-v1\",\"court\":\"PILOT-PACKET.1\",\"pilot_id\":"@ + js(v.pilot_id) + ",\"business_date\":"@
        + js(v.business_date) + ",\"source_system\":"@ + js(v.source_system)
        + ",\"derived_view\":true,\"creates_new_truth\":false,\"copybook_sha256\":"@ + js(spec_sha256_hex(bytes_of(v.copybook)))
        + ",\"source_evidence\":["@ + join_comma(v.artifacts.map_values(|a: ArtifactView| source_entry(a)))
        + "],\"operator_checklist\":["@ + join_comma(checklist().map_values(|c: Seq<char>| js(c))) + "],\"review_notes_sha256\":"@
        + js(spec_sha256_hex(bytes_of(v.notes))) + PILOT_TAIL@ + bool_text(complete) + PILOT_NEGATIVES@
}

pub const MD_BANNER: &'static str = "> [!IMPORTANT]\n> A **pilot evidence packet** \u{2014} a generated derived view over named, hash-pinned court artifacts. **Not** certification, compliance, production approval, or customer acceptance. It creates **no new truth**.\n\n- business date: ";

pub open spec fn md_row(a: ArtifactView) -> Seq<char> {
    "| `"@ + a.name + "` | `"@ + a.court + "` | `"@ + spec_sha256_hex(bytes_of(a.content)).take(16) + "\u{2026}` |\n"@
}

pub open spec fn concat_all(v: Seq<Seq<char>>) -> Seq<char>
    decreases v.len(),
{
    if v.len() == 0 {
        seq![]
    } else {
        concat_all(v.drop_last()) + v.last()
    }
}

pub open spec fn packet_md_spec(v: PilotView) -> Seq<char> {
    let complete = missing_findings(v.artifacts, 3).len() == 0;
    "# Pilot evidence packet \u{2014} "@ + v.pilot_id + "\n\n"@ + MD_BANNER@ + v.business_date + " \u{b7} source: "@ + v.source_system
        + "\n- artifacts: **"@ + dec_nat(v.artifacts.len()) + "**  \u{b7}  complete: **"@ + bool_text(complete)
        + "**  \u{b7}  review-notes hash: `"@ + spec_sha256_hex(bytes_of(v.notes)).take(16)
        + "\u{2026}`\n\n## Source evidence (hash-pinned)\n\n| artifact | court | sha256 |\n|---|---|---|\n"@ + concat_all(
        v.artifacts.map_values(|a: ArtifactView| md_row(a)),
    ) + "\n## Operator review checklist\n\n"@ + concat_all(checklist().map_values(|c: Seq<char>| "- [ ] "@ + c + "\n"@))
        + "\n"@
}

pub struct PacketView {
    pub packet_json: Seq<char>,
    pub packet_md: Seq<char>,
    pub findings: Seq<(Seq<char>, Seq<char>)>,
}

/// What [`pilot_packet`] returns.
pub open spec fn pilot_spec(v: PilotView) -> PacketView {
    PacketView { packet_json: packet_json_spec(v), packet_md: packet_md_spec(v), findings: missing_findings(v.artifacts, 3) }
}

fn required_list() -> (r: Vec<&'static str>)
    ensures
        r@.map_values(|s: &str| s@) == required(),
{
    let mut v: Vec<&'static str> = Vec::new();
    v.push("extract_profile");
    v.push("redaction_policy");
    v.push("bank_reconcile");
    assert(v@.map_values(|s: &str| s@) =~= required());
    v
}

fn checklist_list() -> (r: Vec<&'static str>)
    ensures
        r@.map_values(|s: &str| s@) == checklist(),
{
    let mut v: Vec<&'static str> = Vec::new();
    v.push("declared copybook confirmed current for this extract (EXTRACT.PROFILE.1 copybook freshness is a permanent uncertainty)");
    v.push("redaction policy reviewed and applied before any extract left the secure zone (PRIVACY.REDACTION.1)");
    v.push("BANK.1 declared-vs-observed control totals matched, or the mismatch is acknowledged in the notes");
    v.push("BANK.2 polarity came only from declared value tables; no sign-as-polarity inference");
    v.push("DIFF.1 target oracle-status recorded; a match was read as equality-to-declared, not correctness");
    v.push("no real customer data appears in any artifact shared outside the secure zone");
    v.push("truth boundaries acknowledged: this packet is pilot evidence, not ledger/settlement/business truth");
    assert(v@.map_values(|s: &str| s@) =~= checklist());
    v
}

fn has_artifact_exec(arts: &[PilotArtifact], name: &str) -> (r: bool)
    ensures
        r == has_artifact(artifacts_view(arts@), name@),
{
    let ghost av = artifacts_view(arts@);
    let mut i: usize = 0;
    while i < arts.len()
        invariant
            i <= arts@.len(),
            av == artifacts_view(arts@),
            forall|j: int| 0 <= j < i ==> av[j].name != name@,
        decreases arts@.len() - i,
    {
        assert(av[i as int].name == arts@[i as int].name@);
        if str_eq(arts[i].name, name) {
            return true;
        }
        i += 1;
    }
    false
}

fn first16(h: &String) -> (r: String)
    requires
        h@.len() >= 16,
    ensures
        r@ == h@.take(16),
{
    let v = chars_of(h.as_str());
    let mut r = String::new();
    push_range(&mut r, &v, 0, 16);
    assert(v@.subrange(0, 16) =~= h@.take(16));
    r
}

/// Generate a pilot evidence packet from a pilot run's existing court artifacts: each artifact is
/// pinned by SHA-256, the review notes only by their hash, and each missing required artifact is
/// flagged.
#[verifier::rlimit(40)]
pub fn pilot_packet(inputs: &PilotInputs) -> (r: PilotPacket)
    ensures
        r.packet_json@ == pilot_spec(pilot_view(*inputs)).packet_json,
        r.packet_md@ == pilot_spec(pilot_view(*inputs)).packet_md,
        crate::banking::pairs_view(r.findings@) == pilot_spec(pilot_view(*inputs)).findings,
{
    let ghost v = pilot_view(*inputs);
    let ghost av = v.artifacts;
    let reqs = required_list();
    let mut findings: Vec<(String, String)> = Vec::new();
    let mut k: usize = 0;
    while k < reqs.len()
        invariant
            k <= reqs@.len(),
            reqs@.map_values(|s: &str| s@) == required(),
            av == artifacts_view(inputs.artifacts@),
            crate::banking::pairs_view(findings@) == missing_findings(av, k as nat),
        decreases reqs@.len() - k,
    {
        assert(reqs@[k as int]@ == required()[k as int]);
        if !has_artifact_exec(inputs.artifacts, reqs[k]) {
            let mut m = String::new();
            push_lit(&mut m, "required pilot artifact ");
            let d = debug_str(reqs[k]);
            m.append(d.as_str());
            push_lit(&mut m, " absent \u{2014} the packet is incomplete");
            let ghost before = findings@;
            findings.push((String::from_str("KOBOLD-PILOT-MISSING-REQUIRED"), m));
            assert(crate::banking::pairs_view(findings@) =~= crate::banking::pairs_view(before).push(
                ("KOBOLD-PILOT-MISSING-REQUIRED"@, m@),
            ));
        }
        k += 1;
    }
    let complete = findings.len() == 0;
    let mut src: Vec<String> = Vec::new();
    let mut rows = String::new();
    let mut i: usize = 0;
    while i < inputs.artifacts.len()
        invariant
            i <= inputs.artifacts@.len(),
            av == artifacts_view(inputs.artifacts@),
            strs_view(src@) == av.map_values(|a: ArtifactView| source_entry(a)).take(i as int),
            rows@ == concat_all(av.map_values(|a: ArtifactView| md_row(a)).take(i as int)),
        decreases inputs.artifacts@.len() - i,
    {
        let a = &inputs.artifacts[i];
        let h = sha256_hex(a.content.as_bytes());
        let mut e = String::new();
        push_lit(&mut e, "{\"name\":");
        push_js(&mut e, a.name);
        push_lit(&mut e, ",\"court\":");
        push_js(&mut e, a.court);
        push_lit(&mut e, ",\"sha256\":");
        push_js(&mut e, h.as_str());
        push_lit(&mut e, "}");
        proof {
            lemma_strs_push(src@, e);
        }
        src.push(e);
        assert(av.map_values(|a: ArtifactView| source_entry(a)).take(i + 1) =~= av.map_values(|a: ArtifactView| source_entry(a)).take(
            i as int,
        ).push(e@));
        let short = first16(&h);
        push_lit(&mut rows, "| `");
        rows.append(a.name);
        push_lit(&mut rows, "` | `");
        rows.append(a.court);
        push_lit(&mut rows, "` | `");
        rows.append(short.as_str());
        push_lit(&mut rows, "\u{2026}` |\n");
        assert(av.map_values(|a: ArtifactView| md_row(a)).take(i + 1).drop_last() =~= av.map_values(|a: ArtifactView| md_row(a)).take(
            i as int,
        ));
        i += 1;
    }
    assert(av.map_values(|a: ArtifactView| source_entry(a)).take(i as int) =~= av.map_values(|a: ArtifactView| source_entry(a)));
    assert(av.map_values(|a: ArtifactView| md_row(a)).take(i as int) =~= av.map_values(|a: ArtifactView| md_row(a)));
    let items = checklist_list();
    let mut checks: Vec<String> = Vec::new();
    let mut boxes = String::new();
    let mut j: usize = 0;
    while j < items.len()
        invariant
            j <= items@.len(),
            items@.map_values(|s: &str| s@) == checklist(),
            strs_view(checks@) == checklist().map_values(|c: Seq<char>| js(c)).take(j as int),
            boxes@ == concat_all(checklist().map_values(|c: Seq<char>| "- [ ] "@ + c + "\n"@).take(j as int)),
        decreases items@.len() - j,
    {
        assert(items@[j as int]@ == checklist()[j as int]);
        let mut q = String::new();
        push_js(&mut q, items[j]);
        proof {
            lemma_strs_push(checks@, q);
        }
        checks.push(q);
        assert(checklist().map_values(|c: Seq<char>| js(c)).take(j + 1) =~= checklist().map_values(|c: Seq<char>| js(c)).take(
            j as int,
        ).push(q@));
        push_lit(&mut boxes, "- [ ] ");
        boxes.append(items[j]);
        push_lit(&mut boxes, "\n");
        assert(checklist().map_values(|c: Seq<char>| "- [ ] "@ + c + "\n"@).take(j + 1).drop_last() =~= checklist().map_values(
            |c: Seq<char>| "- [ ] "@ + c + "\n"@,
        ).take(j as int));
        j += 1;
    }
    assert(checklist().map_values(|c: Seq<char>| js(c)).take(j as int) =~= checklist().map_values(|c: Seq<char>| js(c)));
    assert(checklist().map_values(|c: Seq<char>| "- [ ] "@ + c + "\n"@).take(j as int) =~= checklist().map_values(
        |c: Seq<char>| "- [ ] "@ + c + "\n"@,
    ));
    let review_hash = sha256_hex(inputs.operator_review_notes.as_bytes());
    let cb_hash = sha256_hex(inputs.copybook.as_bytes());
    let mut pj = String::new();
    push_lit(&mut pj, "{\"schema\":\"kobold-pilot-packet-v1\",\"court\":\"PILOT-PACKET.1\",\"pilot_id\":");
    push_js(&mut pj, inputs.pilot_id);
    push_lit(&mut pj, ",\"business_date\":");
    push_js(&mut pj, inputs.business_date);
    push_lit(&mut pj, ",\"source_system\":");
    push_js(&mut pj, inputs.source_system);
    push_lit(&mut pj, ",\"derived_view\":true,\"creates_new_truth\":false,\"copybook_sha256\":");
    push_js(&mut pj, cb_hash.as_str());
    push_lit(&mut pj, ",\"source_evidence\":[");
    push_joined(&mut pj, &src);
    push_lit(&mut pj, "],\"operator_checklist\":[");
    push_joined(&mut pj, &checks);
    push_lit(&mut pj, "],\"review_notes_sha256\":");
    push_js(&mut pj, review_hash.as_str());
    push_lit(&mut pj, PILOT_TAIL);
    push_bool(&mut pj, complete);
    push_lit(&mut pj, PILOT_NEGATIVES);
    let short_review = first16(&review_hash);
    let mut md = String::new();
    push_lit(&mut md, "# Pilot evidence packet \u{2014} ");
    md.append(inputs.pilot_id);
    push_lit(&mut md, "\n\n");
    push_lit(&mut md, MD_BANNER);
    md.append(inputs.business_date);
    push_lit(&mut md, " \u{b7} source: ");
    md.append(inputs.source_system);
    push_lit(&mut md, "\n- artifacts: **");
    push_usize(&mut md, inputs.artifacts.len());
    push_lit(&mut md, "**  \u{b7}  complete: **");
    push_bool(&mut md, complete);
    push_lit(&mut md, "**  \u{b7}  review-notes hash: `");
    md.append(short_review.as_str());
    push_lit(&mut md, "\u{2026}`\n\n## Source evidence (hash-pinned)\n\n| artifact | court | sha256 |\n|---|---|---|\n");
    md.append(rows.as_str());
    push_lit(&mut md, "\n## Operator review checklist\n\n");
    md.append(boxes.as_str());
    push_lit(&mut md, "\n");
    PilotPacket { packet_json: pj, packet_md: md, findings }
}

/// The first artifact, by position, whose text holds `needle`: a redacted evidence packet is
/// refused when a cleartext value shows through in any of its artifacts.
pub fn leaked_artifact(artifacts: &[(&str, &str)], needle: &str) -> (r: Option<usize>)
    ensures
        match r {
            Some(i) => {
                &&& i < artifacts@.len()
                &&& contains_sub(artifacts@[i as int].1@, needle@)
                &&& forall|j: int| 0 <= j < i ==> !contains_sub(#[trigger] artifacts@[j].1@, needle@)
            },
            None => forall|j: int| 0 <= j < artifacts@.len() ==> !contains_sub(#[trigger] artifacts@[j].1@, needle@),
        },
{
    let mut i: usize = 0;
    while i < artifacts.len()
        invariant
            i <= artifacts@.len(),
            forall|j: int| 0 <= j < i ==> !contains_sub(#[trigger] artifacts@[j].1@, needle@),
        decreases artifacts@.len() - i,
    {
        let text = chars_of(artifacts[i].1);
        if contains_chars(&text, needle) {
            return Some(i);
        }
        i += 1;
    }
    None
}

/// The finding for a required artifact, when no artifact carries its name.
pub open spec fn missing_of(arts: Seq<ArtifactView>, req: Seq<char>) -> Option<(Seq<char>, Seq<char>)> {
    if has_artifact(arts, req) {
        None
    } else {
        Some(
            (
                "KOBOLD-PILOT-MISSING-REQUIRED"@,
                "required pilot artifact "@ + spec_debug_str(req) + " absent \u{2014} the packet is incomplete"@,
            ),
        )
    }
}

proof fn lemma_missing_closed(arts: Seq<ArtifactView>, n: nat)
    requires
        n <= required().len(),
    ensures
        missing_findings(arts, n) == required().take(n as int).filter_map(|req: Seq<char>| missing_of(arts, req)),
    decreases n,
{
    let g = |req: Seq<char>| missing_of(arts, req);
    if n == 0 {
        assert(required().take(0) =~= Seq::<Seq<char>>::empty());
    } else {
        lemma_missing_closed(arts, (n - 1) as nat);
        let t = required().take(n as int);
        assert(t.drop_last() =~= required().take(n - 1));
        assert(t.last() == required()[n - 1]);
        let pe = required().take(n - 1).filter_map(g);
        match g(t.last()) {
            Some(x) => {
                assert(pe + seq![x] =~= pe.push(x));
            },
            None => {},
        }
    }
}

/// The packet has one finding for each required artifact that no artifact names, in the order of
/// the requirement list, and no other; it is complete exactly when every required artifact is
/// there.
pub proof fn lemma_one_finding_per_missing_artifact(v: PilotView)
    ensures
        pilot_spec(v).findings == required().filter_map(|req: Seq<char>| missing_of(v.artifacts, req)),
        pilot_spec(v).findings.len() == 0 <==> forall|k: int| 0 <= k < required().len() ==> has_artifact(v.artifacts, #[trigger] required()[k]),
{
    lemma_missing_closed(v.artifacts, 3);
    assert(required().take(3) =~= required());
    reveal_with_fuel(missing_findings, 4);
    let arts = v.artifacts;
    let f1 = missing_findings(arts, 1);
    let f2 = missing_findings(arts, 2);
    let f3 = missing_findings(arts, 3);
    assert(f2.len() >= f1.len() && f3.len() >= f2.len());
    assert(f3.len() == 0 <==> (has_artifact(arts, required()[0]) && has_artifact(arts, required()[1]) && has_artifact(
        arts,
        required()[2],
    )));
}

} // verus!
