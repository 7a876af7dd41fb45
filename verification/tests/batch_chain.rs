use kobold_data_shim::batch_chain::{seal_chain, verify_chain, BatchLink, ChainVerdict, SealedLink, GENESIS};

fn chain() -> Vec<SealedLink> {
    let links = [
        BatchLink { batch_id: "B1", input_sha256: "aa", control_sha256: "bb", output_sha256: "cc" },
        BatchLink { batch_id: "B2", input_sha256: "dd", control_sha256: "ee", output_sha256: "ff" },
        BatchLink { batch_id: "B3", input_sha256: "11", control_sha256: "22", output_sha256: "33" },
    ];
    seal_chain(&links, GENESIS).sealed
}

#[test]
fn fresh_chain_verifies_intact() {
    let c = chain();
    assert_eq!(verify_chain(&c, GENESIS), ChainVerdict { intact: true, broken_at: None });
    // links are actually chained: each prev_hash == prior link_hash
    assert_eq!(c[1].prev_hash, c[0].link_hash);
    assert_eq!(c[2].prev_hash, c[1].link_hash);
}

#[test]
fn tampering_a_bound_artifact_breaks_the_chain() {
    let mut c = chain();
    // tamper with batch 2's input hash without recomputing its link hash
    c[1].input_sha256 = "TAMPERED".to_string();
    let v = verify_chain(&c, GENESIS);
    assert!(!v.intact);
    assert_eq!(v.broken_at, Some(1));
}

#[test]
fn reordering_breaks_the_chain() {
    let mut c = chain();
    c.swap(1, 2); // reorder batches
    let v = verify_chain(&c, GENESIS);
    assert!(!v.intact);
    assert_eq!(v.broken_at, Some(1));
}

#[test]
fn extending_an_existing_chain_continues_it() {
    let base = chain();
    let head = base.last().unwrap().link_hash.clone();
    let more = [BatchLink { batch_id: "B4", input_sha256: "44", control_sha256: "55", output_sha256: "66" }];
    let ext = seal_chain(&more, &head);
    assert_eq!(ext.sealed[0].prev_hash, head);
    assert!(verify_chain(&ext.sealed, &head).intact);
}

#[test]
fn genesis_link_starts_from_the_declared_prev_and_head_is_last_link() {
    let links = [BatchLink { batch_id: "B1", input_sha256: "aa", control_sha256: "bb", output_sha256: "cc" }];
    let c = seal_chain(&links, GENESIS);
    assert_eq!(c.sealed[0].prev_hash, GENESIS);
    assert_eq!(c.chain_head, c.sealed[0].link_hash);
    assert_eq!(c.sealed[0].link_hash.len(), 64);
}

#[test]
fn empty_chain_is_intact() {
    let c = seal_chain(&[], GENESIS);
    assert!(c.sealed.is_empty());
    assert_eq!(verify_chain(&c.sealed, GENESIS), ChainVerdict { intact: true, broken_at: None });
}
