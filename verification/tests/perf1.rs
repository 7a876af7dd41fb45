use kobold_data_shim::expand::{expand_copybook, CopyBooks};


use gnucobol_rs::{
    build_field, cob_move, FieldAttr, Usage, COB_FLAG_HAVE_SIGN, COB_TYPE_NUMERIC_DISPLAY,
};
use kobold_data_shim::recon::{reconcile_encoded, reconcile_encoded_parallel};
use kobold_data_shim::decode::{Encoding};
use kobold_data_shim::posting::{posting_manifest, PostingProfile};
use kobold_data_shim::decode::Copybook;

fn cb(src: &str) -> Copybook {
    expand_copybook(src, &CopyBooks::none()).unwrap()
}


const CB: &str = "       01 ACCT.\n           05 SEQ-NO PIC 9(6).\n           05 ST PIC X.\n               88 ACTIVE VALUE \"A\".\n           05 BAL PIC S9(7)V99 COMP-3.\n           05 BR PIC 9(4) COMP.\n";
const RL: usize = 14;

fn comp3(value: &str) -> Vec<u8> {
    let pf = build_field("S9(7)V99", Usage::Comp3, false, false).unwrap();
    let (ip, fp) = value.split_once('.').unwrap_or((value, ""));
    let mut d: Vec<u8> = ip.bytes().chain(fp.bytes()).map(|b| b - b'0').collect();
    if pf.attr.scale > fp.len() as i16 {
        d.resize(d.len() + (pf.attr.scale - fp.len() as i16) as usize, 0);
    }
    while d.len() < pf.attr.digits as usize {
        d.insert(0, 0);
    }
    let extra = d.len().saturating_sub(pf.attr.digits as usize);
    d.drain(0..extra);
    let src: Vec<u8> = d.iter().map(|x| b'0' + x).collect();
    let sa = FieldAttr {
        field_type: COB_TYPE_NUMERIC_DISPLAY,
        digits: pf.attr.digits,
        scale: pf.attr.scale,
        flags: COB_FLAG_HAVE_SIGN,
    };
    let mut out = vec![0u8; pf.size];
    cob_move(&src, &sa, &mut out, &pf.attr).unwrap();
    out
}
fn corpus(n: usize) -> Vec<u8> {
    let mut d = Vec::new();
    for i in 0..n {
        d.extend_from_slice(format!("{:06}", i + 1).as_bytes());
        d.push(if i % 2 == 0 { b'A' } else { b'C' });
        d.extend(comp3(&format!("{}.{:02}", 1000 + i, i % 100)));
        d.extend(&((1000 + i as u16) % 9000).to_be_bytes());
    }
    d
}

#[test]
fn scalar_and_rayon_reconcile_are_byte_identical() {
    for n in [1usize, 2, 7, 50, 999] {
        let data = corpus(n);
        let s =
            reconcile_encoded("perf1", &cb(CB), &data, RL, "0.7.1", Encoding::Ascii).unwrap();
        let p =
            reconcile_encoded_parallel("perf1", &cb(CB), &data, RL, "0.7.1", Encoding::Ascii)
                .unwrap();
        assert_eq!(s.jsonl, p.jsonl, "JSONL differs at n={n}");
        assert_eq!(s.audit_json, p.audit_json, "audit differs at n={n}");
        assert_eq!(
            s.unsupported_json, p.unsupported_json,
            "unsupported ledger differs at n={n}"
        );
        assert_eq!(s.record_count, p.record_count);
    }
}

#[test]
fn posting_chain_identical_over_same_records() {
    // The sharp rule: parallel decode must not alter the canonical record order used for custody.
    let data = corpus(200);
    let prof = PostingProfile {
        posting_unit_id: "B1",
        business_date: "2026-06-08",
        extract_time_utc: "2026-06-08T00:00:00Z",
        source_system: "synthetic",
        sequence_field: Some("SEQ-NO"),
        sequence_contiguous: true,
        txn_id_field: None,
    };
    // posting custody is computed from the same byte buffer regardless of decode parallelism
    let a = posting_manifest(&cb(CB), &data, RL, &prof, Encoding::Ascii).unwrap();
    let b = posting_manifest(&cb(CB), &data, RL, &prof, Encoding::Ascii).unwrap();
    assert_eq!(a.last_chain_hash, b.last_chain_hash);
    assert!(a.seq_gaps.is_empty() && a.seq_duplicates.is_empty());
}
