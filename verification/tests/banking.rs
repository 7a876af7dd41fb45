use kobold_data_shim::expand::{expand_copybook, CopyBooks};
use gnucobol_rs::{build_field, cob_move, FieldAttr, Usage, COB_FLAG_HAVE_SIGN, COB_TYPE_NUMERIC_DISPLAY};
use kobold_data_shim::banking::{
    reconcile_banking, AccountingProfile, ControlSpec, NumericRole, PolarityProfile, Variant, VariantSpec,
};
use kobold_data_shim::decode::{Copybook, Encoding};
use kobold_data_shim::file::ExitCode;

fn cb(src: &str) -> Copybook {
    expand_copybook(src, &CopyBooks::none()).unwrap()
}

fn comp3(pic: &str, value: &str) -> Vec<u8> {
    let pf = build_field(pic, Usage::Comp3, false, false).unwrap();
    let neg = value.starts_with('-');
    let t = value.trim_start_matches(['-', '+']);
    let (ip, fp) = t.split_once('.').unwrap_or((t, ""));
    let mut d: Vec<u8> = ip.bytes().chain(fp.bytes()).map(|b| b - b'0').collect();
    let (have, scale) = (fp.len() as i16, pf.attr.scale);
    if scale > have {
        d.resize(d.len() + (scale - have) as usize, 0);
    }
    while d.len() < pf.attr.digits as usize {
        d.insert(0, 0);
    }
    let extra = d.len().saturating_sub(pf.attr.digits as usize);
    d.drain(0..extra);
    let mut src: Vec<u8> = d.iter().map(|x| b'0' + x).collect();
    if neg {
        if let Some(l) = src.last_mut() {
            *l |= 0x40;
        }
    }
    let sattr = FieldAttr {
        field_type: COB_TYPE_NUMERIC_DISPLAY,
        digits: pf.attr.digits,
        scale: pf.attr.scale,
        flags: COB_FLAG_HAVE_SIGN,
    };
    let mut out = vec![0u8; pf.size];
    cob_move(&src, &sattr, &mut out, &pf.attr).unwrap();
    out
}

const HDR: &str = "       01 H.\n           05 REC-TYPE PIC X.\n           05 BATCH-ID PIC X(10).\n           05 BUS-DATE PIC 9(8).\n           05 FILLER PIC X(11).\n";
const DTL: &str = "       01 D.\n           05 REC-TYPE PIC X.\n           05 ACCT-NO PIC 9(10).\n           05 DR-CR-IND PIC X.\n           05 AMOUNT PIC S9(7)V99 COMP-3.\n           05 FILLER PIC X(13).\n";
const TRL: &str = "       01 T.\n           05 REC-TYPE PIC X.\n           05 TRL-COUNT PIC 9(6).\n           05 TRL-DEBIT PIC S9(9)V99 COMP-3.\n           05 TRL-CREDIT PIC S9(9)V99 COMP-3.\n           05 FILLER PIC X(11).\n";

fn specs() -> (VariantSpec<'static>, ControlSpec<'static>) {
    let h: &'static Copybook = Box::leak(Box::new(cb(HDR)));
    let d: &'static Copybook = Box::leak(Box::new(cb(DTL)));
    let t: &'static Copybook = Box::leak(Box::new(cb(TRL)));
    let variants: &'static [Variant<'static>] = Box::leak(Box::new([
        Variant { discriminator: b"H", name: "H", copybook: h },
        Variant { discriminator: b"D", name: "D", copybook: d },
        Variant { discriminator: b"T", name: "T", copybook: t },
    ]));
    let v = VariantSpec { discriminator_offset: 0, discriminator_len: 1, variants };
    let roles: &'static [(&str, NumericRole)] = Box::leak(Box::new([("AMOUNT", NumericRole::Amount)]));
    let c = ControlSpec {
        detail_variant: "D",
        trailer_variant: "T",
        trailer_count_field: "TRL-COUNT",
        trailer_debit_field: "TRL-DEBIT",
        trailer_credit_field: "TRL-CREDIT",
        accounting: AccountingProfile {
            numeric_roles: roles,
            polarity: PolarityProfile {
                amount_field: "AMOUNT",
                source_field: "DR-CR-IND",
                debit_values: Box::leak(Box::new(["D"])),
                credit_values: Box::leak(Box::new(["C"])),
            },
        },
    };
    (v, c)
}

fn detail(acct: &str, ind: u8, amt: &str) -> Vec<u8> {
    let mut r = vec![b'D'];
    r.extend(acct.as_bytes());
    r.push(ind);
    r.extend(comp3("S9(7)V99", amt));
    r.resize(30, b' ');
    r
}

fn file(debit_total: &str) -> Vec<u8> {
    let mut d = b"HBATCH00001".to_vec();
    d.extend(b"20260608");
    d.resize(30, b' ');
    d.extend(detail("0000000001", b'D', "100.00"));
    d.extend(detail("0000000002", b'D', "250.50"));
    d.extend(detail("0000000003", b'D', "10.00"));
    d.extend(detail("0000000004", b'C', "75.25"));
    d.extend(detail("0000000005", b'C', "300.00"));
    d.extend(detail("0000000006", b'C', "5.55"));
    let mut t = b"T000006".to_vec();
    t.extend(comp3("S9(9)V99", debit_total));
    t.extend(comp3("S9(9)V99", "380.80"));
    t.resize(30, b' ');
    d.extend(t);
    d
}

#[test]
fn balanced_file_reconciles() {
    let data = file("360.50");
    let (v, c) = specs();
    let r = reconcile_banking(&data, 30, &v, &c, Encoding::Ascii).unwrap();
    assert!(r.balanced, "balanced file should reconcile; findings={:?}", r.findings);
    assert_eq!(r.verdict, ExitCode::Success);
    assert!(r.findings.is_empty());
    assert!(r.casefile_json.contains("\"observed\":{\"count\":6,\"debit\":\"360.50\",\"credit\":\"380.80\"}"));
    assert!(r.casefile_json.contains("\"balanced\":true"));
    assert!(r.casefile_json.contains("\"posting_truth\":{\"claimed\":false"));
    assert!(r.casefile_json.contains("\"business_truth\":{\"claimed\":false}"));
    assert!(r.casefile_json.contains("NEG.BANKING.BALANCED_FILE_IS_NOT_CORRECT_FILE"));
    assert_eq!(r.summary.observed_count, 6);
    assert_eq!(r.summary.observed_debit_cents, 36050);
    assert_eq!(r.summary.observed_credit_cents, 38080);
}

#[test]
fn tampered_trailer_fails_with_finding() {
    let data = file("360.51");
    let (v, c) = specs();
    let r = reconcile_banking(&data, 30, &v, &c, Encoding::Ascii).unwrap();
    assert!(!r.balanced, "tampered trailer must not reconcile");
    assert_eq!(r.verdict, ExitCode::DecodedWithEvidenceWarnings);
    assert!(r.findings.iter().any(|(rule, _)| rule == "KOBOLD-BANK-CONTROL-MISMATCH"));
    assert!(r.casefile_json.contains("\"balanced\":false"));
    assert!(r.findings.iter().any(|(_, m)| m.contains("360.51") && m.contains("360.50")));
}

#[test]
fn unknown_record_type_fails_closed() {
    let mut data = file("360.50");
    data[0] = b'Z';
    let (v, c) = specs();
    let r = reconcile_banking(&data, 30, &v, &c, Encoding::Ascii).unwrap();
    assert!(r.findings.iter().any(|(rule, _)| rule == "KOBOLD-BANK-UNKNOWN-RECORD-TYPE"));
    assert!(!r.balanced);
}

#[test]
fn negative_amount_with_debit_indicator_is_still_a_debit() {
    let mut d = b"HBATCH00001".to_vec();
    d.extend(b"20260608");
    d.resize(30, b' ');
    d.extend(detail("0000000001", b'D', "-40.00"));
    d.extend(detail("0000000002", b'C', "10.00"));
    let mut t = b"T000002".to_vec();
    t.extend(comp3("S9(9)V99", "-40.00"));
    t.extend(comp3("S9(9)V99", "10.00"));
    t.resize(30, b' ');
    d.extend(t);
    let (v, c) = specs();
    let r = reconcile_banking(&d, 30, &v, &c, Encoding::Ascii).unwrap();
    assert_eq!(r.summary.observed_debit_cents, -4000);
    assert_eq!(r.summary.observed_credit_cents, 1000);
    assert!(r.balanced, "findings={:?}", r.findings);
}

#[test]
fn amount_field_with_a_non_amount_role_is_never_summed() {
    let data = file("360.50");
    let (v, mut c) = specs();
    c.accounting.numeric_roles = Box::leak(Box::new([("AMOUNT", NumericRole::Rate)]));
    let r = reconcile_banking(&data, 30, &v, &c, Encoding::Ascii).unwrap();
    assert_eq!(r.summary.observed_debit_cents, 0);
    assert_eq!(r.summary.observed_credit_cents, 0);
    assert_eq!(r.summary.observed_count, 6);
    assert_eq!(r.findings[0].0, "KOBOLD-BANK-PROFILE-INCONSISTENT");
    assert!(!r.balanced);
    assert_eq!(r.verdict, ExitCode::DecodedWithEvidenceWarnings);
}

#[test]
fn variant_tally_names_lose_their_trailing_quote() {
    let (v, c) = specs();
    let variants: &'static [Variant<'static>] = Box::leak(Box::new([
        Variant { discriminator: b"H", name: "H\"", copybook: v.variants[0].copybook },
        Variant { discriminator: b"D", name: "D", copybook: v.variants[1].copybook },
        Variant { discriminator: b"T", name: "T", copybook: v.variants[2].copybook },
    ]));
    let v2 = VariantSpec { discriminator_offset: 0, discriminator_len: 1, variants };
    let data = file("360.50");
    let r = reconcile_banking(&data, 30, &v2, &c, Encoding::Ascii).unwrap();
    assert!(r.casefile_json.contains("\"variant_counts\":{H\\:1,D:6,T:1}"), "{}", r.casefile_json);
}
