use gnucobol_rs::{build_field, cob_move, FieldAttr, Usage, COB_FLAG_HAVE_SIGN, COB_TYPE_NUMERIC_DISPLAY};
use kobold_data_shim::decode::{decode_record_encoded, Copybook, Encoding};
use kobold_data_shim::recon2::{reconcile_transform, reconcile_transform_checked, Transform, TransformOp};
use kobold_data_shim::expand::{expand_copybook, CopyBooks};

fn cb(src: &str) -> Copybook {
    expand_copybook(src, &CopyBooks::none()).unwrap()
}

fn comp3(pic: &str, value: &str) -> Vec<u8> {
    let pf = build_field(pic, Usage::Comp3, false, false).unwrap();
    let neg = value.starts_with('-');
    let t = value.trim_start_matches(['-', '+']);
    let (ip, fp) = t.split_once('.').unwrap_or((t, ""));
    let mut d: Vec<u8> = ip.bytes().chain(fp.bytes()).map(|b| b - b'0').collect();
    let (have, scale) = (fp.len() as i16, pf.attr.scale);
    if scale > have {
        d.resize(d.len() + (scale - have) as usize, 0);
    }
    while d.len() < pf.attr.digits as usize {
        d.insert(0, 0);
    }
    let extra = d.len().saturating_sub(pf.attr.digits as usize);
    d.drain(0..extra);
    let mut src: Vec<u8> = d.iter().map(|x| b'0' + x).collect();
    if neg {
        if let Some(l) = src.last_mut() {
            *l |= 0x40;
        }
    }
    let sattr = FieldAttr {
        field_type: COB_TYPE_NUMERIC_DISPLAY,
        digits: pf.attr.digits,
        scale: pf.attr.scale,
        flags: COB_FLAG_HAVE_SIGN,
    };
    let mut out = vec![0u8; pf.size];
    cob_move(&src, &sattr, &mut out, &pf.attr).unwrap();
    out
}

const CB: &str = "       01 REC.\n           05 STATUS-CODE PIC X.\n               88 ACTIVE VALUE \"A\".\n               88 CLOSED VALUE \"C\".\n           05 BALANCE PIC S9(3)V99 COMP-3.\n";

fn record(status: u8, bal: &str) -> Vec<u8> {
    let mut r = vec![status];
    r.extend(comp3("S9(3)V99", bal));
    r
}

fn value_of(c: &Copybook, rec: &[u8], name: &str) -> String {
    let d = decode_record_encoded(c, rec, Encoding::Ascii).unwrap();
    d.fields.iter().find(|f| f.name == name).unwrap().value.clone()
}

#[test]
fn set_88_true_and_add_compose() {
    let c = cb(CB);
    let input = record(b'C', "100.00");
    let transforms = [
        Transform { op: TransformOp::SetTrue, target: "ACTIVE", amount: None },
        Transform { op: TransformOp::Add, target: "BALANCE", amount: Some("50.00") },
    ];
    let r = reconcile_transform(&c, &input, &transforms, Encoding::Ascii).unwrap();
    assert!(r.findings.is_empty(), "no findings; got {:?}", r.findings);
    assert_ne!(r.before, r.after);
    assert_eq!(value_of(&c, &r.before, "STATUS-CODE"), "C");
    assert_eq!(value_of(&c, &r.after, "STATUS-CODE"), "A");
    assert_eq!(value_of(&c, &r.before, "BALANCE"), "100.00");
    assert_eq!(value_of(&c, &r.after, "BALANCE"), "150.00");
    let bd = decode_record_encoded(&c, &r.before, Encoding::Ascii).unwrap();
    let ad = decode_record_encoded(&c, &r.after, Encoding::Ascii).unwrap();
    assert!(!bd.conditions.iter().any(|c| c.name == "ACTIVE" && c.value == Some(true)));
    assert!(ad.conditions.iter().any(|c| c.name == "ACTIVE" && c.value == Some(true)));
    assert!(r.casefile_json.contains("\"STATUS-CODE\":{\"before\":\"C\",\"after\":\"A\"}"));
    assert!(r.casefile_json.contains("\"BALANCE\":{\"before\":\"100.00\",\"after\":\"150.00\"}"));
    assert!(r.casefile_json.contains("\"read_truth\":{\"claimed\":true}"));
    assert!(r.casefile_json.contains("\"transform_truth\":{\"claimed\":true,\"scope\":\"declared sealed transform only\"}"));
    assert!(r.casefile_json.contains("\"business_truth\":{\"claimed\":false}"));
    assert!(r.casefile_json.contains("\"write_back_truth\":{\"claimed\":false}"));
    assert!(r.applied.iter().any(|a| a.contains("GNURUST.12")) && r.applied.iter().any(|a| a.contains("GNURUST.7")));
}

#[test]
fn byte_stable_replay() {
    let c = cb(CB);
    let input = record(b'C', "100.00");
    let transforms = [Transform { op: TransformOp::Add, target: "BALANCE", amount: Some("1.50") }];
    let a = reconcile_transform(&c, &input, &transforms, Encoding::Ascii).unwrap();
    let b = reconcile_transform(&c, &input, &transforms, Encoding::Ascii).unwrap();
    assert_eq!(a.after, b.after);
    assert_eq!(a.casefile_json, b.casefile_json);
}

#[test]
fn subtract_works() {
    let c = cb(CB);
    let input = record(b'A', "100.00");
    let transforms = [Transform { op: TransformOp::Subtract, target: "BALANCE", amount: Some("30.00") }];
    let r = reconcile_transform(&c, &input, &transforms, Encoding::Ascii).unwrap();
    assert_eq!(value_of(&c, &r.after, "BALANCE"), "70.00");
}

#[test]
fn undeclared_transform_fails_closed() {
    let c = cb(CB);
    let input = record(b'C', "100.00");
    let transforms = [
        Transform { op: TransformOp::SetTrue, target: "NOSUCH", amount: None },
        Transform { op: TransformOp::Add, target: "NO-FIELD", amount: Some("1.00") },
    ];
    let r = reconcile_transform(&c, &input, &transforms, Encoding::Ascii).unwrap();
    assert!(r.findings.iter().any(|(rule, _)| rule == "KOBOLD-RECON2-UNDECLARED-CONDITION"));
    assert!(r.findings.iter().any(|(rule, _)| rule == "KOBOLD-RECON2-UNDECLARED-FIELD"));
    assert_eq!(r.before, r.after, "an undeclared transform changes nothing");
}

#[test]
fn transform_findings_cover_every_refusal() {
    let c = cb(CB);
    let input = record(b'A', "1.00");
    let transforms = [
        Transform { op: TransformOp::Add, target: "BALANCE", amount: None },
        Transform { op: TransformOp::Add, target: "STATUS-CODE", amount: Some("1") },
        Transform { op: TransformOp::Add, target: "BALANCE", amount: Some("-2.25") },
    ];
    let r = reconcile_transform(&c, &input, &transforms, Encoding::Ascii).unwrap();
    assert_eq!(r.findings[0], ("KOBOLD-RECON2-NO-AMOUNT".to_string(), "\"BALANCE\" needs an amount".to_string()));
    assert_eq!(r.findings[1], ("KOBOLD-RECON2-NOT-NUMERIC".to_string(), "\"STATUS-CODE\" is not a numeric field".to_string()));
    assert_eq!(r.applied, vec!["ADD -2.25 TO BALANCE (GNURUST.7)".to_string()]);
    assert_eq!(value_of(&c, &r.after, "BALANCE"), "-1.25");
    assert!(r.casefile_json.contains("\"sealed_courts\":[\"ADD/SUBTRACT (GNURUST.7)\"]"));
    assert!(r.casefile_json.contains("\"bytes_changed\":true"));
    assert_eq!(r.after.len(), input.len());
}

#[test]
fn checked_transform_refuses_a_record_too_short_for_its_target() {
    let c = cb(CB);
    let transforms = [Transform { op: TransformOp::Add, target: "BALANCE", amount: Some("1.00") }];
    assert!(reconcile_transform_checked(&c, b"A", &transforms, Encoding::Ascii).is_none());
    let ok = reconcile_transform_checked(&c, &record(b'A', "1.00"), &transforms, Encoding::Ascii);
    assert!(matches!(ok, Some(Ok(_))));
}

#[test]
fn add_touches_only_its_target_field() {
    let c = cb(CB);
    let input = record(b'C', "100.00");
    let ts = [Transform { op: TransformOp::Add, target: "BALANCE", amount: Some("5.25") }];
    let r = reconcile_transform(&c, &input, &ts, Encoding::Ascii).unwrap();
    assert_eq!(r.after.len(), input.len());
    assert_eq!(r.after[0], input[0], "STATUS-CODE byte is outside the target and must not change");
    assert_eq!(value_of(&c, &r.after, "BALANCE"), "105.25");
    assert_eq!(r.applied.len() + r.findings.len(), ts.len());
}
