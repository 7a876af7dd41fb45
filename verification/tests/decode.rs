use kobold_data_shim::expand::{expand_copybook, CopyBooks};
use kobold_data_shim::decode::{decode, decode_all, decode_record, decode_record_encoded, format_decimal, Copybook, Encoding, ShimError};
use kobold_data_shim::cobol::Decimal;

fn cb(src: &str) -> Copybook {
    expand_copybook(src, &CopyBooks::none()).unwrap()
}

#[test]
fn decodes_a_record() {
    // 01 CUST. 05 CUST-ID PIC 9(3). 05 CUST-NAME PIC X(4). 05 CUST-BAL PIC S9(3)V99 COMP-3.
    let c = "01 CUST.\n05 CUST-ID PIC 9(3).\n05 CUST-NAME PIC X(4).\n05 CUST-BAL PIC S9(3)V99 COMP-3.";
    // record: "042" + "ANNA" + COMP-3(-12.34 as S9(3)V99 = 01234d)
    let mut rec = Vec::new();
    rec.extend_from_slice(b"042");
    rec.extend_from_slice(b"ANNA");
    rec.extend_from_slice(&[0x01, 0x23, 0x4d]);
    let fields = decode(&cb(c), &rec).unwrap();
    let by = |n: &str| fields.iter().find(|f| f.name == n).unwrap();
    assert_eq!(by("CUST-ID").value, "42");
    assert_eq!(by("CUST-NAME").value, "ANNA");
    assert_eq!(by("CUST-BAL").value, "-12.34");
    assert_eq!(by("CUST-BAL").raw_hex, "01234d");
    assert_eq!(by("CUST").category, "group");
}

#[test]
fn short_record_fails_closed_per_field() {
    let c = "01 R.\n05 A PIC X(2).\n05 B PIC 9(4).";
    let fields = decode(&cb(c), b"AB12").unwrap();
    let b = fields.iter().find(|f| f.name == "B").unwrap();
    assert_eq!(b.category, "unsupported");
    assert_eq!(b.value, "(record too short for field)");
    assert_eq!(b.raw_hex, "");
    let a = fields.iter().find(|f| f.name == "A").unwrap();
    assert_eq!(a.value, "AB");
    assert_eq!(a.raw_hex, "4142");
}

#[test]
fn alphanumeric_trailing_spaces_are_trimmed() {
    let c = "01 R.\n05 N PIC X(6).";
    let fields = decode(&cb(c), b"AB    ").unwrap();
    assert_eq!(fields.iter().find(|f| f.name == "N").unwrap().value, "AB");
}

#[test]
fn conditions_are_evaluated_against_their_parent() {
    let c = "01 R.\n05 ST PIC X.\n88 ST-OPEN VALUE \"O\".\n88 ST-CLOSED VALUE \"C\".";
    let r = decode_record(&cb(c), b"O").unwrap();
    assert_eq!(r.conditions.len(), 2);
    assert_eq!(r.conditions[0].name, "ST-OPEN");
    assert_eq!(r.conditions[0].parent, "ST");
    assert_eq!(r.conditions[0].value, Some(true));
    assert_eq!(r.conditions[1].value, Some(false));
}

#[test]
fn cp500_alphanumeric_is_translated_but_packed_is_raw() {
    let c = "01 R.\n05 N PIC X(2).\n05 P PIC S9(3) COMP-3.";
    // EBCDIC "AB" = C1 C2; packed +123 = 12 3C
    let r = decode_record_encoded(&cb(c), &[0xC1, 0xC2, 0x12, 0x3C], Encoding::Cp500).unwrap();
    let n = r.fields.iter().find(|f| f.name == "N").unwrap();
    assert_eq!(n.value, "AB");
    assert_eq!(n.raw_hex, "c1c2");
    let p = r.fields.iter().find(|f| f.name == "P").unwrap();
    assert_eq!(p.value, "123");
}

#[test]
fn unsupported_count_counts_fail_closed_fields() {
    let c = "01 R.\n05 A PIC X(2).\n05 B PIC 9(4).";
    let r = decode_record(&cb(c), b"AB").unwrap();
    assert_eq!(r.unsupported(), 1);
}

#[test]
fn decode_all_splits_fixed_records_and_refuses_zero_length() {
    let c = "01 R.\n05 A PIC 9(2).";
    let all = decode_all(&cb(c), b"0102030", 2).unwrap();
    assert_eq!(all.len(), 4);
    let a = |k: usize| all[k].fields.iter().find(|f| f.name == "A").unwrap().clone();
    assert_eq!(a(0).value, "1");
    assert_eq!(a(2).value, "3");
    assert_eq!(a(3).category, "unsupported");
    match decode_all(&cb(c), b"01", 0) {
        Err(ShimError::Layout(m)) => assert_eq!(m, "record_len must be > 0"),
        _ => panic!("expected a layout error"),
    }
    assert_eq!(decode_all(&cb(c), b"", 2).unwrap().len(), 0);
}

#[test]
fn error_text_names_the_stage() {
    assert_eq!(ShimError::Layout("x".to_string()).to_string(), "record layout failed: x");
    assert_eq!(ShimError::BadItem("y".to_string()).to_string(), "could not parse copybook item: y");
    assert_eq!(ShimError::Copy("z".to_string()).to_string(), "COPY expansion failed: z");
}

#[test]
fn canonical_decimal_text() {
    let d = |negative: bool, digits: Vec<u8>, scale: i16| format_decimal(&Decimal { negative, digits, scale });
    assert_eq!(d(true, vec![1, 2, 3, 4], 2), "-12.34");
    assert_eq!(d(false, vec![5], 2), "0.05");
    assert_eq!(d(false, vec![0, 0, 4, 2], 0), "42");
    assert_eq!(d(false, vec![], 0), "0");
    assert_eq!(d(false, vec![1], -2), "1");
}

#[test]
fn dirty_packed_nibble_passes_through_as_evidence() {
    // A digit nibble of 0xA is not a decimal digit: it is rendered, not coerced to a digit.
    let c = "01 R.\n05 AMT PIC S9(3) COMP-3.";
    let fields = decode(&cb(c), &[0x1A, 0x5C]).unwrap();
    let amt = fields.iter().find(|f| f.name == "AMT").unwrap();
    assert_eq!(amt.category, "numeric");
    assert_eq!(amt.value, "1:5");
    assert_eq!(amt.raw_hex, "1a5c");
}

#[test]
fn encodings_agree_on_binary_and_packed_fields() {
    let c = "01 R.\n05 T PIC X(2).\n05 P PIC S9(3) COMP-3.\n05 B PIC 9(4) COMP.";
    let rec = [0xC1, 0xC2, 0x12, 0x3D, 0x04, 0x10];
    let a = decode_record_encoded(&cb(c), &rec, Encoding::Ascii).unwrap();
    let e = decode_record_encoded(&cb(c), &rec, Encoding::Cp500).unwrap();
    for (x, y) in a.fields.iter().zip(e.fields.iter()) {
        if x.name == "T" {
            assert_eq!(y.value, "AB");
        } else {
            assert_eq!(x.value, y.value, "{} changed with the encoding", x.name);
        }
    }
}

#[test]
fn oversized_p_scaled_picture_fails_closed_at_layout() {
    let c = "01 R.\n05 A PIC 9P(40000).";
    match decode(&cb(c), b"1") {
        Err(ShimError::Layout(m)) => assert_eq!(m, "P-scaled picture declares more than 32767 positions"),
        other => panic!("expected a layout refusal, got {:?}", other.map(|v| v.len())),
    }
}

#[test]
fn record_beyond_the_addressable_size_fails_closed_at_layout() {
    let c = "01 R.\n05 G OCCURS 99999999.\n10 H OCCURS 99999999.\n15 A PIC X OCCURS 99999999.";
    match decode(&cb(c), b"x") {
        Err(ShimError::Layout(m)) => assert_eq!(m, "record layout exceeds the addressable size"),
        other => panic!("expected a layout refusal, got {:?}", other.map(|v| v.len())),
    }
}

#[test]
fn edited_picture_beyond_the_fraction_counter_is_unsupported() {
    let c = "01 R.\n05 E PIC .9(40000).";
    let rec = vec![b'1'; 40001];
    let fields = decode(&cb(c), &rec).unwrap();
    let e = fields.iter().find(|f| f.name == "E").unwrap();
    assert_eq!(e.category, "unsupported");
    assert_eq!(e.value, "(edited decode failed)");
}

#[test]
fn binary_fields_read_their_byte_order_and_sign() {
    let c = "01 R.\n05 LE PIC S9(4) COMP-5.\n05 BE PIC S9(4) COMP.\n05 UX PIC 9(4) COMP-5.";
    let rec = [0xFFu8, 0xFF, 0x01, 0x02, 0x02, 0x01];
    let fields = decode(&cb(c), &rec).unwrap();
    let by = |n: &str| fields.iter().find(|f| f.name == n).unwrap();
    assert_eq!(by("LE").value, "-1");
    assert_eq!(by("BE").value, "258");
    assert_eq!(by("UX").value, "258");
}
