use gnucobol_rs::copybook::CopyResolver;
use kobold_data_shim::decode::ShimError;
use kobold_data_shim::expand::{decode_with_resolver, expand_copybook, CopyBooks, NoCopy};

const SRC: &str = "       01 R.\n           COPY FIELDS.\n           05 B PIC 9(2).\n";

fn books() -> CopyBooks {
    CopyBooks {
        books: vec![
            ("OTHER".to_string(), "           05 Z PIC X.\n".to_string()),
            ("FIELDS.cpy".to_string(), "           05 A PIC X(2).\n".to_string()),
        ],
    }
}

#[test]
fn copy_statement_is_expanded_from_books_with_provenance() {
    let cb = expand_copybook(SRC, &books()).unwrap();
    assert_eq!(cb.source, SRC);
    assert_eq!(cb.lines.len(), 3);
    assert!(cb.lines[1].contains("05 A PIC X(2)."));
    assert_eq!(cb.provenance[0], ("<main>".to_string(), 1));
    assert_eq!(cb.provenance[1], ("FIELDS".to_string(), 1));
    assert_eq!(cb.provenance[2], ("<main>".to_string(), 3));
}

#[test]
fn decode_with_resolver_decodes_copied_fields() {
    let fs = decode_with_resolver(SRC, b"XY42", &books()).unwrap();
    let a = fs.iter().find(|f| f.name == "A").unwrap();
    assert_eq!(a.value, "XY");
    assert_eq!(a.offset, 0);
    let b = fs.iter().find(|f| f.name == "B").unwrap();
    assert_eq!(b.value, "42");
    assert_eq!(b.offset, 2);
}

#[test]
fn missing_copybook_fails_closed_as_copy_error() {
    match decode_with_resolver(SRC, b"XY42", &CopyBooks::none()) {
        Err(ShimError::Copy(m)) => assert_eq!(m, "copybook 'FIELDS' not found"),
        other => panic!("expected a COPY error, got {:?}", other.map(|v| v.len())),
    }
}

#[test]
fn book_lookup_prefers_the_cpy_file() {
    let b = CopyBooks {
        books: vec![
            ("X".to_string(), "plain".to_string()),
            ("X.cpy".to_string(), "with extension".to_string()),
        ],
    };
    assert_eq!(b.find("X"), Some("with extension".to_string()));
    assert_eq!(b.resolve("X"), Some("with extension".to_string()));
    assert_eq!(b.find("Y"), None);
    assert_eq!(NoCopy.resolve("X"), None);
}
