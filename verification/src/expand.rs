//! Copybook expansion: `COPY` statements are resolved from a caller-supplied set of copybooks and
//! expanded by `gnucobol-rs` (`GNURUST.5/6`); the result is the library's [`Copybook`].
use crate::decode::{
    decode, fields_spec, fields_view, lines_view, program_of, provs_view, shim_error_view, Copybook, DecodedField, Encoding,
    FieldView, ShimError, ShimErrorView,
};
use crate::text::str_eq;
use gnucobol_rs::copybook::CopyResolver;
use vstd::prelude::*;

verus! {

/// The copybooks a `COPY` statement may name, as `(file name, text)` pairs. `COPY X` finds the
/// entry named `X.cpy`, else the entry named `X`.
pub struct CopyBooks {
    pub books: Vec<(String, String)>,
}

pub open spec fn books_view(b: CopyBooks) -> Seq<(Seq<char>, Seq<char>)> {
    b.books@.map_values(|e: (String, String)| (e.0@, e.1@))
}

/// The text of the first entry named `file`.
pub open spec fn book_named(books: Seq<(Seq<char>, Seq<char>)>, file: Seq<char>) -> Option<Seq<char>>
    decreases books.len(),
{
    if books.len() == 0 {
        None
    } else if books[0].0 == file {
        Some(books[0].1)
    } else {
        book_named(books.drop_first(), file)
    }
}

/// The copybook `COPY name` brings in: `name.cpy` first, then `name`.
pub open spec fn book_for(books: Seq<(Seq<char>, Seq<char>)>, name: Seq<char>) -> Option<Seq<char>> {
    match book_named(books, name + ".cpy"@) {
        Some(t) => Some(t),
        None => book_named(books, name),
    }
}

fn find_named(books: &Vec<(String, String)>, file: &str) -> (r: Option<String>)
    ensures
        match r {
            Some(t) => book_named(books@.map_values(|e: (String, String)| (e.0@, e.1@)), file@) == Some(t@),
            None => book_named(books@.map_values(|e: (String, String)| (e.0@, e.1@)), file@) is None,
        },
{
    let ghost bv = books@.map_values(|e: (String, String)| (e.0@, e.1@));
    let mut i: usize = 0;
    assert(bv.skip(0) =~= bv);
    while i < books.len()
        invariant
            i <= books@.len(),
            bv == books@.map_values(|e: (String, String)| (e.0@, e.1@)),
            book_named(bv, file@) == book_named(bv.skip(i as int), file@),
        decreases books@.len() - i,
    {
        assert(bv.skip(i as int)[0] == bv[i as int]);
        assert(bv.skip(i as int).drop_first() =~= bv.skip(i + 1));
        if str_eq(books[i].0.as_str(), file) {
            return Some(books[i].1.clone());
        }
        i += 1;
    }
    assert(bv.skip(i as int).len() == 0);
    None
}

impl CopyBooks {
    /// No copybooks: every `COPY` fails closed as missing.
    pub fn none() -> (b: CopyBooks)
        ensures
            books_view(b) == Seq::<(Seq<char>, Seq<char>)>::empty(),
    {
        CopyBooks { books: Vec::new() }
    }

    /// The text `COPY name` brings in.
    pub fn find(&self, name: &str) -> (r: Option<String>)
        ensures
            match r {
                Some(t) => book_for(books_view(*self), name@) == Some(t@),
                None => book_for(books_view(*self), name@) is None,
            },
    {
        let mut file = String::from_str(name);
        file.append(".cpy");
        match find_named(&self.books, file.as_str()) {
            Some(t) => Some(t),
            None => find_named(&self.books, name),
        }
    }
}

impl CopyResolver for CopyBooks {
    fn resolve(&self, name: &str) -> (r: Option<String>)
        ensures
            match r {
                Some(t) => book_for(books_view(*self), name@) == Some(t@),
                None => book_for(books_view(*self), name@) is None,
            },
    {
        self.find(name)
    }
}


/// A resolver that finds no copybook: every `COPY` fails closed as missing.
pub struct NoCopy;

impl CopyResolver for NoCopy {
    fn resolve(&self, _name: &str) -> (r: Option<String>)
        ensures
            r is None,
    {
        None
    }
}

/// The lines and provenance (file, 1-based line) that `gnucobol_rs::copybook::expand` gives for
/// `source` over the copybooks `books`, or the text of its error.
pub uninterp spec fn spec_expand(source: Seq<char>, books: Seq<(Seq<char>, Seq<char>)>) -> Result<
    (Seq<Seq<char>>, Seq<(Seq<char>, nat)>),
    Seq<char>,
>;

/// Calls `gnucobol_rs::copybook::expand` with `books` as the resolver. Trusted claim: the lines
/// and provenance it returns (or the `Display` text of its `CopyError`) are a function of the
/// source and the copybooks alone (the expander is pure given a resolver, and this resolver is
/// the verified lookup [`CopyBooks::find`]).
#[verifier::external_body]
fn expand_with(source: &str, books: &CopyBooks) -> (r: Result<(Vec<String>, Vec<(String, usize)>), String>)
    ensures
        match r {
            Ok(x) => spec_expand(source@, books_view(*books)) == Ok::<(Seq<Seq<char>>, Seq<(Seq<char>, nat)>), Seq<char>>(
                (lines_view(x.0@), provs_view(x.1@)),
            ),
            Err(m) => spec_expand(source@, books_view(*books)) == Err::<(Seq<Seq<char>>, Seq<(Seq<char>, nat)>), Seq<char>>(
                m@,
            ),
        },
{
    match gnucobol_rs::copybook::expand(source, books) {
        Ok(e) => Ok((e.lines, e.provenance.into_iter().map(|p| (p.file, p.line)).collect())),
        Err(e) => Err(e.to_string()),
    }
}

/// The copybook `source` expands to over `books`: its text, the expanded lines and where each
/// came from. A `COPY` that cannot be expanded (missing, recursive, too deep or large, or an
/// unsupported `REPLACING` form) is [`ShimError::Copy`] with the expander's message.
pub fn expand_copybook(source: &str, books: &CopyBooks) -> (r: Result<Copybook, ShimError>)
    ensures
        match r {
            Ok(cb) => cb.source@ == source@ && spec_expand(source@, books_view(*books)) == Ok::<
                (Seq<Seq<char>>, Seq<(Seq<char>, nat)>),
                Seq<char>,
            >((lines_view(cb.lines@), provs_view(cb.provenance@))),
            Err(e) => e matches ShimError::Copy(m) && spec_expand(source@, books_view(*books)) == Err::<
                (Seq<Seq<char>>, Seq<(Seq<char>, nat)>),
                Seq<char>,
            >(m@),
        },
{
    match expand_with(source, books) {
        Ok((lines, provenance)) => Ok(Copybook { source: String::from_str(source), lines, provenance }),
        Err(m) => Err(ShimError::Copy(m)),
    }
}


/// What decoding `record` against the raw copybook `source` gives: the expansion's failure, the
/// layout's failure, or one field per laid-out item.
pub open spec fn source_decode_spec(source: Seq<char>, books: Seq<(Seq<char>, Seq<char>)>, record: Seq<u8>) -> Result<
    Seq<FieldView>,
    ShimErrorView,
> {
    match spec_expand(source, books) {
        Err(m) => Err(ShimErrorView::Copy(m)),
        Ok((lines, provs)) => match program_of(lines, provs) {
            Ok(p) => Ok(fields_spec(p, record, Encoding::Ascii)),
            Err(e) => Err(e),
        },
    }
}

/// Decode `record` against a copybook source whose `COPY` statements are resolved from
/// `resolver`. Returns one field per named item (groups included), in layout order.
pub fn decode_with_resolver(copybook: &str, record: &[u8], resolver: &CopyBooks) -> (r: Result<Vec<DecodedField>, ShimError>)
    ensures
        match r {
            Ok(fs) => source_decode_spec(copybook@, books_view(*resolver), record@) == Ok::<Seq<FieldView>, ShimErrorView>(
                fields_view(fs@),
            ),
            Err(e) => source_decode_spec(copybook@, books_view(*resolver), record@) == Err::<Seq<FieldView>, ShimErrorView>(
                shim_error_view(e),
            ),
        },
{
    let cb = expand_copybook(copybook, resolver)?;
    decode(&cb, record)
}

} // verus!
