//! Text building blocks shared by every court: JSON string escaping, lowercase hex, decimal
//! rendering, and the whitespace / ASCII predicates the copybook scanner relies on.
use vstd::prelude::*;

verus! {

// ----------------------------------------------------------------------------------------------
// Character classes
// ----------------------------------------------------------------------------------------------

/// Unicode `White_Space` (the set `char::is_whitespace` tests).
pub open spec fn is_ws(c: char) -> bool {
    let u = c as u32;
    (0x09 <= u && u <= 0x0d) || u == 0x20 || u == 0x85 || u == 0xa0 || u == 0x1680 || (0x2000
        <= u && u <= 0x200a) || u == 0x2028 || u == 0x2029 || u == 0x202f || u == 0x205f || u
        == 0x3000
}

pub fn is_ws_exec(c: char) -> (r: bool)
    ensures
        r == is_ws(c),
{
    let u = c as u32;
    (0x09 <= u && u <= 0x0d) || u == 0x20 || u == 0x85 || u == 0xa0 || u == 0x1680 || (0x2000
        <= u && u <= 0x200a) || u == 0x2028 || u == 0x2029 || u == 0x202f || u == 0x205f || u
        == 0x3000
}

/// ASCII upper-casing of one character (non-ASCII-lowercase characters are unchanged).
pub open spec fn upper_char(c: char) -> char {
    if 'a' <= c && c <= 'z' {
        ((c as u32) - 32) as char
    } else {
        c
    }
}

pub fn upper_char_exec(c: char) -> (r: char)
    ensures
        r == upper_char(c),
{
    if 'a' <= c && c <= 'z' {
        let u = (c as u8) - 32;
        u as char
    } else {
        c
    }
}

pub open spec fn upper_seq(s: Seq<char>) -> Seq<char> {
    s.map_values(|c: char| upper_char(c))
}

// ----------------------------------------------------------------------------------------------
// Strings as character vectors
// ----------------------------------------------------------------------------------------------

/// `String::push` (std): appends one character.
#[verifier::external_body]
pub(crate) fn push_char(s: &mut String, c: char)
    ensures
        final(s)@ == old(s)@.push(c),
{
    s.push(c);
}

/// The characters of `s`, in order.
pub fn chars_of(s: &str) -> (v: Vec<char>)
    ensures
        v@ == s@,
{
    let mut v: Vec<char> = Vec::new();
    for c in it: s.chars()
        invariant
            v@ == it.seq().take(it.index() as int),
            it.seq() == s@,
    {
        v.push(c);
        proof {
            assert(it.seq().take(it.index() + 1) =~= it.seq().take(it.index() as int).push(c));
        }
    }
    assert(v@ =~= s@);
    v
}

/// A `String` holding exactly the characters of `v`.
pub fn string_of(v: &Vec<char>) -> (s: String)
    ensures
        s@ == v@,
{
    let mut s = String::new();
    let mut i: usize = 0;
    while i < v.len()
        invariant
            i <= v.len(),
            s@ == v@.take(i as int),
        decreases v.len() - i,
    {
        push_char(&mut s, v[i]);
        assert(v@.take(i + 1) =~= v@.take(i as int).push(v@[i as int]));
        i += 1;
    }
    assert(v@.take(v.len() as int) =~= v@);
    s
}

pub fn push_chars(out: &mut String, v: &Vec<char>)
    ensures
        final(out)@ == old(out)@ + v@,
{
    let mut i: usize = 0;
    while i < v.len()
        invariant
            i <= v.len(),
            out@ == old(out)@ + v@.take(i as int),
        decreases v.len() - i,
    {
        push_char(out, v[i]);
        assert(v@.take(i + 1) =~= v@.take(i as int).push(v@[i as int]));
        i += 1;
    }
    assert(v@.take(v.len() as int) =~= v@);
}

/// Append `v[a..b]`.
pub fn push_range(out: &mut String, v: &Vec<char>, a: usize, b: usize)
    requires
        a <= b <= v@.len(),
    ensures
        final(out)@ == old(out)@ + v@.subrange(a as int, b as int),
{
    let mut i: usize = a;
    while i < b
        invariant
            a <= i <= b <= v@.len(),
            out@ == old(out)@ + v@.subrange(a as int, i as int),
        decreases b - i,
    {
        push_char(out, v[i]);
        assert(v@.subrange(a as int, i + 1) =~= v@.subrange(a as int, i as int).push(v@[i as int]));
        i += 1;
    }
}

pub fn seq_eq_chars(a: &Vec<char>, b: &Vec<char>) -> (r: bool)
    ensures
        r == (a@ == b@),
{
    if a.len() != b.len() {
        return false;
    }
    let mut i: usize = 0;
    while i < a.len()
        invariant
            i <= a.len(),
            a.len() == b.len(),
            forall|k: int| 0 <= k < i ==> a@[k] == b@[k],
        decreases a.len() - i,
    {
        if a[i] != b[i] {
            return false;
        }
        i += 1;
    }
    assert(a@ =~= b@);
    true
}

/// Character-wise equality of two string slices.
pub fn str_eq(a: &str, b: &str) -> (r: bool)
    ensures
        r == (a@ == b@),
{
    let va = chars_of(a);
    let vb = chars_of(b);
    seq_eq_chars(&va, &vb)
}

pub fn bytes_eq(a: &[u8], b: &[u8]) -> (r: bool)
    ensures
        r == (a@ == b@),
{
    if a.len() != b.len() {
        return false;
    }
    let mut i: usize = 0;
    while i < a.len()
        invariant
            i <= a.len(),
            a.len() == b.len(),
            forall|k: int| 0 <= k < i ==> a@[k] == b@[k],
        decreases a.len() - i,
    {
        if a[i] != b[i] {
            return false;
        }
        i += 1;
    }
    assert(a@ =~= b@);
    true
}

// ----------------------------------------------------------------------------------------------
// Lowercase hex
// ----------------------------------------------------------------------------------------------

pub open spec fn hex_digit(n: nat) -> char {
    if n < 10 {
        ((n + 0x30) as u32) as char
    } else {
        ((n - 10 + 0x61) as u32) as char
    }
}

pub fn hex_digit_exec(n: u8) -> (c: char)
    requires
        n < 16,
    ensures
        c == hex_digit(n as nat),
{
    if n < 10 {
        (n + 0x30) as char
    } else {
        (n - 10 + 0x61) as char
    }
}

pub open spec fn hex_byte(b: u8) -> Seq<char> {
    seq![hex_digit((b / 16) as nat), hex_digit((b % 16) as nat)]
}

/// Lowercase hex rendering of a byte sequence (two characters per byte).
pub open spec fn hex_spec(b: Seq<u8>) -> Seq<char>
    decreases b.len(),
{
    if b.len() == 0 {
        seq![]
    } else {
        hex_spec(b.drop_last()) + hex_byte(b.last())
    }
}

pub proof fn lemma_hex_len(b: Seq<u8>)
    ensures
        hex_spec(b).len() == 2 * b.len(),
    decreases b.len(),
{
    if b.len() > 0 {
        lemma_hex_len(b.drop_last());
    }
}

pub fn push_hex(out: &mut String, b: &[u8])
    ensures
        final(out)@ == old(out)@ + hex_spec(b@),
{
    let mut i: usize = 0;
    while i < b.len()
        invariant
            i <= b.len(),
            out@ == old(out)@ + hex_spec(b@.take(i as int)),
        decreases b.len() - i,
    {
        let x = b[i];
        push_char(out, hex_digit_exec(x / 16));
        push_char(out, hex_digit_exec(x % 16));
        assert(b@.take(i + 1).drop_last() =~= b@.take(i as int));
        i += 1;
    }
    assert(b@.take(b.len() as int) =~= b@);
}

/// Lowercase hex of `b` (two characters per byte).
pub fn hex(b: &[u8]) -> (s: String)
    ensures
        s@ == hex_spec(b@),
{
    let mut s = String::new();
    push_hex(&mut s, b);
    assert(s@ =~= hex_spec(b@));
    s
}

// ----------------------------------------------------------------------------------------------
// JSON string literals
// ----------------------------------------------------------------------------------------------

/// One escaped character. `ws` selects the variant that also writes `\n`, `\r`, `\t` as short
/// escapes (otherwise every control character below 0x20 is a `\u00XX` escape).
pub open spec fn esc_char(c: char, ws: bool) -> Seq<char> {
    if c == '"' {
        seq!['\\', '"']
    } else if c == '\\' {
        seq!['\\', '\\']
    } else if ws && c == '\n' {
        seq!['\\', 'n']
    } else if ws && c == '\r' {
        seq!['\\', 'r']
    } else if ws && c == '\t' {
        seq!['\\', 't']
    } else if (c as u32) < 0x20 {
        seq![
            '\\',
            'u',
            '0',
            '0',
            hex_digit(((c as u32) / 16) as nat),
            hex_digit(((c as u32) % 16) as nat),
        ]
    } else {
        seq![c]
    }
}

pub open spec fn escape_spec(s: Seq<char>, ws: bool) -> Seq<char>
    decreases s.len(),
{
    if s.len() == 0 {
        seq![]
    } else {
        escape_spec(s.drop_last(), ws) + esc_char(s.last(), ws)
    }
}

/// A JSON string literal for `s`: quotes around the escaped characters.
pub open spec fn jstr_spec(s: Seq<char>, ws: bool) -> Seq<char> {
    seq!['"'] + escape_spec(s, ws) + seq!['"']
}

/// Short name for the compact escaping used by the casefile courts.
pub open spec fn js(s: Seq<char>) -> Seq<char> {
    jstr_spec(s, false)
}

pub fn push_esc_char(out: &mut String, c: char, ws: bool)
    ensures
        final(out)@ == old(out)@ + esc_char(c, ws),
{
    if c == '"' {
        push_char(out, '\\');
        push_char(out, '"');
    } else if c == '\\' {
        push_char(out, '\\');
        push_char(out, '\\');
    } else if ws && c == '\n' {
        push_char(out, '\\');
        push_char(out, 'n');
    } else if ws && c == '\r' {
        push_char(out, '\\');
        push_char(out, 'r');
    } else if ws && c == '\t' {
        push_char(out, '\\');
        push_char(out, 't');
    } else if (c as u32) < 0x20 {
        let u = c as u32;
        push_char(out, '\\');
        push_char(out, 'u');
        push_char(out, '0');
        push_char(out, '0');
        push_char(out, hex_digit_exec((u / 16) as u8));
        push_char(out, hex_digit_exec((u % 16) as u8));
    } else {
        push_char(out, c);
    }
    assert(final(out)@ =~= old(out)@ + esc_char(c, ws));
}

/// Append the JSON string literal for `s`.
pub fn push_jstr_ws(out: &mut String, s: &str, ws: bool)
    ensures
        final(out)@ == old(out)@ + jstr_spec(s@, ws),
{
    let v = chars_of(s);
    push_char(out, '"');
    let ghost start = out@;
    let mut i: usize = 0;
    while i < v.len()
        invariant
            i <= v.len(),
            v@ == s@,
            out@ == start + escape_spec(v@.take(i as int), ws),
        decreases v.len() - i,
    {
        push_esc_char(out, v[i], ws);
        assert(v@.take(i + 1).drop_last() =~= v@.take(i as int));
        i += 1;
    }
    assert(v@.take(v.len() as int) =~= v@);
    push_char(out, '"');
    assert(final(out)@ =~= old(out)@ + jstr_spec(s@, ws));
}

/// Append the compact JSON string literal for `s`.
pub fn push_js(out: &mut String, s: &str)
    ensures
        final(out)@ == old(out)@ + js(s@),
{
    push_jstr_ws(out, s, false);
}

/// Append a literal.
pub fn push_lit(out: &mut String, s: &str)
    ensures
        final(out)@ == old(out)@ + s@,
{
    out.append(s);
}

// ----------------------------------------------------------------------------------------------
// Decimal rendering
// ----------------------------------------------------------------------------------------------

pub open spec fn digit_char(d: nat) -> char {
    ((d % 10 + 0x30) as u32) as char
}

/// Decimal digits of a natural number (no leading zeros; `0` is `"0"`).
pub open spec fn dec_nat(n: nat) -> Seq<char>
    decreases n,
{
    if n < 10 {
        seq![digit_char(n)]
    } else {
        dec_nat(n / 10).push(digit_char(n % 10))
    }
}

/// Decimal rendering of an integer (`-` before the magnitude of a negative value).
pub open spec fn dec_int(i: int) -> Seq<char> {
    if i < 0 {
        seq!['-'] + dec_nat((-i) as nat)
    } else {
        dec_nat(i as nat)
    }
}

fn digit_char_exec(d: u128) -> (c: char)
    requires
        d < 10,
    ensures
        c == digit_char(d as nat),
{
    ((d as u8) + 0x30) as char
}

pub fn dec_digits_u128(n: u128) -> (r: Vec<char>)
    ensures
        r@ == dec_nat(n as nat),
    decreases n,
{
    if n < 10 {
        let mut r = Vec::new();
        r.push(digit_char_exec(n));
        r
    } else {
        let mut r = dec_digits_u128(n / 10);
        r.push(digit_char_exec(n % 10));
        r
    }
}

pub fn push_u128(out: &mut String, n: u128)
    ensures
        final(out)@ == old(out)@ + dec_nat(n as nat),
{
    let v = dec_digits_u128(n);
    push_chars(out, &v);
}

pub fn push_u64(out: &mut String, n: u64)
    ensures
        final(out)@ == old(out)@ + dec_nat(n as nat),
{
    push_u128(out, n as u128);
}

pub fn push_usize(out: &mut String, n: usize)
    ensures
        final(out)@ == old(out)@ + dec_nat(n as nat),
{
    push_u128(out, n as u128);
}

pub fn push_i128(out: &mut String, n: i128)
    ensures
        final(out)@ == old(out)@ + dec_int(n as int),
{
    if n < 0 {
        push_char(out, '-');
        let m: u128 = if n == i128::MIN {
            0x8000_0000_0000_0000_0000_0000_0000_0000u128
        } else {
            (-n) as u128
        };
        push_u128(out, m);
        assert(final(out)@ =~= old(out)@ + dec_int(n as int));
    } else {
        push_u128(out, n as u128);
    }
}

pub fn push_i64(out: &mut String, n: i64)
    ensures
        final(out)@ == old(out)@ + dec_int(n as int),
{
    push_i128(out, n as i128);
}

pub open spec fn bool_text(b: bool) -> Seq<char> {
    if b {
        seq!['t', 'r', 'u', 'e']
    } else {
        seq!['f', 'a', 'l', 's', 'e']
    }
}

pub fn push_bool(out: &mut String, b: bool)
    ensures
        final(out)@ == old(out)@ + bool_text(b),
{
    if b {
        push_char(out, 't');
        push_char(out, 'r');
        push_char(out, 'u');
        push_char(out, 'e');
    } else {
        push_char(out, 'f');
        push_char(out, 'a');
        push_char(out, 'l');
        push_char(out, 's');
        push_char(out, 'e');
    }
    assert(final(out)@ =~= old(out)@ + bool_text(b));
}


// ----------------------------------------------------------------------------------------------
// Comma-joined lists
// ----------------------------------------------------------------------------------------------

/// The text of each string.
pub open spec fn strs_view(v: Seq<String>) -> Seq<Seq<char>> {
    v.map_values(|s: String| s@)
}

/// The parts separated by single commas (`[a, b, c]` becomes `a,b,c`).
pub open spec fn join_comma(parts: Seq<Seq<char>>) -> Seq<char>
    decreases parts.len(),
{
    if parts.len() == 0 {
        seq![]
    } else if parts.len() == 1 {
        parts[0]
    } else {
        join_comma(parts.drop_last()) + seq![','] + parts.last()
    }
}

/// Append the parts joined by commas.
pub fn push_joined(out: &mut String, parts: &Vec<String>)
    ensures
        final(out)@ == old(out)@ + join_comma(strs_view(parts@)),
{
    let ghost pv = strs_view(parts@);
    let mut i: usize = 0;
    while i < parts.len()
        invariant
            i <= parts@.len(),
            pv == strs_view(parts@),
            out@ == old(out)@ + join_comma(pv.take(i as int)),
        decreases parts@.len() - i,
    {
        if i > 0 {
            push_char(out, ',');
        }
        out.append(parts[i].as_str());
        assert(pv.take(i + 1).drop_last() =~= pv.take(i as int));
        i += 1;
    }
    assert(pv.take(i as int) =~= pv);
}

/// Append `s` to a list of strings and keep its view in step.
pub proof fn lemma_strs_push(v: Seq<String>, s: String)
    ensures
        strs_view(v.push(s)) == strs_view(v).push(s@),
{
    assert(strs_view(v.push(s)) =~= strs_view(v).push(s@));
}

/// Append the escaped characters of `s` (a JSON string body, without the quotes).
pub fn push_escaped(out: &mut String, s: &str, ws: bool)
    ensures
        final(out)@ == old(out)@ + escape_spec(s@, ws),
{
    let v = chars_of(s);
    let mut i: usize = 0;
    while i < v.len()
        invariant
            i <= v.len(),
            v@ == s@,
            out@ == old(out)@ + escape_spec(v@.take(i as int), ws),
        decreases v.len() - i,
    {
        push_esc_char(out, v[i], ws);
        assert(v@.take(i + 1).drop_last() =~= v@.take(i as int));
        i += 1;
    }
    assert(v@.take(v.len() as int) =~= v@);
}

/// The `Debug` rendering of a string slice (quoted, with Rust's escapes).
pub uninterp spec fn spec_debug_str(s: Seq<char>) -> Seq<char>;

/// Calls `format!("{:?}", s)` (std's `Debug` for `str`). Trusted claim: the rendering is a
/// function of the text alone.
#[verifier::external_body]
pub(crate) fn debug_str(s: &str) -> (r: String)
    ensures
        r@ == spec_debug_str(s@),
{
    format!("{s:?}")
}

/// The parts separated by `sep`.
pub open spec fn join_sep(parts: Seq<Seq<char>>, sep: Seq<char>) -> Seq<char>
    decreases parts.len(),
{
    if parts.len() == 0 {
        seq![]
    } else if parts.len() == 1 {
        parts[0]
    } else {
        join_sep(parts.drop_last(), sep) + sep + parts.last()
    }
}

/// Append the parts joined by `sep`.
pub fn push_joined_sep(out: &mut String, parts: &Vec<String>, sep: &str)
    ensures
        final(out)@ == old(out)@ + join_sep(strs_view(parts@), sep@),
{
    let ghost pv = strs_view(parts@);
    let mut i: usize = 0;
    while i < parts.len()
        invariant
            i <= parts@.len(),
            pv == strs_view(parts@),
            out@ == old(out)@ + join_sep(pv.take(i as int), sep@),
        decreases parts@.len() - i,
    {
        if i > 0 {
            out.append(sep);
        }
        out.append(parts[i].as_str());
        assert(pv.take(i + 1).drop_last() =~= pv.take(i as int));
        i += 1;
    }
    assert(pv.take(i as int) =~= pv);
}

// ----------------------------------------------------------------------------------------------
// Upper-casing and substring search
// ----------------------------------------------------------------------------------------------

/// The ASCII upper-cased characters of `v`.
pub fn upper_chars(v: &Vec<char>) -> (r: Vec<char>)
    ensures
        r@ == upper_seq(v@),
{
    let mut out: Vec<char> = Vec::new();
    let mut i: usize = 0;
    while i < v.len()
        invariant
            i <= v@.len(),
            out@ == upper_seq(v@.take(i as int)),
        decreases v@.len() - i,
    {
        out.push(upper_char_exec(v[i]));
        assert(upper_seq(v@.take(i + 1)) =~= upper_seq(v@.take(i as int)).push(upper_char(v@[i as int])));
        i += 1;
    }
    assert(v@.take(i as int) =~= v@);
    out
}

/// `pat` stands in `s` from position `i`.
pub open spec fn occurs_at(s: Seq<char>, pat: Seq<char>, i: int) -> bool {
    0 <= i && i + pat.len() <= s.len() && s.subrange(i, i + pat.len()) == pat
}

/// `pat` stands somewhere in `s`.
pub open spec fn contains_sub(s: Seq<char>, pat: Seq<char>) -> bool {
    exists|i: int| #[trigger] occurs_at(s, pat, i)
}

fn matches_at(hay: &Vec<char>, pat: &Vec<char>, i: usize) -> (r: bool)
    requires
        i + pat@.len() <= hay@.len(),
    ensures
        r == occurs_at(hay@, pat@, i as int),
{
    let n = hay.len();
    let mut k: usize = 0;
    while k < pat.len()
        invariant
            n == hay@.len(),
            i + pat@.len() <= hay@.len(),
            k <= pat@.len(),
            forall|m: int| 0 <= m < k ==> hay@[i + m] == pat@[m],
        decreases pat@.len() - k,
    {
        if hay[i + k] != pat[k] {
            assert(hay@.subrange(i as int, i + pat@.len())[k as int] == hay@[i + k]);
            return false;
        }
        k += 1;
    }
    assert(hay@.subrange(i as int, i + pat@.len()) =~= pat@);
    true
}

/// Whether `pat` stands somewhere in `hay`.
pub fn contains_chars(hay: &Vec<char>, pat: &str) -> (r: bool)
    ensures
        r == contains_sub(hay@, pat@),
{
    let p = chars_of(pat);
    if p.len() > hay.len() {
        assert forall|j: int| !occurs_at(hay@, p@, j) by {}
        return false;
    }
    if p.len() == 0 {
        assert(hay@.subrange(0, 0) =~= p@);
        assert(occurs_at(hay@, p@, 0));
        return true;
    }
    let n = hay.len();
    let mut i: usize = 0;
    while i <= n - p.len()
        invariant
            n == hay@.len(),
            p@.len() >= 1,
            p@ == pat@,
            p@.len() <= hay@.len(),
            i <= hay@.len() - p@.len() + 1,
            forall|j: int| 0 <= j < i ==> !occurs_at(hay@, p@, j),
        decreases hay@.len() - p@.len() + 1 - i,
    {
        if matches_at(hay, &p, i) {
            assert(occurs_at(hay@, p@, i as int));
            return true;
        }
        i += 1;
    }
    assert forall|j: int| !occurs_at(hay@, p@, j) by {
        if 0 <= j < i {
        }
    }
    false
}

/// What stands in a piece of a text stands in the text.
pub proof fn lemma_contains_within(a: Seq<char>, s: Seq<char>, b: Seq<char>, pat: Seq<char>)
    requires
        contains_sub(s, pat),
    ensures
        contains_sub(a + s + b, pat),
{
    let i = choose|i: int| occurs_at(s, pat, i);
    assert((a + s + b).subrange(a.len() + i, a.len() + i + pat.len()) =~= s.subrange(i, i + pat.len()));
    assert(occurs_at(a + s + b, pat, a.len() + i));
}

/// A text stands in itself.
pub proof fn lemma_contains_self(s: Seq<char>)
    ensures
        contains_sub(s, s),
{
    assert(s.subrange(0, s.len() as int) =~= s);
    assert(occurs_at(s, s, 0));
}

/// What stands in a text stands in any text that begins with it.
pub proof fn lemma_contains_prefix(s: Seq<char>, b: Seq<char>, pat: Seq<char>)
    requires
        contains_sub(s, pat),
    ensures
        contains_sub(s + b, pat),
{
    lemma_contains_within(seq![], s, b, pat);
    assert(Seq::<char>::empty() + s + b =~= s + b);
}

/// What stands in a text stands in any text that ends with it.
pub proof fn lemma_contains_end(s: Seq<char>, t: Seq<char>, pat: Seq<char>)
    requires
        contains_sub(t, pat),
        t.len() <= s.len(),
        s.subrange(s.len() - t.len(), s.len() as int) == t,
    ensures
        contains_sub(s, pat),
{
    let a = s.subrange(0, s.len() - t.len());
    lemma_contains_within(a, t, seq![], pat);
    assert(a + t + Seq::<char>::empty() =~= s);
}

} // verus!
