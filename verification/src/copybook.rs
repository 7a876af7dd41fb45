//! The copybook line scanner: data-item lines (`level name [PIC p] [USAGE] [OCCURS ..]
//! [REDEFINES ..] [SIGN ..]`) and LEVEL-88 condition lines (`88 NAME VALUE lit [THRU lit] ..`).
use crate::cobol::{lit_model, value_model, values_model, item_view, CondLit, CondValue, Condition, Item, ItemView, LitModel, Odo, Usage, ValueModel};
use crate::text::{chars_of, is_ws, is_ws_exec, string_of, upper_char, upper_char_exec, upper_seq};
use vstd::prelude::*;

verus! {

// ----------------------------------------------------------------------------------------------
// Trimming, splitting, case
// ----------------------------------------------------------------------------------------------

pub open spec fn trim_end_ws(s: Seq<char>) -> Seq<char>
    decreases s.len(),
{
    if s.len() > 0 && is_ws(s.last()) {
        trim_end_ws(s.drop_last())
    } else {
        s
    }
}

pub open spec fn trim_start_ws(s: Seq<char>) -> Seq<char>
    decreases s.len(),
{
    if s.len() > 0 && is_ws(s[0]) {
        trim_start_ws(s.drop_first())
    } else {
        s
    }
}

/// `str::trim`: whitespace removed at both ends.
pub open spec fn trim_ws(s: Seq<char>) -> Seq<char> {
    trim_start_ws(trim_end_ws(s))
}

pub open spec fn trim_end_dots(s: Seq<char>) -> Seq<char>
    decreases s.len(),
{
    if s.len() > 0 && s.last() == '.' {
        trim_end_dots(s.drop_last())
    } else {
        s
    }
}

/// A declaration with trailing whitespace and then trailing periods removed.
pub open spec fn clause_text(s: Seq<char>) -> Seq<char> {
    trim_end_dots(trim_end_ws(s))
}

/// Left-to-right whitespace scan: the completed words and the word in progress.
pub open spec fn scan_ws(s: Seq<char>) -> (Seq<Seq<char>>, Seq<char>)
    decreases s.len(),
{
    if s.len() == 0 {
        (seq![], seq![])
    } else {
        let (toks, cur) = scan_ws(s.drop_last());
        if is_ws(s.last()) {
            if cur.len() > 0 {
                (toks.push(cur), seq![])
            } else {
                (toks, seq![])
            }
        } else {
            (toks, cur.push(s.last()))
        }
    }
}

/// `str::split_whitespace`: the maximal runs of non-whitespace characters.
pub open spec fn split_ws(s: Seq<char>) -> Seq<Seq<char>> {
    let (toks, cur) = scan_ws(s);
    if cur.len() > 0 {
        toks.push(cur)
    } else {
        toks
    }
}

/// The character sequences of a vector of character vectors.
pub open spec fn vv(v: Seq<Vec<char>>) -> Seq<Seq<char>> {
    v.map_values(|t: Vec<char>| t@)
}

pub open spec fn upper_all(ts: Seq<Seq<char>>) -> Seq<Seq<char>> {
    ts.map_values(|t: Seq<char>| upper_seq(t))
}

/// ASCII case-insensitive equality.
pub open spec fn eq_ic(a: Seq<char>, b: Seq<char>) -> bool {
    upper_seq(a) == upper_seq(b)
}

/// Length of `s` once trailing whitespace is removed.
pub fn trim_end_ws_len(v: &Vec<char>, end: usize) -> (e: usize)
    requires
        end <= v@.len(),
    ensures
        e <= end,
        v@.take(e as int) == trim_end_ws(v@.take(end as int)),
{
    let mut e = end;
    while e > 0 && is_ws_exec(v[e - 1])
        invariant
            e <= end <= v@.len(),
            trim_end_ws(v@.take(e as int)) == trim_end_ws(v@.take(end as int)),
        decreases e,
    {
        assert(v@.take(e as int).drop_last() =~= v@.take(e - 1));
        e -= 1;
    }
    e
}

/// The characters of a declaration with trailing whitespace and periods removed.
pub fn clause_chars(decl: &str) -> (v: Vec<char>)
    ensures
        v@ == clause_text(decl@),
{
    let all = chars_of(decl);
    let e1 = trim_end_ws_len(&all, all.len());
    assert(all@.take(all@.len() as int) =~= all@);
    let mut e = e1;
    while e > 0 && all[e - 1] == '.'
        invariant
            e <= e1 <= all@.len(),
            trim_end_dots(all@.take(e as int)) == trim_end_dots(all@.take(e1 as int)),
        decreases e,
    {
        assert(all@.take(e as int).drop_last() =~= all@.take(e - 1));
        e -= 1;
    }
    let mut v: Vec<char> = Vec::new();
    let mut i: usize = 0;
    while i < e
        invariant
            i <= e <= all@.len(),
            v@ == all@.take(i as int),
        decreases e - i,
    {
        v.push(all[i]);
        assert(all@.take(i + 1) =~= all@.take(i as int).push(all@[i as int]));
        i += 1;
    }
    v
}

/// The words of `v` (whitespace separated), in order.
pub fn split_words(v: &Vec<char>) -> (r: Vec<Vec<char>>)
    ensures
        vv(r@) == split_ws(v@),
{
    let mut toks: Vec<Vec<char>> = Vec::new();
    let mut cur: Vec<char> = Vec::new();
    let mut i: usize = 0;
    while i < v.len()
        invariant
            i <= v@.len(),
            (vv(toks@), cur@) == scan_ws(v@.take(i as int)),
        decreases v@.len() - i,
    {
        let c = v[i];
        assert(v@.take(i + 1).drop_last() =~= v@.take(i as int));
        if is_ws_exec(c) {
            if cur.len() > 0 {
                let ghost before = vv(toks@);
                let w = cur;
                toks.push(w);
                assert(vv(toks@) =~= before.push(w@));
                cur = Vec::new();
            }
        } else {
            cur.push(c);
        }
        i += 1;
    }
    assert(v@.take(v@.len() as int) =~= v@);
    if cur.len() > 0 {
        let ghost before = vv(toks@);
        let w = cur;
        toks.push(w);
        assert(vv(toks@) =~= before.push(w@));
    }
    toks
}

pub fn upper_vec(v: &Vec<char>) -> (r: Vec<char>)
    ensures
        r@ == upper_seq(v@),
{
    let mut r: Vec<char> = Vec::new();
    let mut i: usize = 0;
    while i < v.len()
        invariant
            i <= v@.len(),
            r@ == upper_seq(v@.take(i as int)),
        decreases v@.len() - i,
    {
        r.push(upper_char_exec(v[i]));
        assert(upper_seq(v@.take(i + 1)) =~= upper_seq(v@.take(i as int)).push(upper_char(v@[i as int])));
        i += 1;
    }
    assert(v@.take(v@.len() as int) =~= v@);
    r
}

pub fn upper_words(ts: &Vec<Vec<char>>) -> (r: Vec<Vec<char>>)
    ensures
        vv(r@) == upper_all(vv(ts@)),
{
    let mut r: Vec<Vec<char>> = Vec::new();
    let mut i: usize = 0;
    while i < ts.len()
        invariant
            i <= ts@.len(),
            vv(r@) == upper_all(vv(ts@).take(i as int)),
        decreases ts@.len() - i,
    {
        let ghost before = vv(r@);
        let u = upper_vec(&ts[i]);
        r.push(u);
        assert(vv(r@) =~= before.push(u@));
        assert(upper_all(vv(ts@).take(i + 1)) =~= upper_all(vv(ts@).take(i as int)).push(
            upper_seq(vv(ts@)[i as int]),
        ));
        i += 1;
    }
    assert(vv(ts@).take(ts@.len() as int) =~= vv(ts@));
    r
}

/// `t` is exactly the literal `lit`.
pub fn word_is(t: &Vec<char>, lit: &str) -> (r: bool)
    ensures
        r == (t@ == lit@),
{
    let l = chars_of(lit);
    crate::text::seq_eq_chars(t, &l)
}

/// `t` equals `lit` ignoring ASCII case.
pub fn word_is_ic(t: &Vec<char>, lit: &str) -> (r: bool)
    ensures
        r == eq_ic(t@, lit@),
{
    let a = upper_vec(t);
    let l = chars_of(lit);
    let b = upper_vec(&l);
    let r = crate::text::seq_eq_chars(&a, &b);
    r
}

// ----------------------------------------------------------------------------------------------
// Unsigned integer literals (`str::parse` for unsigned types)
// ----------------------------------------------------------------------------------------------

pub open spec fn all_digits(s: Seq<char>) -> bool {
    forall|i: int| 0 <= i < s.len() ==> '0' <= #[trigger] s[i] && s[i] <= '9'
}

pub open spec fn digits_value(s: Seq<char>) -> nat
    decreases s.len(),
{
    if s.len() == 0 {
        0
    } else {
        digits_value(s.drop_last()) * 10 + ((s.last() as u32) - 0x30) as nat
    }
}

/// An unsigned literal: an optional `+`, then at least one digit, with a value at most `max`.
pub open spec fn parse_unsigned(s: Seq<char>, max: nat) -> Option<nat> {
    let body = if s.len() > 0 && s[0] == '+' {
        s.drop_first()
    } else {
        s
    };
    if body.len() > 0 && all_digits(body) && digits_value(body) <= max {
        Some(digits_value(body))
    } else {
        None
    }
}

pub proof fn lemma_digits_value_prefix_grows(s: Seq<char>, i: int)
    requires
        0 <= i <= s.len(),
        all_digits(s),
    ensures
        digits_value(s.take(i)) <= digits_value(s),
    decreases s.len() - i,
{
    if i < s.len() {
        lemma_digits_value_prefix_grows(s, i + 1);
        assert(s.take(i + 1).drop_last() =~= s.take(i));
    } else {
        assert(s.take(i) =~= s);
    }
}

/// Parse an unsigned literal bounded by `max`.
pub fn parse_unsigned_exec(t: &Vec<char>, max: u64) -> (r: Option<u64>)
    requires
        max <= 0xffff_ffff,
    ensures
        match parse_unsigned(t@, max as nat) {
            Some(n) => r == Some(n as u64),
            None => r is None,
        },
{
    let start: usize = if t.len() > 0 && t[0] == '+' {
        1
    } else {
        0
    };
    let ghost body = if t@.len() > 0 && t@[0] == '+' {
        t@.drop_first()
    } else {
        t@
    };
    assert(body =~= t@.skip(start as int));
    if start >= t.len() {
        return None;
    }
    let mut v: u64 = 0;
    let mut i: usize = start;
    while i < t.len()
        invariant
            start <= i <= t@.len(),
            body == t@.skip(start as int),
            body == (if t@.len() > 0 && t@[0] == '+' {
                t@.drop_first()
            } else {
                t@
            }),
            v <= max,
            max <= 0xffff_ffff,
            all_digits(body.take(i - start)),
            v == digits_value(body.take(i - start)),
        decreases t@.len() - i,
    {
        let c = t[i];
        if !('0' <= c && c <= '9') {
            assert(!all_digits(body)) by {
                assert(body[i - start] == c);
            }
            return None;
        }
        let d = (c as u32 - 0x30) as u64;
        assert(body.take(i + 1 - start).drop_last() =~= body.take(i - start));
        assert(body.take(i + 1 - start).last() == c);
        let nv = v * 10 + d;
        if nv > max {
            proof {
                assert(all_digits(body.take(i + 1 - start)));
                if all_digits(body) {
                    lemma_digits_value_prefix_grows(body, i + 1 - start);
                }
            }
            return None;
        }
        v = nv;
        i += 1;
    }
    assert(body.take(i - start) =~= body);
    Some(v)
}

// ----------------------------------------------------------------------------------------------
// Data-item lines
// ----------------------------------------------------------------------------------------------

/// The clause state accumulated while scanning a data-item line.
pub struct ItemScan {
    pub pic: Option<Seq<char>>,
    pub usage: Usage,
    pub occurs: Option<u32>,
    pub redefines: Option<Seq<char>>,
    pub sep: bool,
    pub lead: bool,
    pub odo: Option<(u32, u32, Seq<char>)>,
}

pub open spec fn usage_keyword(t: Seq<char>) -> Option<Usage> {
    if t == "COMP-3"@ || t == "PACKED-DECIMAL"@ || t == "COMPUTATIONAL-3"@ {
        Some(Usage::Comp3)
    } else if t == "COMP"@ || t == "BINARY"@ || t == "COMPUTATIONAL"@ {
        Some(Usage::Comp)
    } else if t == "COMP-5"@ {
        Some(Usage::Comp5)
    } else if t == "COMP-X"@ {
        Some(Usage::CompX)
    } else if t == "COMP-6"@ || t == "COMPUTATIONAL-6"@ {
        Some(Usage::Comp6)
    } else if t == "DISPLAY"@ {
        Some(Usage::Display)
    } else {
        None
    }
}

/// The `DEPENDING ON` target found at or after `k` (empty when absent).
pub open spec fn depending_on(toks: Seq<Seq<char>>, k: int) -> Seq<char>
    decreases toks.len() - k,
{
    if k >= 0 && k + 2 < toks.len() {
        if toks[k] == "DEPENDING"@ && toks[k + 1] == "ON"@ {
            toks[k + 2]
        } else {
            depending_on(toks, k + 1)
        }
    } else {
        seq![]
    }
}

pub open spec fn u32_or_zero(t: Seq<char>) -> u32 {
    match parse_unsigned(t, 0xffff_ffff) {
        Some(n) => n as u32,
        None => 0,
    }
}

pub open spec fn u32_opt(t: Seq<char>) -> Option<u32> {
    match parse_unsigned(t, 0xffff_ffff) {
        Some(n) => Some(n as u32),
        None => None,
    }
}

/// The clause grammar of a data-item line, from token `i` on.
pub open spec fn clause_scan(toks: Seq<Seq<char>>, i: int, st: ItemScan) -> ItemScan
    decreases toks.len() - i,
{
    if i < 0 || i >= toks.len() {
        st
    } else {
        let t = toks[i];
        if t == "PIC"@ || t == "PICTURE"@ {
            if i + 1 < toks.len() {
                clause_scan(toks, i + 2, ItemScan { pic: Some(toks[i + 1]), ..st })
            } else {
                clause_scan(toks, i + 1, st)
            }
        } else if usage_keyword(t) is Some {
            clause_scan(toks, i + 1, ItemScan { usage: usage_keyword(t)->0, ..st })
        } else if t == "OCCURS"@ {
            if i + 3 < toks.len() && toks[i + 2] == "TO"@ {
                clause_scan(
                    toks,
                    i + 4,
                    ItemScan {
                        odo: Some(
                            (u32_or_zero(toks[i + 1]), u32_or_zero(toks[i + 3]), depending_on(toks, i + 4)),
                        ),
                        ..st
                    },
                )
            } else if i + 1 < toks.len() {
                clause_scan(toks, i + 2, ItemScan { occurs: u32_opt(toks[i + 1]), ..st })
            } else {
                clause_scan(toks, i + 1, st)
            }
        } else if t == "REDEFINES"@ {
            if i + 1 < toks.len() {
                clause_scan(toks, i + 2, ItemScan { redefines: Some(toks[i + 1]), ..st })
            } else {
                clause_scan(toks, i + 1, st)
            }
        } else if t == "SEPARATE"@ {
            clause_scan(toks, i + 1, ItemScan { sep: true, ..st })
        } else if t == "LEADING"@ {
            clause_scan(toks, i + 1, ItemScan { lead: true, ..st })
        } else {
            clause_scan(toks, i + 1, st)
        }
    }
}

pub open spec fn initial_scan() -> ItemScan {
    ItemScan { pic: None, usage: Usage::Display, occurs: None, redefines: None, sep: false, lead: false, odo: None }
}

/// The model of a parsed data item: level, name and the scanned clauses.
pub struct ItemModel {
    pub level: u16,
    pub name: Seq<char>,
    pub scan: ItemScan,
}

/// The upper-cased words of a declaration.
pub open spec fn decl_words(decl: Seq<char>) -> Seq<Seq<char>> {
    upper_all(split_ws(clause_text(decl)))
}

pub open spec fn item_of_scan(level: u16, name: Seq<char>, sc: ItemScan) -> ItemView {
    ItemView {
        level,
        name,
        pic: match sc.pic {
            Some(p) => Some((p, sc.usage, sc.sep, sc.lead)),
            None => None,
        },
        occurs: sc.occurs,
        redefines: sc.redefines,
        odo: sc.odo,
    }
}

/// What a data-item line declares (`None`: not a storage item — too short, bad level, or 88).
pub open spec fn parse_item_spec(decl: Seq<char>) -> Option<ItemModel> {
    let toks = decl_words(decl);
    if toks.len() < 2 {
        None
    } else {
        match parse_unsigned(toks[0], 0xffff) {
            None => None,
            Some(level) => if level == 88 {
                None
            } else {
                Some(ItemModel { level: level as u16, name: toks[1], scan: clause_scan(toks, 2, initial_scan()) })
            },
        }
    }
}

fn usage_keyword_exec(t: &Vec<char>) -> (r: Option<Usage>)
    ensures
        r == usage_keyword(t@),
{
    if word_is(t, "COMP-3") || word_is(t, "PACKED-DECIMAL") || word_is(t, "COMPUTATIONAL-3") {
        Some(Usage::Comp3)
    } else if word_is(t, "COMP") || word_is(t, "BINARY") || word_is(t, "COMPUTATIONAL") {
        Some(Usage::Comp)
    } else if word_is(t, "COMP-5") {
        Some(Usage::Comp5)
    } else if word_is(t, "COMP-X") {
        Some(Usage::CompX)
    } else if word_is(t, "COMP-6") || word_is(t, "COMPUTATIONAL-6") {
        Some(Usage::Comp6)
    } else if word_is(t, "DISPLAY") {
        Some(Usage::Display)
    } else {
        None
    }
}

fn depending_on_exec(toks: &Vec<Vec<char>>, k0: usize) -> (r: Vec<char>)
    ensures
        r@ == depending_on(vv(toks@), k0 as int),
{
    let ghost tv = vv(toks@);
    let mut k = k0;
    while k < toks.len() && toks.len() - k > 2
        invariant
            tv == vv(toks@),
            k0 <= k,
            depending_on(tv, k as int) == depending_on(tv, k0 as int),
        decreases toks@.len() - k,
    {
        assert(tv[k as int] == toks@[k as int]@);
        assert(tv[k + 1] == toks@[k + 1]@);
        if word_is(&toks[k], "DEPENDING") && word_is(&toks[k + 1], "ON") {
            assert(tv[k + 2] == toks@[k + 2]@);
            return toks[k + 2].clone();
        }
        k += 1;
    }
    Vec::new()
}

fn u32_or_zero_exec(t: &Vec<char>) -> (r: u32)
    ensures
        r == u32_or_zero(t@),
{
    match parse_unsigned_exec(t, 0xffff_ffff) {
        Some(n) => n as u32,
        None => 0,
    }
}

fn u32_opt_exec(t: &Vec<char>) -> (r: Option<u32>)
    ensures
        r == u32_opt(t@),
{
    match parse_unsigned_exec(t, 0xffff_ffff) {
        Some(n) => Some(n as u32),
        None => None,
    }
}

/// Parse one COBOL data-item line into a layout [`Item`], plus the elementary field's
/// `(usage, sign_separate, sign_leading)` for decoding.
pub fn parse_item(decl: &str) -> (r: Option<(Item, Usage, bool, bool)>)
    ensures
        match parse_item_spec(decl@) {
            None => r is None,
            Some(m) => (r matches Some((it, u, s, l)) && item_view(it) == item_of_scan(m.level, m.name, m.scan)
                && u == m.scan.usage && s == m.scan.sep && l == m.scan.lead),
        },
{
    let clause = clause_chars(decl);
    let words = split_words(&clause);
    let toks = upper_words(&words);
    let ghost tv = vv(toks@);
    assert(tv == decl_words(decl@));
    if toks.len() < 2 {
        return None;
    }
    assert(tv[0] == toks@[0]@);
    assert(tv[1] == toks@[1]@);
    let level = match parse_unsigned_exec(&toks[0], 0xffff) {
        None => {
            return None;
        },
        Some(n) => n as u16,
    };
    if level == 88 {
        return None;
    }
    let name = string_of(&toks[1]);
    let mut pic: Option<Vec<char>> = None;
    let mut usage = Usage::Display;
    let mut occurs: Option<u32> = None;
    let mut redefines: Option<Vec<char>> = None;
    let mut sep = false;
    let mut lead = false;
    let mut odo: Option<(u32, u32, Vec<char>)> = None;
    let mut i: usize = 2;
    while i < toks.len()
        invariant
            tv == vv(toks@),
            2 <= i,
            clause_scan(tv, i as int, ItemScan {
                pic: match pic { Some(p) => Some(p@), None => None },
                usage, occurs,
                redefines: match redefines { Some(p) => Some(p@), None => None },
                sep, lead,
                odo: match odo { Some((a, b, d)) => Some((a, b, d@)), None => None },
            }) == clause_scan(tv, 2, initial_scan()),
        decreases toks@.len() - i,
    {
        let t = &toks[i];
        assert(tv[i as int] == t@);
        let n = toks.len();
        if word_is(t, "PIC") || word_is(t, "PICTURE") {
            if n - i > 1 {
                assert(tv[i + 1] == toks@[i + 1]@);
                pic = Some(toks[i + 1].clone());
                i += 2;
                continue;
            }
        } else if let Some(u) = usage_keyword_exec(t) {
            usage = u;
        } else if word_is(t, "OCCURS") {
            if n - i > 3 && word_is(&toks[i + 2], "TO") {
                assert(tv[i + 1] == toks@[i + 1]@);
                assert(tv[i + 2] == toks@[i + 2]@);
                assert(tv[i + 3] == toks@[i + 3]@);
                let mn = u32_or_zero_exec(&toks[i + 1]);
                let mx = u32_or_zero_exec(&toks[i + 3]);
                let dep = depending_on_exec(&toks, i + 4);
                odo = Some((mn, mx, dep));
                i += 4;
                continue;
            } else if n - i > 1 {
                assert(tv[i + 1] == toks@[i + 1]@);
                assert(i + 3 < n ==> tv[i + 2] == toks@[i + 2]@);
                occurs = u32_opt_exec(&toks[i + 1]);
                i += 2;
                continue;
            }
        } else if word_is(t, "REDEFINES") {
            if n - i > 1 {
                assert(tv[i + 1] == toks@[i + 1]@);
                redefines = Some(toks[i + 1].clone());
                i += 2;
                continue;
            }
        } else if word_is(t, "SEPARATE") {
            sep = true;
        } else if word_is(t, "LEADING") {
            lead = true;
        }
        i += 1;
    }
    let item = Item {
        level,
        name,
        pic: match pic {
            Some(p) => Some((string_of(&p), usage, sep, lead)),
            None => None,
        },
        occurs,
        redefines: match redefines {
            Some(r) => Some(string_of(&r)),
            None => None,
        },
        odo: match odo {
            Some((mn, mx, d)) => Some(Odo { min: mn, max: mx, depending_on: string_of(&d) }),
            None => None,
        },
    };
    Some((item, usage, sep, lead))
}

// ----------------------------------------------------------------------------------------------
// LEVEL-88 condition lines
// ----------------------------------------------------------------------------------------------

/// A token like `"A"` is an alphanumeric literal; everything else is numeric.
pub open spec fn make_lit_spec(tok: Seq<char>) -> LitModel {
    if tok.len() >= 2 && tok[0] == '"' && tok.last() == '"' {
        LitModel::Alpha(tok.subrange(1, tok.len() - 1))
    } else {
        LitModel::Num(tok)
    }
}

/// First index at or after `k` holding `q` (the length when none does).
pub open spec fn find_char(s: Seq<char>, k: int, q: char) -> int
    decreases s.len() - k,
{
    if k < 0 || k >= s.len() {
        s.len() as int
    } else if s[k] == q {
        k
    } else {
        find_char(s, k + 1, q)
    }
}

/// First whitespace index at or after `k` (the length when none).
pub open spec fn find_ws(s: Seq<char>, k: int) -> int
    decreases s.len() - k,
{
    if k < 0 || k >= s.len() {
        s.len() as int
    } else if is_ws(s[k]) {
        k
    } else {
        find_ws(s, k + 1)
    }
}

pub proof fn lemma_find_char_bounds(s: Seq<char>, k: int, q: char)
    requires
        0 <= k,
    ensures
        k <= find_char(s, k, q) <= s.len() || (k > s.len() && find_char(s, k, q) == s.len()),
    decreases s.len() - k,
{
    if k < s.len() && s[k] != q {
        lemma_find_char_bounds(s, k + 1, q);
    }
}

pub proof fn lemma_find_ws_bounds(s: Seq<char>, k: int)
    requires
        0 <= k < s.len(),
        !is_ws(s[k]),
    ensures
        k < find_ws(s, k) <= s.len(),
    decreases s.len() - k,
{
    assert(find_ws(s, k) == find_ws(s, k + 1));
    if k + 1 < s.len() && !is_ws(s[k + 1]) {
        lemma_find_ws_bounds(s, k + 1);
    } else {
        assert(find_ws(s, k + 1) == k + 1);
    }
}

/// The literal / keyword tokens of a `VALUE` clause body from position `i` (a quoted string is
/// one token, re-quoted with `"`; an unterminated quote runs to the end).
pub open spec fn value_tokens(s: Seq<char>, i: int) -> Seq<Seq<char>>
    decreases s.len() - i,
{
    if i < 0 || i >= s.len() {
        seq![]
    } else if is_ws(s[i]) {
        value_tokens(s, i + 1)
    } else if s[i] == '"' || s[i] == '\'' {
        let e = find_char(s, i + 1, s[i]);
        let next = if e < s.len() {
            e + 1
        } else {
            s.len() as int
        };
        if next <= i {
            seq![]
        } else {
            seq![seq!['"'] + s.subrange(i + 1, e) + seq!['"']] + value_tokens(s, next)
        }
    } else {
        let e = find_ws(s, i);
        if e <= i || e > s.len() {
            seq![]
        } else {
            seq![s.subrange(i, e)] + value_tokens(s, e)
        }
    }
}

/// Group literals into `VALUE` entries (`a THRU b` is one range).
pub open spec fn value_entries(lits: Seq<Seq<char>>, i: int) -> Seq<ValueModel>
    decreases lits.len() - i,
{
    if i < 0 || i >= lits.len() {
        seq![]
    } else if i + 2 < lits.len() && eq_ic(lits[i + 1], "THRU"@) {
        seq![ValueModel::Range(make_lit_spec(lits[i]), make_lit_spec(lits[i + 2]))] + value_entries(lits, i + 3)
    } else {
        seq![ValueModel::Lit(make_lit_spec(lits[i]))] + value_entries(lits, i + 1)
    }
}

/// First index where `pat` occurs in `s` at or after `k`.
pub open spec fn find_sub(s: Seq<char>, pat: Seq<char>, k: int) -> Option<int>
    decreases s.len() + 1 - k,
{
    if k < 0 || k + pat.len() > s.len() {
        None
    } else if s.subrange(k, k + pat.len()) == pat {
        Some(k)
    } else {
        find_sub(s, pat, k + 1)
    }
}

/// The text after the first `VALUE` (else the first `value`) in the declaration.
pub open spec fn value_rest(d: Seq<char>) -> Seq<char> {
    match find_sub(d, "VALUE"@, 0) {
        Some(j) => d.skip(j + 5),
        None => match find_sub(d, "value"@, 0) {
            Some(j) => d.skip(j + 5),
            None => seq![],
        },
    }
}

/// What a LEVEL-88 line declares: the upper-cased name and its `VALUE` entries.
pub open spec fn parse_88_spec(decl: Seq<char>) -> Option<(Seq<char>, Seq<ValueModel>)> {
    let d = clause_text(decl);
    let words = split_ws(d);
    if words.len() < 1 || words[0] != "88"@ || words.len() < 2 {
        None
    } else if words.len() < 3 || !eq_ic(words[2], "VALUE"@) {
        None
    } else {
        let values = value_entries(value_tokens(value_rest(d), 0), 0);
        if values.len() == 0 {
            None
        } else {
            Some((upper_seq(words[1]), values))
        }
    }
}

pub fn make_lit(tok: &Vec<char>) -> (r: CondLit)
    ensures
        lit_model(r) == make_lit_spec(tok@),
{
    let n = tok.len();
    if n >= 2 && tok[0] == '"' && tok[n - 1] == '"' {
        let mut inner: Vec<char> = Vec::new();
        let mut i: usize = 1;
        while i < n - 1
            invariant
                1 <= i <= n - 1,
                n == tok@.len(),
                inner@ == tok@.subrange(1, i as int),
            decreases n - 1 - i,
        {
            inner.push(tok[i]);
            assert(tok@.subrange(1, i + 1) =~= tok@.subrange(1, i as int).push(tok@[i as int]));
            i += 1;
        }
        CondLit::Alpha(string_of(&inner))
    } else {
        CondLit::Num(string_of(tok))
    }
}

fn copy_range(s: &Vec<char>, a: usize, b: usize) -> (r: Vec<char>)
    requires
        a <= b <= s@.len(),
    ensures
        r@ == s@.subrange(a as int, b as int),
{
    let mut r: Vec<char> = Vec::new();
    let mut i = a;
    while i < b
        invariant
            a <= i <= b <= s@.len(),
            r@ == s@.subrange(a as int, i as int),
        decreases b - i,
    {
        r.push(s[i]);
        assert(s@.subrange(a as int, i + 1) =~= s@.subrange(a as int, i as int).push(s@[i as int]));
        i += 1;
    }
    r
}

/// Split a `VALUE` clause body into literal/keyword tokens (a quoted string is one token).
pub fn tokenize_values(s: &Vec<char>) -> (r: Vec<Vec<char>>)
    ensures
        vv(r@) == value_tokens(s@, 0),
{
    let mut out: Vec<Vec<char>> = Vec::new();
    let mut i: usize = 0;
    let n = s.len();
    while i < n
        invariant
            i <= n == s@.len(),
            vv(out@) + value_tokens(s@, i as int) == value_tokens(s@, 0),
        decreases n - i,
    {
        let c = s[i];
        if is_ws_exec(c) {
            i += 1;
        } else if c == '"' || c == '\'' {
            let mut e = i + 1;
            while e < n && s[e] != c
                invariant
                    i + 1 <= e <= n == s@.len(),
                    find_char(s@, e as int, c) == find_char(s@, i + 1, c),
                decreases n - e,
            {
                e += 1;
            }
            proof {
                assert(find_char(s@, e as int, c) == e);
            }
            let mut lit: Vec<char> = Vec::new();
            lit.push('"');
            let body = copy_range(s, i + 1, e);
            let mut k: usize = 0;
            while k < body.len()
                invariant
                    k <= body@.len(),
                    lit@ == seq!['"'] + body@.take(k as int),
                decreases body@.len() - k,
            {
                lit.push(body[k]);
                assert(body@.take(k + 1) =~= body@.take(k as int).push(body@[k as int]));
                k += 1;
            }
            assert(body@.take(body@.len() as int) =~= body@);
            lit.push('"');
            assert(lit@ =~= seq!['"'] + s@.subrange(i + 1, e as int) + seq!['"']);
            let next = if e < n {
                e + 1
            } else {
                n
            };
            let ghost before = vv(out@);
            let ghost tok = lit@;
            out.push(lit);
            assert(vv(out@) =~= before.push(tok));
            assert(value_tokens(s@, i as int) == seq![tok] + value_tokens(s@, next as int));
            assert(before + value_tokens(s@, i as int) =~= vv(out@) + value_tokens(s@, next as int));
            i = next;
        } else {
            let mut e = i;
            while e < n && !is_ws_exec(s[e])
                invariant
                    i <= e <= n == s@.len(),
                    find_ws(s@, e as int) == find_ws(s@, i as int),
                decreases n - e,
            {
                e += 1;
            }
            proof {
                lemma_find_ws_bounds(s@, i as int);
            }
            let w = copy_range(s, i, e);
            let ghost before = vv(out@);
            let ghost tok = w@;
            out.push(w);
            assert(vv(out@) =~= before.push(tok));
            assert(value_tokens(s@, i as int) == seq![tok] + value_tokens(s@, e as int));
            assert(before + value_tokens(s@, i as int) =~= vv(out@) + value_tokens(s@, e as int));
            i = e;
        }
    }
    assert(vv(out@) + value_tokens(s@, n as int) =~= vv(out@));
    out
}

fn value_entries_exec(lits: &Vec<Vec<char>>) -> (r: Vec<CondValue>)
    ensures
        values_model(r@) == value_entries(vv(lits@), 0),
{
    let ghost lv = vv(lits@);
    let mut out: Vec<CondValue> = Vec::new();
    let mut i: usize = 0;
    let n = lits.len();
    while i < n
        invariant
            i <= n == lits@.len(),
            lv == vv(lits@),
            values_model(out@) + value_entries(lv, i as int) == value_entries(lv, 0),
        decreases n - i,
    {
        assert(lv[i as int] == lits@[i as int]@);
        let ghost before = values_model(out@);
        if n - i > 2 && word_is_ic(&lits[i + 1], "THRU") {
            assert(lv[i + 1] == lits@[i + 1]@);
            assert(lv[i + 2] == lits@[i + 2]@);
            let v = CondValue::Range(make_lit(&lits[i]), make_lit(&lits[i + 2]));
            out.push(v);
            assert(values_model(out@) =~= before.push(value_model(v)));
            assert(before + value_entries(lv, i as int) =~= values_model(out@) + value_entries(lv, i + 3));
            i += 3;
        } else {
            assert(i + 2 < n ==> lv[i + 1] == lits@[i + 1]@);
            let v = CondValue::Lit(make_lit(&lits[i]));
            out.push(v);
            assert(values_model(out@) =~= before.push(value_model(v)));
            assert(before + value_entries(lv, i as int) =~= values_model(out@) + value_entries(lv, i + 1));
            i += 1;
        }
    }
    assert(values_model(out@) + value_entries(lv, n as int) =~= values_model(out@));
    out
}

fn find_sub_exec(s: &Vec<char>, pat: &str) -> (r: Option<usize>)
    ensures
        match r {
            Some(j) => find_sub(s@, pat@, 0) == Some(j as int) && j + pat@.len() <= s@.len(),
            None => find_sub(s@, pat@, 0) is None,
        },
{
    let p = chars_of(pat);
    let n = s.len();
    let m = p.len();
    if m > n {
        return None;
    }
    let mut k: usize = 0;
    while m <= n - k
        invariant
            k <= n,
            n == s@.len(),
            m == p@.len() == pat@.len(),
            p@ == pat@,
            m <= n,
            find_sub(s@, pat@, k as int) == find_sub(s@, pat@, 0),
        decreases n - k,
    {
        let mut j: usize = 0;
        let mut same = true;
        while j < m
            invariant
                j <= m,
                k + m <= n == s@.len(),
                m == p@.len(),
                same == (forall|x: int| 0 <= x < j ==> s@[k + x] == p@[x]),
            decreases m - j,
        {
            if s[k + j] != p[j] {
                same = false;
            }
            j += 1;
        }
        if same {
            assert(s@.subrange(k as int, k + m) =~= p@);
            return Some(k);
        } else {
            assert(s@.subrange(k as int, k + m) != p@) by {
                let x = choose|x: int| 0 <= x < m && s@[k + x] != p@[x];
                assert(s@.subrange(k as int, k + m)[x] == s@[k + x]);
            }
        }
        k += 1;
    }
    None
}

fn skip_from(s: &Vec<char>, a: usize) -> (r: Vec<char>)
    requires
        a <= s@.len(),
    ensures
        r@ == s@.skip(a as int),
{
    let r = copy_range(s, a, s.len());
    assert(s@.subrange(a as int, s@.len() as int) =~= s@.skip(a as int));
    r
}

/// Parse a `88 NAME VALUE …` condition line into `(name, values)`.
pub fn parse_88(decl: &str) -> (r: Option<(String, Vec<CondValue>)>)
    ensures
        match parse_88_spec(decl@) {
            None => r is None,
            Some((n, vs)) => (r matches Some((rn, rv)) && rn@ == n && values_model(rv@) == vs),
        },
{
    let d = clause_chars(decl);
    let words = split_words(&d);
    let ghost wv = vv(words@);
    if words.len() < 1 {
        return None;
    }
    assert(wv[0] == words@[0]@);
    if !word_is(&words[0], "88") || words.len() < 2 {
        return None;
    }
    assert(wv[1] == words@[1]@);
    if words.len() < 3 {
        return None;
    }
    assert(wv[2] == words@[2]@);
    if !word_is_ic(&words[2], "VALUE") {
        return None;
    }
    let pu = "VALUE";
    let pl = "value";
    proof {
        reveal_strlit("VALUE");
        reveal_strlit("value");
        assert(pu@.len() == 5);
        assert(pl@.len() == 5);
    }
    let dl = d.len();
    let up = find_sub_exec(&d, pu);
    let rest = if let Some(j) = up {
        assert(j + pu@.len() <= d@.len());
        skip_from(&d, j + 5)
    } else {
        let low = find_sub_exec(&d, pl);
        if let Some(j) = low {
            skip_from(&d, j + 5)
        } else {
            Vec::new()
        }
    };
    assert(rest@ =~= value_rest(d@));
    let lits = tokenize_values(&rest);
    let values = value_entries_exec(&lits);
    if values.len() == 0 {
        return None;
    }
    let name = upper_vec(&words[1]);
    Some((string_of(&name), values))
}

pub proof fn lemma_find_sub_in_bounds(s: Seq<char>, pat: Seq<char>, k: int)
    ensures
        find_sub(s, pat, k) matches Some(j) ==> k <= j && j + pat.len() <= s.len(),
    decreases s.len() + 1 - k,
{
    if k >= 0 && k + pat.len() <= s.len() && s.subrange(k, k + pat.len()) != pat {
        lemma_find_sub_in_bounds(s, pat, k + 1);
    }
}


proof fn lemma_trim_end_keeps(s: Seq<char>, i: int)
    requires
        0 <= i < s.len(),
        !is_ws(s[i]),
    ensures
        trim_end_ws(s).len() > i,
        trim_end_ws(s)[i] == s[i],
    decreases s.len(),
{
    if s.len() > 0 && is_ws(s.last()) {
        lemma_trim_end_keeps(s.drop_last(), i);
    }
}

proof fn lemma_trim_start_nonempty(t: Seq<char>, i: int)
    requires
        0 <= i < t.len(),
        !is_ws(t[i]),
    ensures
        trim_start_ws(t).len() > 0,
    decreases t.len(),
{
    if t.len() > 0 && is_ws(t[0]) {
        lemma_trim_start_nonempty(t.drop_first(), i - 1);
    }
}

proof fn lemma_trim_end_all_ws(s: Seq<char>)
    requires
        forall|k: int| 0 <= k < s.len() ==> is_ws(#[trigger] s[k]),
    ensures
        trim_end_ws(s).len() == 0,
    decreases s.len(),
{
    if s.len() > 0 {
        assert(is_ws(s[s.len() - 1]));
        lemma_trim_end_all_ws(s.drop_last());
    }
}

/// A line with a non-whitespace character is not blank.
pub proof fn lemma_trim_keeps_non_ws(s: Seq<char>, i: int)
    requires
        0 <= i < s.len(),
        !is_ws(s[i]),
    ensures
        trim_ws(s).len() > 0,
{
    lemma_trim_end_keeps(s, i);
    lemma_trim_start_nonempty(trim_end_ws(s), i);
}

/// A line of whitespace only is blank.
pub proof fn lemma_trim_all_ws(s: Seq<char>)
    requires
        forall|k: int| 0 <= k < s.len() ==> is_ws(#[trigger] s[k]),
    ensures
        trim_ws(s).len() == 0,
{
    lemma_trim_end_all_ws(s);
}

/// Index of the first non-whitespace character (or the length).
pub fn trim_start_len(v: &Vec<char>) -> (k: usize)
    ensures
        k <= v@.len(),
        v@.skip(k as int) == trim_start_ws(v@),
{
    let mut k: usize = 0;
    assert(v@.skip(0) =~= v@);
    while k < v.len() && is_ws_exec(v[k])
        invariant
            k <= v@.len(),
            trim_start_ws(v@.skip(k as int)) == trim_start_ws(v@),
        decreases v@.len() - k,
    {
        assert(v@.skip(k as int).drop_first() =~= v@.skip(k + 1));
        k += 1;
    }
    k
}


/// The characters of `s` with whitespace removed at both ends.
pub fn trimmed_chars(s: &str) -> (r: Vec<char>)
    ensures
        r@ == trim_ws(s@),
{
    let all = chars_of(s);
    let e = trim_end_ws_len(&all, all.len());
    assert(all@.take(all@.len() as int) =~= all@);
    let mut v: Vec<char> = Vec::new();
    let mut i: usize = 0;
    while i < e
        invariant
            i <= e <= all@.len(),
            v@ == all@.take(i as int),
        decreases e - i,
    {
        v.push(all[i]);
        assert(all@.take(i + 1) =~= all@.take(i as int).push(all@[i as int]));
        i += 1;
    }
    let k = trim_start_len(&v);
    let mut r: Vec<char> = Vec::new();
    let mut j: usize = k;
    while j < v.len()
        invariant
            k <= j <= v@.len(),
            r@ == v@.subrange(k as int, j as int),
        decreases v@.len() - j,
    {
        r.push(v[j]);
        assert(v@.subrange(k as int, j + 1) =~= v@.subrange(k as int, j as int).push(v@[j as int]));
        j += 1;
    }
    assert(r@ =~= v@.skip(k as int));
    r
}
} // verus!
