//! The sealed `gnucobol-rs` courts this shim composes, each reached through one small trusted
//! wrapper over plain values. The field model, decimals, conditions and layout entries are the
//! library's own types; the wrappers convert one for one and make the call.
use gnucobol_rs::layout::{lay_out as g_lay_out, Item as GItem, Laid as GLaid, Odo as GOdo};
use gnucobol_rs::Usage as U;
use vstd::arithmetic::power2::pow2;
use vstd::prelude::*;

verus! {

/// `USAGE` of an elementary field (the subset the copybook scanner recognises).
#[derive(Debug, Clone, Copy, PartialEq, Eq, Structural)]
pub enum Usage {
    Display,
    Comp3,
    Comp,
    Comp5,
    CompX,
    Comp6,
}

/// The field-attribute model: type tag, digit count, implied scale, flag bits.
#[derive(Debug, Clone, Copy, PartialEq, Eq, Structural)]
pub struct FieldAttr {
    pub field_type: u16,
    pub digits: u16,
    pub scale: i16,
    pub flags: u16,
}

/// A built field: its attributes and storage size in bytes.
#[derive(Debug, Clone, Copy, PartialEq, Eq, Structural)]
pub struct PicField {
    pub attr: FieldAttr,
    pub size: usize,
}

/// A decoded decimal: sign, significant digits (most significant first), implied scale.
#[derive(Debug, Clone)]
pub struct Decimal {
    pub negative: bool,
    pub digits: Vec<u8>,
    pub scale: i16,
}

/// A LEVEL-88 `VALUE` literal.
#[derive(Debug, Clone)]
pub enum CondLit {
    Alpha(String),
    Num(String),
}

/// One `VALUE` entry: a literal or a `THRU` range.
#[derive(Debug, Clone)]
pub enum CondValue {
    Lit(CondLit),
    Range(CondLit, CondLit),
}

/// A LEVEL-88 condition name and its `VALUE` set.
#[derive(Debug, Clone)]
pub struct Condition {
    pub name: String,
    pub values: Vec<CondValue>,
}

/// `OCCURS min TO max TIMES DEPENDING ON item`.
#[derive(Debug, Clone)]
pub struct Odo {
    pub min: u32,
    pub max: u32,
    pub depending_on: String,
}

/// One source item of a record (a DATA DIVISION line).
#[derive(Debug, Clone)]
pub struct Item {
    pub level: u16,
    pub name: String,
    /// `Some((pic, usage, sign_separate, sign_leading))` for an elementary item.
    pub pic: Option<(String, Usage, bool, bool)>,
    pub occurs: Option<u32>,
    pub redefines: Option<String>,
    pub odo: Option<Odo>,
}

/// A laid-out item: byte offset from the record start and one-occurrence size.
#[derive(Debug, Clone)]
pub struct Laid {
    pub name: String,
    pub level: u16,
    pub offset: usize,
    pub size: usize,
}

// ----------------------------------------------------------------------------------------------
// Views of the field model as plain sequences
// ----------------------------------------------------------------------------------------------

pub struct DecimalModel {
    pub negative: bool,
    pub digits: Seq<u8>,
    pub scale: i16,
}

pub open spec fn decimal_model(d: Decimal) -> DecimalModel {
    DecimalModel { negative: d.negative, digits: d.digits@, scale: d.scale }
}

pub enum LitModel {
    Alpha(Seq<char>),
    Num(Seq<char>),
}

pub enum ValueModel {
    Lit(LitModel),
    Range(LitModel, LitModel),
}

pub struct ConditionModel {
    pub name: Seq<char>,
    pub values: Seq<ValueModel>,
}

pub open spec fn lit_model(l: CondLit) -> LitModel {
    match l {
        CondLit::Alpha(s) => LitModel::Alpha(s@),
        CondLit::Num(s) => LitModel::Num(s@),
    }
}

pub open spec fn value_model(v: CondValue) -> ValueModel {
    match v {
        CondValue::Lit(l) => ValueModel::Lit(lit_model(l)),
        CondValue::Range(a, b) => ValueModel::Range(lit_model(a), lit_model(b)),
    }
}

pub open spec fn values_model(vs: Seq<CondValue>) -> Seq<ValueModel> {
    vs.map_values(|v: CondValue| value_model(v))
}

pub open spec fn condition_model(c: Condition) -> ConditionModel {
    ConditionModel { name: c.name@, values: values_model(c.values@) }
}

/// A layout item as plain sequences.
pub struct ItemView {
    pub level: u16,
    pub name: Seq<char>,
    pub pic: Option<(Seq<char>, Usage, bool, bool)>,
    pub occurs: Option<u32>,
    pub redefines: Option<Seq<char>>,
    pub odo: Option<(u32, u32, Seq<char>)>,
}

pub open spec fn item_view(it: Item) -> ItemView {
    ItemView {
        level: it.level,
        name: it.name@,
        pic: match it.pic {
            Some((p, u, s, l)) => Some((p@, u, s, l)),
            None => None,
        },
        occurs: it.occurs,
        redefines: match it.redefines {
            Some(r) => Some(r@),
            None => None,
        },
        odo: match it.odo {
            Some(o) => Some((o.min, o.max, o.depending_on@)),
            None => None,
        },
    }
}

pub open spec fn items_view(items: Seq<Item>) -> Seq<ItemView> {
    items.map_values(|it: Item| item_view(it))
}

pub struct LaidView {
    pub name: Seq<char>,
    pub level: u16,
    pub offset: usize,
    pub size: usize,
}

pub open spec fn laid_view(l: Laid) -> LaidView {
    LaidView { name: l.name@, level: l.level, offset: l.offset, size: l.size }
}

pub open spec fn laids_view(v: Seq<Laid>) -> Seq<LaidView> {
    v.map_values(|l: Laid| laid_view(l))
}

/// Type tag of numeric DISPLAY (zoned) fields.
pub const COB_TYPE_NUMERIC_DISPLAY: u16 = 0x10;

/// Type tag of binary (COMP/COMP-5/COMP-X) fields.
pub const COB_TYPE_NUMERIC_BINARY: u16 = 0x11;

/// Type tag of packed-decimal (COMP-3/COMP-6) fields.
pub const COB_TYPE_NUMERIC_PACKED: u16 = 0x12;

/// Type tag of alphanumeric fields.
pub const COB_TYPE_ALPHANUMERIC: u16 = 0x21;

/// The field carries a sign.
pub const COB_FLAG_HAVE_SIGN: u16 = 0x0001;

/// Packed storage without a sign nibble (COMP-6).
pub const COB_FLAG_NO_SIGN_NIBBLE: u16 = 0x0100;


// ----------------------------------------------------------------------------------------------
// Pictures the PIC court takes without overflow
// ----------------------------------------------------------------------------------------------

/// A printable ASCII character other than space (`!` to `~`).
pub open spec fn is_graphic(c: char) -> bool {
    33 <= (c as int) <= 126
}

pub open spec fn is_digit_char(c: char) -> bool {
    48 <= (c as int) <= 57
}

/// Over a picture's characters: the sum of the values of the completed runs of decimal digits,
/// and the value of the run still open at the end.
pub open spec fn digit_runs(s: Seq<char>) -> (nat, nat)
    decreases s.len(),
{
    if s.len() == 0 {
        (0, 0)
    } else {
        let (t, c) = digit_runs(s.drop_last());
        if is_digit_char(s.last()) {
            (t, c * 10 + ((s.last() as int) - 48) as nat)
        } else {
            (t + c, 0)
        }
    }
}

/// An upper bound on the character positions a picture declares: one per character plus every
/// repeat count (each `(n)` is a run of digits).
pub open spec fn positions_bound(s: Seq<char>) -> nat {
    s.len() + digit_runs(s).0 + digit_runs(s).1
}

/// The picture is printable ASCII and declares at most 32767 positions, so every count derived
/// from it fits an `i16`.
pub open spec fn pic_bounded(s: Seq<char>) -> bool {
    &&& forall|i: int| 0 <= i < s.len() ==> #[trigger] is_graphic(s[i])
    &&& positions_bound(s) <= 32767
}

/// The picture has a `P` scaling symbol.
pub open spec fn has_scaling_p(s: Seq<char>) -> bool {
    exists|i: int| 0 <= i < s.len() && (s[i] == 'P' || s[i] == 'p')
}

/// A picture the PIC court builds without arithmetic overflow: one without `P` scaling, or a
/// bounded one (the court adds the `9` and `P` counts in `u16` and negates the `P` count in `i16`).
#[verifier::opaque]
pub open spec fn pic_admissible(s: Seq<char>) -> bool {
    !has_scaling_p(s) || pic_bounded(s)
}

proof fn lemma_runs_grow(s: Seq<char>, i: int)
    requires
        0 <= i <= s.len(),
    ensures
        digit_runs(s.take(i)).0 + digit_runs(s.take(i)).1 <= digit_runs(s).0 + digit_runs(s).1,
    decreases s.len() - i,
{
    if i < s.len() {
        lemma_runs_grow(s, i + 1);
        assert(s.take(i + 1).drop_last() =~= s.take(i));
    } else {
        assert(s.take(i) =~= s);
    }
}

fn code_of(c: char) -> (r: u32)
    ensures
        r as int == c as int,
{
    c as u32
}

/// Whether a picture is bounded (see [`pic_bounded`]).
pub fn pic_bounded_exec(pic: &str) -> (r: bool)
    ensures
        r == pic_bounded(pic@),
{
    let v = crate::text::chars_of(pic);
    let n = v.len();
    let mut t: u64 = 0;
    let mut c: u64 = 0;
    let mut i: usize = 0;
    assert(v@.take(0) =~= Seq::<char>::empty());
    while i < n
        invariant
            i <= n == v@.len(),
            v@ == pic@,
            digit_runs(v@.take(i as int)) == (t as nat, c as nat),
            i + t + c <= 32767,
            forall|j: int| 0 <= j < i ==> #[trigger] is_graphic(v@[j]),
        decreases n - i,
    {
        let k = code_of(v[i]);
        if k < 33 || k > 126 {
            assert(!is_graphic(v@[i as int]));
            return false;
        }
        assert(v@.take(i + 1).drop_last() =~= v@.take(i as int));
        assert(v@.take(i + 1).last() == v@[i as int]);
        if 48 <= k && k <= 57 {
            c = c * 10 + (k - 48) as u64;
        } else {
            t = t + c;
            c = 0;
        }
        i += 1;
        if i as u64 + t + c > 32767 {
            proof {
                lemma_runs_grow(v@, i as int);
            }
            return false;
        }
    }
    assert(v@.take(n as int) =~= v@);
    true
}

/// Whether a picture has a `P` scaling symbol.
pub fn has_scaling_p_exec(pic: &str) -> (r: bool)
    ensures
        r == has_scaling_p(pic@),
{
    let v = crate::text::chars_of(pic);
    let mut i: usize = 0;
    while i < v.len()
        invariant
            i <= v@.len(),
            v@ == pic@,
            forall|j: int| 0 <= j < i ==> !(v@[j] == 'P' || v@[j] == 'p'),
        decreases v@.len() - i,
    {
        if v[i] == 'P' || v[i] == 'p' {
            return true;
        }
        i += 1;
    }
    false
}

/// Whether a picture is admissible (see [`pic_admissible`]).
pub fn pic_admissible_exec(pic: &str) -> (r: bool)
    ensures
        r == pic_admissible(pic@),
{
    reveal(pic_admissible);
    !has_scaling_p_exec(pic) || pic_bounded_exec(pic)
}


/// Every elementary item's picture is admissible.
pub open spec fn items_admissible(items: Seq<ItemView>) -> bool {
    forall|i: int| 0 <= i < items.len() ==> (#[trigger] items[i].pic matches Some(p) ==> pic_admissible(p.0))
}

/// Whether every elementary item's picture is admissible.
pub fn items_admissible_exec(items: &Vec<Item>) -> (r: bool)
    ensures
        r == items_admissible(items_view(items@)),
{
    let ghost iv = items_view(items@);
    let mut i: usize = 0;
    while i < items.len()
        invariant
            i <= items@.len(),
            iv == items_view(items@),
            forall|j: int| 0 <= j < i ==> (#[trigger] iv[j].pic matches Some(p) ==> pic_admissible(p.0)),
        decreases items@.len() - i,
    {
        match &items[i].pic {
            Some((p, _, _, _)) => {
                if !pic_admissible_exec(p.as_str()) {
                    assert(iv[i as int].pic matches Some(q) && !pic_admissible(q.0));
                    return false;
                }
            },
            None => {},
        }
        i += 1;
    }
    true
}


/// How many times an item occurs in its parent: its `OCCURS DEPENDING ON` maximum, else its
/// `OCCURS` count, else once (never below one).
pub open spec fn occ1(it: ItemView) -> nat {
    let n: nat = match it.odo {
        Some((_, max, _)) => max as nat,
        None => match it.occurs {
            Some(c) => c as nat,
            None => 1,
        },
    };
    if n == 0 {
        1
    } else {
        n
    }
}

/// The parent of item `k` as the layout nests items: the last item before it with a lower level
/// (searching back from `j`), else the record itself.
pub open spec fn parent_from(items: Seq<ItemView>, k: int, j: int) -> int
    decreases j + 1,
{
    if j < 0 {
        0
    } else if items[j].level < items[k].level {
        j
    } else {
        parent_from(items, k, j - 1)
    }
}

/// The layout parent of item `k` lies before it.
pub proof fn lemma_parent_below(items: Seq<ItemView>, k: int, j: int)
    requires
        j < k,
    ensures
        0 <= parent_from(items, k, j) <= if j < 0 { 0 } else { j },
    decreases j + 1,
{
    if j >= 0 && !(items[j].level < items[k].level) {
        lemma_parent_below(items, k, j - 1);
    }
}

/// The number of copies of item `k` in the record: its own count times its ancestors'.
pub open spec fn copies(items: Seq<ItemView>, k: int) -> nat
    decreases k,
{
    if k <= 0 {
        occ1(items[0])
    } else {
        proof {
            lemma_parent_below(items, k, k - 1);
        }
        occ1(items[k]) * copies(items, parent_from(items, k, k - 1))
    }
}

/// An upper bound on one occurrence of an elementary item's storage: no picture the PIC and
/// edited courts accept declares more than 2,000,000 bytes per picture character.
pub open spec fn leaf_bound(it: ItemView) -> nat {
    match it.pic {
        Some(p) => 2_000_000 * (p.0.len() + 1),
        None => 0,
    }
}

/// An upper bound on every offset the layout computes: each elementary item's bound times its
/// copies, summed over the first `n` items.
pub open spec fn record_bound(items: Seq<ItemView>, n: nat) -> nat
    decreases n,
{
    if n == 0 || n > items.len() {
        0
    } else {
        record_bound(items, (n - 1) as nat) + leaf_bound(items[n - 1]) * copies(items, n - 1)
    }
}

/// The layout's offsets fit in `usize`.
pub open spec fn layout_fits(items: Seq<ItemView>) -> bool {
    record_bound(items, items.len()) <= usize::MAX
}

proof fn lemma_record_bound_grows(items: Seq<ItemView>, a: nat, b: nat)
    requires
        a <= b <= items.len(),
    ensures
        record_bound(items, a) <= record_bound(items, b),
    decreases b - a,
{
    if a < b {
        lemma_record_bound_grows(items, a, (b - 1) as nat);
    }
}

pub open spec fn cap64(x: nat) -> nat {
    if x >= 0x1_0000_0000_0000_0000 {
        0x1_0000_0000_0000_0000
    } else {
        x
    }
}

proof fn lemma_cap_mul(a: nat, b: nat)
    requires
        a >= 1,
    ensures
        cap64(a * cap64(b)) == cap64(a * b),
{
    if b >= 0x1_0000_0000_0000_0000 {
        assert(a * b >= b) by (nonlinear_arith)
            requires
                a >= 1,
        ;
        assert(a * 0x1_0000_0000_0000_0000nat >= 0x1_0000_0000_0000_0000nat) by (nonlinear_arith)
            requires
                a >= 1,
        ;
    }
}

fn occ1_exec(it: &Item) -> (r: u32)
    ensures
        r as nat == occ1(item_view(*it)),
{
    let n: u32 = match &it.odo {
        Some(o) => o.max,
        None => match it.occurs {
            Some(c) => c,
            None => 1,
        },
    };
    if n == 0 {
        1
    } else {
        n
    }
}

/// Whether the layout's offsets of `items` fit in `usize` (see [`layout_fits`]).
pub fn layout_fits_exec(items: &Vec<Item>) -> (r: bool)
    ensures
        r == layout_fits(items_view(items@)),
{
    let ghost iv = items_view(items@);
    let n = items.len();
    if n == 0 {
        return true;
    }
    let mut caps: Vec<u128> = Vec::new();
    let mut acc: u128 = 0;
    let mut k: usize = 0;
    while k < n
        invariant
            0 < n == items@.len() == iv.len(),
            iv == items_view(items@),
            k <= n,
            caps@.len() == k,
            forall|j: int| 0 <= j < k ==> #[trigger] caps@[j] as nat == cap64(copies(iv, j)),
            acc as nat == record_bound(iv, k as nat),
            acc <= usize::MAX,
        decreases n - k,
    {
        // the parent: the last earlier item with a lower level, else the record
        let mut p: usize = 0;
        if k > 0 {
            let mut j: usize = k;
            let mut found = false;
            while j > 0 && !found
                invariant
                    0 < k < n == items@.len() == iv.len(),
                    iv == items_view(items@),
                    j <= k - 1 + 1,
                    found ==> j < k && p == j && parent_from(iv, k as int, (k - 1) as int) == j,
                    !found ==> parent_from(iv, k as int, (k - 1) as int) == parent_from(iv, k as int, j - 1),
                    !found ==> p == 0,
                decreases j + (if found { 0int } else { 1int }),
            {
                if items[j - 1].level < items[k].level {
                    p = j - 1;
                    j = j - 1;
                    found = true;
                } else {
                    j = j - 1;
                }
            }
            proof {
                lemma_parent_below(iv, k as int, (k - 1) as int);
            }
        }
        let o = occ1_exec(&items[k]);
        let parent_cap: u128 = if k == 0 { 1 } else { caps[p] };
        let c: u128 = if k == 0 {
            o as u128
        } else {
            assert(parent_cap as nat == cap64(copies(iv, p as int)));
            assert(parent_cap <= 0x1_0000_0000_0000_0000u128);
            assert((o as u128) * parent_cap <= 0xffff_ffffu128 * 0x1_0000_0000_0000_0000u128) by (nonlinear_arith)
                requires
                    o <= 0xffff_ffffu32,
                    parent_cap <= 0x1_0000_0000_0000_0000u128,
            ;
            let m = (o as u128) * parent_cap;
            if m >= 0x1_0000_0000_0000_0000u128 { 0x1_0000_0000_0000_0000u128 } else { m }
        };
        proof {
            if k > 0 {
                let pk = parent_from(iv, k as int, (k - 1) as int);
                assert(pk == p as int);
                lemma_cap_mul(occ1(iv[k as int]), copies(iv, pk));
                assert(copies(iv, k as int) == occ1(iv[k as int]) * copies(iv, pk));
            }
        }
        caps.push(c);
        let lb: u128 = match &items[k].pic {
            Some((pic, _, _, _)) => 2_000_000u128 * ((crate::text::chars_of(pic.as_str()).len() as u128) + 1),
            None => 0,
        };
        assert(lb as nat == leaf_bound(iv[k as int]));
        if lb > 0 && c == 0x1_0000_0000_0000_0000u128 {
            proof {
                assert(copies(iv, k as int) >= 0x1_0000_0000_0000_0000nat);
                assert(lb as nat * copies(iv, k as int) >= copies(iv, k as int)) by (nonlinear_arith)
                    requires
                        lb as nat >= 1,
                ;
                lemma_record_bound_grows(iv, (k + 1) as nat, n as nat);
            }
            return false;
        }
        let term = match lb.checked_mul(c) {
            Some(t) => t,
            None => {
                proof {
                    lemma_record_bound_grows(iv, (k + 1) as nat, n as nat);
                }
                return false;
            },
        };
        proof {
            if lb > 0 {
                assert(c as nat == cap64(copies(iv, k as int)));
                assert(c as nat == copies(iv, k as int));
            }
            assert(term as nat == leaf_bound(iv[k as int]) * copies(iv, k as int));
        }
        if term > (usize::MAX as u128) - acc {
            proof {
                lemma_record_bound_grows(iv, (k + 1) as nat, n as nat);
            }
            return false;
        }
        acc = acc + term;
        k += 1;
    }
    true
}

// ----------------------------------------------------------------------------------------------
// PIC / layout courts
// ----------------------------------------------------------------------------------------------

/// What `gnucobol_rs::build_field` builds for a picture under a usage and SIGN clause.
pub uninterp spec fn spec_build_field(pic: Seq<char>, usage: Usage, sep: bool, lead: bool) -> Option<PicField>;

/// Calls `gnucobol_rs::build_field` (`GNURUST.3` PIC → field model). Trusted claim: the result
/// (`None` for a picture outside the sealed subset) is a function of the four arguments alone. The
/// picture must be admissible: the court adds the `9` and `P` counts in `u16` and negates the `P`
/// count in `i16`, which overflows for a `P` picture of more than 32767 positions.
#[verifier::external_body]
pub(crate) fn build_field(pic: &str, usage: Usage, sep: bool, lead: bool) -> (r: Option<PicField>)
    requires
        pic_admissible(pic@),
    ensures
        r == spec_build_field(pic@, usage, sep, lead),
{
    let u = [U::Display, U::Comp3, U::Comp, U::Comp5, U::CompX, U::Comp6][usage as usize];
    let pf = gnucobol_rs::build_field(pic, u, sep, lead).ok()?;
    let a = pf.attr;
    Some(PicField { attr: FieldAttr { field_type: a.field_type, digits: a.digits, scale: a.scale, flags: a.flags }, size: pf.size })
}

/// What `gnucobol_rs::edited_size` reports for an edited picture.
pub uninterp spec fn spec_edited_size(pic: Seq<char>) -> Option<usize>;

/// Calls `gnucobol_rs::edited_size` (`GNURUST.16`). Trusted claim: the width (or `None` for a
/// picture that is not an admitted edited picture) is a function of the picture alone.
#[verifier::external_body]
pub(crate) fn edited_size(pic: &str) -> (r: Option<usize>)
    ensures
        r == spec_edited_size(pic@),
{
    gnucobol_rs::edited_size(pic).ok()
}

/// What `gnucobol_rs::lay_out` produces for an item list: the laid entries, or the rendered error.
pub uninterp spec fn spec_lay_out(items: Seq<ItemView>) -> Result<Seq<LaidView>, Seq<char>>;

/// Calls `gnucobol_rs::lay_out` (`GNURUST.4` record layout). Trusted claim: the laid entries, or
/// the error's display text, are a function of the item list alone. Every picture must be
/// admissible, since the layout builds each field through the PIC court, and the record's size
/// bound must fit in `usize`, since the layout adds offsets unchecked.
#[verifier::external_body]
pub(crate) fn lay_out(items: Vec<Item>) -> (r: Result<Vec<Laid>, String>)
    requires
        items_admissible(items_view(items@)),
        layout_fits(items_view(items@)),
    ensures
        match r {
            Ok(v) => spec_lay_out(items_view(items@)) == Ok::<Seq<LaidView>, Seq<char>>(laids_view(v@)),
            Err(e) => spec_lay_out(items_view(items@)) == Err::<Seq<LaidView>, Seq<char>>(e@),
        },
{
    let us = [U::Display, U::Comp3, U::Comp, U::Comp5, U::CompX, U::Comp6];
    let v = g_lay_out(&items.into_iter().map(|Item { level, name, pic, occurs, redefines, odo }| GItem {
        level, name, occurs, redefines,
        pic: pic.map(|(p, u, s, l)| (p, us[u as usize], s, l)),
        odo: odo.map(|Odo { min, max, depending_on }| GOdo { min, max, depending_on }),
    }).collect::<Vec<_>>()).map_err(|e| e.to_string())?;
    Ok(v.into_iter().map(|GLaid { name, level, offset, size }| Laid { name, level, offset, size }).collect())
}

// ----------------------------------------------------------------------------------------------
// Decimal decode courts
// ----------------------------------------------------------------------------------------------

/// Every digit of a decoded decimal is a nibble, `0..=15`: `0..=9` from clean storage, while the
/// packed and zoned decoders pass a dirty storage nibble through as a digit `10..=15`.
pub open spec fn digits_ok(d: DecimalModel) -> bool {
    forall|i: int| 0 <= i < d.digits.len() ==> #[trigger] d.digits[i] <= 15
}

/// The high and low nibble of every byte, in order.
pub open spec fn nibbles(data: Seq<u8>) -> Seq<u8>
    decreases data.len(),
{
    if data.len() == 0 {
        seq![]
    } else {
        seq![data[0] / 16, data[0] % 16] + nibbles(data.drop_first())
    }
}

/// What `Decimal::from_packed` decodes: every nibble is a digit, except the final (sign) nibble of
/// a field with a sign nibble; the value is negative when the field is signed and its last byte's
/// low nibble is `0xD`; the scale is the field's.
pub open spec fn spec_from_packed(bytes: Seq<u8>, attr: FieldAttr) -> DecimalModel {
    DecimalModel {
        negative: attr.flags & COB_FLAG_HAVE_SIGN != 0 && bytes.len() > 0 && bytes.last() % 16 == 13,
        digits: if attr.flags & COB_FLAG_NO_SIGN_NIBBLE != 0 {
            nibbles(bytes)
        } else if bytes.len() == 0 {
            seq![]
        } else {
            nibbles(bytes).drop_last()
        },
        scale: attr.scale,
    }
}

/// Calls `gnucobol_rs::Decimal::from_packed` (COMP-3 / COMP-6 decode, `GNURUST.2`/`18`). Trusted
/// claims: the value is [`spec_from_packed`] of the bytes and attributes, as that source reads
/// the nibbles and the sign; each digit is a nibble (`0..=15`).
#[verifier::external_body]
pub(crate) fn decimal_from_packed(bytes: &[u8], attr: &FieldAttr) -> (d: Decimal)
    ensures
        decimal_model(d) == spec_from_packed(bytes@, *attr),
        digits_ok(decimal_model(d)),
{
    let d = gnucobol_rs::Decimal::from_packed(bytes, &gnucobol_rs::FieldAttr { field_type: attr.field_type, digits: attr.digits, scale: attr.scale, flags: attr.flags });
    Decimal { negative: d.negative, digits: d.digits, scale: d.scale }
}

/// Binary storage is big-endian (`COMP`, `BINARY`, `COMP-X`); without it, little-endian (`COMP-5`).
pub const COB_FLAG_BINARY_SWAP: u16 = 0x0020;

/// The unsigned value of bytes read most significant first.
pub open spec fn be_value(s: Seq<u8>) -> nat
    decreases s.len(),
{
    if s.len() == 0 {
        0
    } else {
        be_value(s.drop_last()) * 256 + s.last() as nat
    }
}

/// The unsigned value of bytes read least significant first.
pub open spec fn le_value(s: Seq<u8>) -> nat
    decreases s.len(),
{
    if s.len() == 0 {
        0
    } else {
        s[0] as nat + 256 * le_value(s.drop_first())
    }
}

/// The integer a binary field holds: its low 64 bits (the last eight bytes of at most sixteen when
/// big-endian, the first eight when little-endian), two's complement when the field is signed.
pub open spec fn binary_int(bytes: Seq<u8>, attr: FieldAttr) -> int {
    let full: int = if bytes.len() < 16 { bytes.len() as int } else { 16 };
    let n: int = if full < 8 { full } else { 8 };
    let u: int = if attr.flags & COB_FLAG_BINARY_SWAP != 0 {
        be_value(bytes.subrange(full - n, full)) as int
    } else {
        le_value(bytes.subrange(0, n)) as int
    };
    if attr.flags & COB_FLAG_HAVE_SIGN != 0 && n > 0 && u >= pow2((8 * n - 1) as nat) {
        u - pow2((8 * n) as nat)
    } else {
        u
    }
}

/// The last `width` decimal digits of `v`, most significant first.
pub open spec fn fixed_digits(v: nat, width: nat) -> Seq<u8>
    decreases width,
{
    if width == 0 {
        seq![]
    } else {
        fixed_digits(v / 10, (width - 1) as nat).push((v % 10) as u8)
    }
}

/// What `Decimal::from_binary` decodes: the sign of [`binary_int`], and its magnitude as exactly
/// as many digits as the picture declares (at least one), at the field's scale.
pub open spec fn spec_from_binary(bytes: Seq<u8>, attr: FieldAttr) -> DecimalModel {
    let i = binary_int(bytes, attr);
    let abs: nat = if i < 0 { (-i) as nat } else { i as nat };
    DecimalModel {
        negative: i < 0,
        digits: fixed_digits(abs, if attr.digits == 0 { 1 } else { attr.digits as nat }),
        scale: attr.scale,
    }
}

/// Calls `gnucobol_rs::Decimal::from_binary` (COMP/COMP-5/COMP-X decode, `GNURUST.14`). Trusted
/// claims: the value is [`spec_from_binary`] of the bytes and attributes, as that source reads the
/// low 64 bits in the field's byte order and renders the magnitude digit by digit; each digit is a
/// nibble (`0..=15`).
#[verifier::external_body]
pub(crate) fn decimal_from_binary(bytes: &[u8], attr: &FieldAttr) -> (d: Decimal)
    ensures
        decimal_model(d) == spec_from_binary(bytes@, *attr),
        digits_ok(decimal_model(d)),
{
    let d = gnucobol_rs::Decimal::from_binary(bytes, &gnucobol_rs::FieldAttr { field_type: attr.field_type, digits: attr.digits, scale: attr.scale, flags: attr.flags });
    Decimal { negative: d.negative, digits: d.digits, scale: d.scale }
}

/// `SIGN SEPARATE`.
pub const COB_FLAG_SIGN_SEPARATE: u16 = 0x0002;

/// `SIGN LEADING`.
pub const COB_FLAG_SIGN_LEADING: u16 = 0x0004;

/// The sign of a zoned DISPLAY field and its bytes with a negative overpunch removed: only a signed
/// field has a sign; it sits in the first byte under `SIGN LEADING`, else in the last; a separate
/// sign is negative when it is `-`; an embedded sign byte that is a digit or a space is positive,
/// one of `p` to `y` is a negative overpunch (cleared back to its digit), and anything else is
/// positive and read as `0`.
pub open spec fn display_sign(data: Seq<u8>, attr: FieldAttr) -> (bool, Seq<u8>) {
    let idx: int = if attr.flags & COB_FLAG_SIGN_LEADING != 0 { 0 } else { data.len() - 1 };
    if attr.flags & COB_FLAG_HAVE_SIGN == 0 || data.len() == 0 {
        (false, data)
    } else {
        let b = data[idx];
        if attr.flags & COB_FLAG_SIGN_SEPARATE != 0 {
            (b == 45u8, data)
        } else if 48 <= b <= 57 || b == 32u8 {
            (false, data)
        } else if 112 <= b <= 121 {
            (true, data.update(idx, (b - 64) as u8))
        } else {
            (false, data.update(idx, 48u8))
        }
    }
}

/// What `Decimal::from_display` decodes: the sign as [`display_sign`] reads it, and the low nibble
/// of every data byte (a separate sign byte excluded) as a digit, at the field's scale.
pub open spec fn spec_from_display(bytes: Seq<u8>, attr: FieldAttr) -> DecimalModel {
    let (neg, tmp) = display_sign(bytes, attr);
    let sep = attr.flags & COB_FLAG_SIGN_SEPARATE != 0;
    let off: int = if sep && attr.flags & COB_FLAG_SIGN_LEADING != 0 { 1 } else { 0 };
    let end: int = if sep { bytes.len() - 1 + off } else { bytes.len() as int };
    DecimalModel {
        negative: neg,
        digits: if bytes.len() == 0 { seq![] } else { tmp.subrange(off, end).map_values(|b: u8| b % 16) },
        scale: attr.scale,
    }
}

/// Calls `gnucobol_rs::Decimal::from_display` (zoned DISPLAY decode, `GNURUST.2`). Trusted claims:
/// the value is [`spec_from_display`] of the bytes and attributes, as that source strips the sign
/// and takes each byte's low nibble; each digit is a nibble (`0..=15`).
#[verifier::external_body]
pub(crate) fn decimal_from_display(bytes: &[u8], attr: &FieldAttr) -> (d: Decimal)
    ensures
        decimal_model(d) == spec_from_display(bytes@, *attr),
        digits_ok(decimal_model(d)),
{
    let d = gnucobol_rs::Decimal::from_display(bytes, &gnucobol_rs::FieldAttr { field_type: attr.field_type, digits: attr.digits, scale: attr.scale, flags: attr.flags });
    Decimal { negative: d.negative, digits: d.digits, scale: d.scale }
}

/// The presentation text and recovered numeric of an edited field.
pub uninterp spec fn spec_decode_edited(pic: Seq<char>, bytes: Seq<u8>) -> Option<(Seq<char>, Option<DecimalModel>)>;

/// Calls `gnucobol_rs::decode_edited` (`GNURUST.16`). Trusted claims: the raw text and numeric
/// value (or `None` when the court fails closed) are a function of the picture and bytes; a
/// recovered numeric's digits are nibbles (`0..=15`; the source only ever pushes `0..=9`).
/// The picture must be bounded: the court counts fractional digits in an `i16`.
#[verifier::external_body]
pub(crate) fn decode_edited(pic: &str, bytes: &[u8]) -> (r: Option<(String, Option<Decimal>)>)
    requires
        pic_bounded(pic@),
    ensures
        match r {
            Some((t, n)) => spec_decode_edited(pic@, bytes@) == Some((t@, match n {
                Some(d) => Some(decimal_model(d)),
                None => None,
            })) && (n matches Some(d) ==> digits_ok(decimal_model(d))),
            None => spec_decode_edited(pic@, bytes@) is None,
        },
{
    match gnucobol_rs::decode_edited(pic, bytes) {
        Ok(d) => Some((d.raw_text, d.numeric_value.map(|n| Decimal { negative: n.negative, digits: n.digits, scale: n.scale }))),
        Err(_) => None,
    }
}

// ----------------------------------------------------------------------------------------------
// Code page, conditions, transforms
// ----------------------------------------------------------------------------------------------

/// The sealed cp500 → ASCII/Latin-1 byte table.
pub uninterp spec fn spec_cp500(b: u8) -> u8;

/// Calls `gnucobol_rs::translate_byte(CodePage::Cp500, b)` (`GNURUST.15`). Trusted claim: the
/// translation is a fixed function of the byte (a table lookup that always succeeds in that source).
#[verifier::external_body]
pub(crate) fn cp500_byte(b: u8) -> (r: u8)
    ensures
        r == spec_cp500(b),
{
    gnucobol_rs::translate_byte(gnucobol_rs::CodePage::Cp500, b).unwrap_or(b)
}

/// The truth of a LEVEL-88 condition over a parent field's bytes (`None`: not evaluable).
pub uninterp spec fn spec_eval_88(attr: FieldAttr, bytes: Seq<u8>, cond: ConditionModel) -> Option<bool>;

/// Calls `gnucobol_rs::eval_88` (`GNURUST.11`). Trusted claim: the truth value (or the fail-closed
/// `None`) is a function of the attributes, bytes and condition. A packed parent must hold at least
/// one byte: the packed decoder reads `size - 1` and `data[0]`.
#[verifier::external_body]
pub(crate) fn eval_88(attr: &FieldAttr, bytes: &[u8], cond: &Condition) -> (r: Option<bool>)
    requires
        attr.field_type == COB_TYPE_NUMERIC_PACKED ==> bytes@.len() > 0,
    ensures
        r == spec_eval_88(*attr, bytes@, condition_model(*cond)),
{
    let lit = |l: &CondLit| match l {
        CondLit::Alpha(s) => gnucobol_rs::CondLit::Alpha(s.clone()),
        CondLit::Num(s) => gnucobol_rs::CondLit::Num(s.clone()),
    };
    let values = cond.values.iter().map(|v| match v {
        CondValue::Lit(l) => gnucobol_rs::CondValue::Lit(lit(l)),
        CondValue::Range(a, b) => gnucobol_rs::CondValue::Range(lit(a), lit(b)),
    }).collect();
    let c = gnucobol_rs::Condition { name: cond.name.clone(), values, false_value: None };
    gnucobol_rs::eval_88(&gnucobol_rs::FieldAttr { field_type: attr.field_type, digits: attr.digits, scale: attr.scale, flags: attr.flags }, bytes, &c).ok()
}

/// The parent bytes `SET condition TO TRUE` writes.
pub uninterp spec fn spec_set_88_true(attr: FieldAttr, size: usize, cond: ConditionModel) -> Option<Seq<u8>>;

/// Calls `gnucobol_rs::set_88_true` (`GNURUST.12`). Trusted claim: the constructed bytes (or `None`
/// when the court fails closed) are a function of the attributes, size and condition.
#[verifier::external_body]
pub(crate) fn set_88_true(attr: &FieldAttr, size: usize, cond: &Condition) -> (r: Option<Vec<u8>>)
    ensures
        match r {
            Some(v) => spec_set_88_true(*attr, size, condition_model(*cond)) == Some(v@),
            None => spec_set_88_true(*attr, size, condition_model(*cond)) is None,
        },
{
    let lit = |l: &CondLit| match l {
        CondLit::Alpha(s) => gnucobol_rs::CondLit::Alpha(s.clone()),
        CondLit::Num(s) => gnucobol_rs::CondLit::Num(s.clone()),
    };
    let values = cond.values.iter().map(|v| match v {
        CondValue::Lit(l) => gnucobol_rs::CondValue::Lit(lit(l)),
        CondValue::Range(a, b) => gnucobol_rs::CondValue::Range(lit(a), lit(b)),
    }).collect();
    let c = gnucobol_rs::Condition { name: cond.name.clone(), values, false_value: None };
    gnucobol_rs::set_88_true(&gnucobol_rs::FieldAttr { field_type: attr.field_type, digits: attr.digits, scale: attr.scale, flags: attr.flags }, size, &c).ok()
}

/// `ADD` or `SUBTRACT` (truncating store).
#[derive(Debug, Clone, Copy, PartialEq, Eq, Structural)]
pub enum ArithOp {
    Add,
    Subtract,
}

/// The receiving bytes of a truncating `ADD`/`SUBTRACT`, or the error's display text.
pub uninterp spec fn spec_cob_arith(op: ArithOp, a: Seq<u8>, a_attr: FieldAttr, b: Seq<u8>, b_attr: FieldAttr) -> Result<Seq<u8>, Seq<char>>;

/// Calls `gnucobol_rs::cob_arith(op, a, a_attr, b, b_attr, Round::Truncate)` (`GNURUST.7`).
/// Trusted claim: the result bytes, or the error's display text, are a function of the arguments.
/// A packed operand must hold at least one byte: the packed decoder reads `size - 1` and `data[0]`.
#[verifier::external_body]
pub(crate) fn cob_arith(op: ArithOp, a: &[u8], a_attr: &FieldAttr, b: &[u8], b_attr: &FieldAttr) -> (r: Result<Vec<u8>, String>)
    requires
        a_attr.field_type == COB_TYPE_NUMERIC_PACKED ==> a@.len() > 0,
        b_attr.field_type == COB_TYPE_NUMERIC_PACKED ==> b@.len() > 0,
    ensures
        match r {
            Ok(v) => spec_cob_arith(op, a@, *a_attr, b@, *b_attr) == Ok::<Seq<u8>, Seq<char>>(v@),
            Err(e) => spec_cob_arith(op, a@, *a_attr, b@, *b_attr) == Err::<Seq<u8>, Seq<char>>(e@),
        },
{
    let gop = match op {
        ArithOp::Add => gnucobol_rs::Op::Add,
        ArithOp::Subtract => gnucobol_rs::Op::Subtract,
    };
    let x = gnucobol_rs::FieldAttr { field_type: a_attr.field_type, digits: a_attr.digits, scale: a_attr.scale, flags: a_attr.flags };
    let y = gnucobol_rs::FieldAttr { field_type: b_attr.field_type, digits: b_attr.digits, scale: b_attr.scale, flags: b_attr.flags };
    gnucobol_rs::cob_arith(gop, a, &x, b, &y, gnucobol_rs::Round::Truncate).map_err(|e| e.to_string())
}

// ----------------------------------------------------------------------------------------------
// Lossy UTF-8 text of raw bytes
// ----------------------------------------------------------------------------------------------

/// The text `String::from_utf8_lossy` makes of a byte sequence.
pub uninterp spec fn spec_utf8_lossy(bytes: Seq<u8>) -> Seq<char>;

pub open spec fn all_ascii(bytes: Seq<u8>) -> bool {
    forall|i: int| 0 <= i < bytes.len() ==> #[trigger] bytes[i] < 0x80
}

/// Calls `String::from_utf8_lossy` (std). Trusted claims: the text is a function of the bytes; an
/// all-ASCII input is itself valid UTF-8, so its text is the bytes as characters, one for one.
#[verifier::external_body]
pub(crate) fn utf8_lossy(bytes: &[u8]) -> (s: String)
    ensures
        s@ == spec_utf8_lossy(bytes@),
        all_ascii(bytes@) ==> s@ == bytes@.map_values(|b: u8| b as char),
{
    String::from_utf8_lossy(bytes).into_owned()
}

} // verus!
