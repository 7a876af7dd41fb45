//! Explicit overlapping-view manifests for `REDEFINES` layouts.
//!
//! Overlapping storage views are admitted as byte evidence: every `REDEFINES` interpretation of
//! the same bytes is decoded and audited, but the semantically active view is claimed only when a
//! declared discriminator admits it; otherwise `active_view` stays unclaimed. A `REDEFINES` layout
//! proves overlapping byte views, not which view is active.
use crate::copybook::{
    parse_unsigned, parse_unsigned_exec, split_words, split_ws, trim_end_dots, trim_end_ws_len, trim_start_len,
    trim_start_ws, trim_ws, trim_end_ws, upper_all, upper_words, vv, word_is,
};
use crate::decode::{
    decode_record_encoded, decode_record_spec, field_slice, field_view, fields_view, opt_view, record_view, shim_error_view,
    slice_of, Copybook, DecodedField, Encoding, FieldView, RecordView, ShimError, ShimErrorView,
};
use crate::sha256::{sha256_hex, spec_sha256_hex};
use crate::text::{
    bool_text, chars_of, dec_nat, join_comma, js, lemma_strs_push, push_bool, push_joined, push_js, push_lit,
    push_u128, push_usize, str_eq, string_of, strs_view,
};
use vstd::prelude::*;

verus! {

// ----------------------------------------------------------------------------------------------
// The storage items of the copybook text
// ----------------------------------------------------------------------------------------------

/// One storage item: its level, name, whether it is elementary (has a picture), and what it
/// redefines.
pub struct RItem {
    pub level: u16,
    pub name: Seq<char>,
    pub has_pic: bool,
    pub redefines: Option<Seq<char>>,
}

/// Left-to-right newline scan: the completed lines and the line in progress.
pub open spec fn scan_nl(s: Seq<char>) -> (Seq<Seq<char>>, Seq<char>)
    decreases s.len(),
{
    if s.len() == 0 {
        (seq![], seq![])
    } else {
        let (done, cur) = scan_nl(s.drop_last());
        if s.last() == '\n' {
            (done.push(cur), seq![])
        } else {
            (done, cur.push(s.last()))
        }
    }
}

/// The text cut at each newline (the last piece may be empty).
pub open spec fn nl_pieces(s: Seq<char>) -> Seq<Seq<char>> {
    let (done, cur) = scan_nl(s);
    done.push(cur)
}

/// The position of the first `REDEFINES` word.
pub open spec fn first_word(ws: Seq<Seq<char>>, w: Seq<char>) -> Option<int>
    decreases ws.len(),
{
    if ws.len() == 0 {
        None
    } else if ws[0] == w {
        Some(0)
    } else {
        match first_word(ws.drop_first(), w) {
            Some(i) => Some(i + 1),
            None => None,
        }
    }
}

/// The storage item a line declares: not blank, not a comment, at least a level and a name, a
/// level that parses, and not a level-88 condition.
pub open spec fn line_item(line: Seq<char>) -> Option<RItem> {
    let t = trim_ws(line);
    if t.len() == 0 || t[0] == '*' {
        None
    } else {
        let toks = split_ws(trim_end_dots(t));
        if toks.len() < 2 {
            None
        } else {
            match parse_unsigned(toks[0], 65535) {
                None => None,
                Some(level) => if level == 88 {
                    None
                } else {
                    let up = upper_all(toks);
                    Some(
                        RItem {
                            level: level as u16,
                            name: toks[1],
                            has_pic: up.contains("PIC"@) || up.contains("PICTURE"@),
                            redefines: match first_word(up, "REDEFINES"@) {
                                Some(i) => if i + 1 < toks.len() {
                                    Some(toks[i + 1])
                                } else {
                                    None
                                },
                                None => None,
                            },
                        },
                    )
                },
            }
        }
    }
}

pub open spec fn items_of_lines(lines: Seq<Seq<char>>) -> Seq<RItem>
    decreases lines.len(),
{
    if lines.len() == 0 {
        seq![]
    } else {
        let prev = items_of_lines(lines.drop_last());
        match line_item(lines.last()) {
            Some(it) => prev.push(it),
            None => prev,
        }
    }
}

/// The storage items of a copybook text, in order.
pub open spec fn items_spec(text: Seq<char>) -> Seq<RItem> {
    items_of_lines(nl_pieces(text))
}

struct RItemExec {
    level: u16,
    name: String,
    has_pic: bool,
    redefines: Option<String>,
}

spec fn ritem_view(r: RItemExec) -> RItem {
    RItem {
        level: r.level,
        name: r.name@,
        has_pic: r.has_pic,
        redefines: match r.redefines {
            Some(s) => Some(s@),
            None => None,
        },
    }
}

spec fn ritems_view(v: Seq<RItemExec>) -> Seq<RItem> {
    v.map_values(|r: RItemExec| ritem_view(r))
}

fn trim_chars(v: &Vec<char>) -> (r: Vec<char>)
    ensures
        r@ == trim_ws(v@),
{
    let e = trim_end_ws_len(v, v.len());
    assert(v@.take(v@.len() as int) =~= v@);
    let mut w: Vec<char> = Vec::new();
    let mut i: usize = 0;
    while i < e
        invariant
            i <= e <= v@.len(),
            w@ == v@.take(i as int),
        decreases e - i,
    {
        w.push(v[i]);
        assert(v@.take(i + 1) =~= v@.take(i as int).push(v@[i as int]));
        i += 1;
    }
    let k = trim_start_len(&w);
    let mut r: Vec<char> = Vec::new();
    let mut j: usize = k;
    while j < w.len()
        invariant
            k <= j <= w@.len(),
            r@ == w@.subrange(k as int, j as int),
        decreases w@.len() - j,
    {
        r.push(w[j]);
        assert(w@.subrange(k as int, j + 1) =~= w@.subrange(k as int, j as int).push(w@[j as int]));
        j += 1;
    }
    assert(r@ =~= w@.skip(k as int));
    r
}

fn drop_end_dots(v: &Vec<char>) -> (r: Vec<char>)
    ensures
        r@ == trim_end_dots(v@),
{
    let mut e = v.len();
    assert(v@.take(e as int) =~= v@);
    while e > 0 && v[e - 1] == '.'
        invariant
            e <= v@.len(),
            trim_end_dots(v@.take(e as int)) == trim_end_dots(v@),
        decreases e,
    {
        assert(v@.take(e as int).drop_last() =~= v@.take(e - 1));
        e -= 1;
    }
    let mut r: Vec<char> = Vec::new();
    let mut i: usize = 0;
    while i < e
        invariant
            i <= e <= v@.len(),
            r@ == v@.take(i as int),
        decreases e - i,
    {
        r.push(v[i]);
        assert(v@.take(i + 1) =~= v@.take(i as int).push(v@[i as int]));
        i += 1;
    }
    r
}

fn any_word(ws: &Vec<Vec<char>>, a: &str, b: &str) -> (r: bool)
    ensures
        r == (vv(ws@).contains(a@) || vv(ws@).contains(b@)),
{
    let ghost w = vv(ws@);
    let mut i: usize = 0;
    while i < ws.len()
        invariant
            i <= ws@.len(),
            w == vv(ws@),
            forall|j: int| 0 <= j < i ==> w[j] != a@ && w[j] != b@,
        decreases ws@.len() - i,
    {
        assert(w[i as int] == ws@[i as int]@);
        if word_is(&ws[i], a) || word_is(&ws[i], b) {
            return true;
        }
        i += 1;
    }
    false
}

proof fn lemma_first_word_at(ws: Seq<Seq<char>>, w: Seq<char>, i: int)
    requires
        0 <= i < ws.len(),
        ws[i] == w,
        forall|m: int| 0 <= m < i ==> ws[m] != w,
    ensures
        first_word(ws, w) == Some(i),
    decreases i,
{
    if i > 0 {
        lemma_first_word_at(ws.drop_first(), w, i - 1);
    }
}

proof fn lemma_first_word_none(ws: Seq<Seq<char>>, w: Seq<char>)
    requires
        forall|m: int| 0 <= m < ws.len() ==> ws[m] != w,
    ensures
        first_word(ws, w) is None,
    decreases ws.len(),
{
    if ws.len() > 0 {
        lemma_first_word_none(ws.drop_first(), w);
    }
}

fn first_word_exec(ws: &Vec<Vec<char>>, a: &str) -> (r: Option<usize>)
    ensures
        match first_word(vv(ws@), a@) {
            Some(i) => r == Some(i as usize) && 0 <= i < ws@.len(),
            None => r is None,
        },
{
    let ghost w = vv(ws@);
    let mut i: usize = 0;
    while i < ws.len()
        invariant
            i <= ws@.len(),
            w == vv(ws@),
            forall|m: int| 0 <= m < i ==> w[m] != a@,
        decreases ws@.len() - i,
    {
        assert(w[i as int] == ws@[i as int]@);
        if word_is(&ws[i], a) {
            proof {
                lemma_first_word_at(w, a@, i as int);
            }
            return Some(i);
        }
        i += 1;
    }
    proof {
        lemma_first_word_none(w, a@);
    }
    None
}

fn line_item_exec(line: &Vec<char>) -> (r: Option<RItemExec>)
    ensures
        match r {
            Some(it) => line_item(line@) == Some(ritem_view(it)),
            None => line_item(line@) is None,
        },
{
    let t = trim_chars(line);
    if t.len() == 0 || t[0] == '*' {
        return None;
    }
    let body = drop_end_dots(&t);
    let toks = split_words(&body);
    if toks.len() < 2 {
        return None;
    }
    assert(vv(toks@)[0] == toks@[0]@);
    assert(vv(toks@)[1] == toks@[1]@);
    let level = match parse_unsigned_exec(&toks[0], 65535) {
        Some(l) => l,
        None => {
            return None;
        },
    };
    if level == 88 {
        return None;
    }
    let up = upper_words(&toks);
    let has_pic = any_word(&up, "PIC", "PICTURE");
    let redefines = match first_word_exec(&up, "REDEFINES") {
        Some(i) => {
            if i + 1 < toks.len() {
                assert(vv(toks@)[i + 1] == toks@[i + 1]@);
                Some(string_of(&toks[i + 1]))
            } else {
                None
            }
        },
        None => None,
    };
    Some(RItemExec { level: level as u16, name: string_of(&toks[1]), has_pic, redefines })
}

fn parse_items(text: &str) -> (r: Vec<RItemExec>)
    ensures
        ritems_view(r@) == items_spec(text@),
{
    let cs = chars_of(text);
    let mut items: Vec<RItemExec> = Vec::new();
    let mut cur: Vec<char> = Vec::new();
    let mut i: usize = 0;
    assert(cs@.take(0) =~= Seq::<char>::empty());
    while i < cs.len()
        invariant
            i <= cs@.len(),
            cs@ == text@,
            scan_nl(cs@.take(i as int)).1 == cur@,
            ritems_view(items@) == items_of_lines(scan_nl(cs@.take(i as int)).0),
        decreases cs@.len() - i,
    {
        assert(cs@.take(i + 1).drop_last() =~= cs@.take(i as int));
        if cs[i] == '\n' {
            let ghost done = scan_nl(cs@.take(i as int)).0;
            assert(done.push(cur@).drop_last() =~= done);
            match line_item_exec(&cur) {
                Some(it) => {
                    let ghost before = items@;
                    items.push(it);
                    assert(ritems_view(items@) =~= ritems_view(before).push(ritem_view(it)));
                },
                None => {},
            }
            cur = Vec::new();
        } else {
            cur.push(cs[i]);
        }
        i += 1;
    }
    assert(cs@.take(i as int) =~= cs@);
    let ghost done = scan_nl(cs@).0;
    assert(done.push(cur@).drop_last() =~= done);
    match line_item_exec(&cur) {
        Some(it) => {
            let ghost before = items@;
            items.push(it);
            assert(ritems_view(items@) =~= ritems_view(before).push(ritem_view(it)));
        },
        None => {},
    }
    items
}


// ----------------------------------------------------------------------------------------------
// Views, regions, the active view
// ----------------------------------------------------------------------------------------------

/// Elementary names under item `j` onward while the level stays deeper than `lvl`.
pub open spec fn desc_members(items: Seq<RItem>, j: int, lvl: u16) -> Seq<Seq<char>>
    decreases items.len() - j,
{
    if j < 0 || j >= items.len() || items[j].level <= lvl {
        seq![]
    } else {
        (if items[j].has_pic { seq![items[j].name] } else { Seq::<Seq<char>>::empty() }) + desc_members(items, j + 1, lvl)
    }
}

/// The elementary member names of item `i`: itself when elementary, else its elementary
/// descendants (until the level returns).
pub open spec fn members(items: Seq<RItem>, i: int) -> Seq<Seq<char>> {
    if items[i].has_pic {
        seq![items[i].name]
    } else {
        desc_members(items, i + 1, items[i].level)
    }
}

/// The redefined names, in order of first redefinition.
pub open spec fn targets(items: Seq<RItem>, n: nat) -> Seq<Seq<char>>
    decreases n,
{
    if n == 0 || n > items.len() {
        seq![]
    } else {
        let prev = targets(items, (n - 1) as nat);
        match items[n - 1].redefines {
            Some(t) => if prev.contains(t) {
                prev
            } else {
                prev.push(t)
            },
            None => prev,
        }
    }
}

pub open spec fn first_named(items: Seq<RItem>, name: Seq<char>, k: int) -> Option<int>
    decreases items.len() - k,
{
    if k < 0 || k >= items.len() {
        None
    } else if items[k].name == name {
        Some(k)
    } else {
        first_named(items, name, k + 1)
    }
}

pub open spec fn redefiners(items: Seq<RItem>, t: Seq<char>, n: nat) -> Seq<int>
    decreases n,
{
    if n == 0 || n > items.len() {
        seq![]
    } else {
        let prev = redefiners(items, t, (n - 1) as nat);
        if items[n - 1].redefines == Some(t) {
            prev.push(n - 1)
        } else {
            prev
        }
    }
}

/// The views of a redefined name: the base item itself, then each item that redefines it.
pub open spec fn group(items: Seq<RItem>, t: Seq<char>) -> Seq<int> {
    (match first_named(items, t, 0) {
        Some(k) => seq![k],
        None => Seq::<int>::empty(),
    }) + redefiners(items, t, items.len())
}

/// The decoded field named `name` (a later one replaces an earlier one).
pub open spec fn fget(fs: Seq<FieldView>, name: Seq<char>) -> Option<FieldView>
    decreases fs.len(),
{
    if fs.len() == 0 {
        None
    } else if fs.last().name == name {
        Some(fs.last())
    } else {
        fget(fs.drop_last(), name)
    }
}

pub open spec fn field_entry(m: Seq<char>, f: FieldView) -> Seq<char> {
    "{\"name\":"@ + js(m) + ",\"offset\":"@ + dec_nat(f.offset as nat) + ",\"length\":"@ + dec_nat(f.size as nat) + "}"@
}

pub open spec fn decoded_entry(m: Seq<char>, f: FieldView) -> Seq<char> {
    js(m) + ":"@ + js(f.value)
}

/// The field and decoded entries of the members that were decoded.
pub open spec fn found_entries(fs: Seq<FieldView>, ms: Seq<Seq<char>>, n: nat) -> (Seq<Seq<char>>, Seq<Seq<char>>)
    decreases n,
{
    if n == 0 || n > ms.len() {
        (seq![], seq![])
    } else {
        let (a, b) = found_entries(fs, ms, (n - 1) as nat);
        match fget(fs, ms[n - 1]) {
            Some(f) => (a.push(field_entry(ms[n - 1], f)), b.push(decoded_entry(ms[n - 1], f))),
            None => (a, b),
        }
    }
}

pub open spec fn view_json(items: Seq<RItem>, fs: Seq<FieldView>, vi: int, active: Option<Seq<char>>) -> Seq<char> {
    let ms = members(items, vi);
    let (fe, de) = found_entries(fs, ms, ms.len());
    "{\"view_id\":"@ + js(items[vi].name) + ",\"redefines\":"@ + match items[vi].redefines {
        Some(r) => js(r),
        None => "null"@,
    } + ",\"layout_valid\":true,\"is_active\":"@ + bool_text(active == Some(items[vi].name)) + ",\"fields\":["@ + join_comma(fe)
        + "],\"decoded\":{"@ + join_comma(de) + "}}"@
}

pub open spec fn min_i(a: int, b: int) -> int {
    if a <= b {
        a
    } else {
        b
    }
}

pub open spec fn max_i(a: int, b: int) -> int {
    if a >= b {
        a
    } else {
        b
    }
}

/// Lowest offset and highest end over the decoded members of the first `n` names.
pub open spec fn mbounds(fs: Seq<FieldView>, ms: Seq<Seq<char>>, n: nat, lo: int, hi: int) -> (int, int)
    decreases n,
{
    if n == 0 || n > ms.len() {
        (lo, hi)
    } else {
        let (l, h) = mbounds(fs, ms, (n - 1) as nat, lo, hi);
        match fget(fs, ms[n - 1]) {
            Some(f) => (min_i(l, f.offset as int), max_i(h, f.offset + f.size)),
            None => (l, h),
        }
    }
}

/// The bounds over the members of the first `n` views (starting from "none seen").
pub open spec fn vbounds(items: Seq<RItem>, fs: Seq<FieldView>, g: Seq<int>, n: nat) -> (int, int)
    decreases n,
{
    if n == 0 || n > g.len() {
        (usize::MAX as int, 0)
    } else {
        let (l, h) = vbounds(items, fs, g, (n - 1) as nat);
        let ms = members(items, g[n - 1]);
        mbounds(fs, ms, ms.len(), l, h)
    }
}

/// The storage region of a redefined name: where its views' decoded members lie, the hash of
/// those bytes, and each view.
pub open spec fn region_json(items: Seq<RItem>, fs: Seq<FieldView>, record: Seq<u8>, t: Seq<char>, active: Option<Seq<char>>) -> Seq<char> {
    let g = group(items, t);
    let (lo, hi) = vbounds(items, fs, g, g.len());
    let off: int = if lo == usize::MAX { 0 } else { lo };
    let len: int = if lo == usize::MAX { 0 } else { hi - lo };
    let raw = if off + len <= record.len() { record.subrange(off, off + len) } else { Seq::<u8>::empty() };
    "{\"storage_region\":{\"offset\":"@ + dec_nat(off as nat) + ",\"length\":"@ + dec_nat(len as nat) + ",\"raw_sha256\":"@ + js(
        spec_sha256_hex(raw),
    ) + "},\"views\":["@ + join_comma(g.map_values(|vi: int| view_json(items, fs, vi, active))) + "]}"@
}

/// A declared discriminator: the value of `field` selects a view id.
pub struct RedefinesDiscriminator<'a> {
    pub field: &'a str,
    pub mapping: &'a [(&'a str, &'a str)],
}

pub struct DiscView {
    pub field: Seq<char>,
    pub mapping: Seq<(Seq<char>, Seq<char>)>,
}

pub open spec fn disc_view(d: RedefinesDiscriminator) -> DiscView {
    DiscView { field: d.field@, mapping: d.mapping@.map_values(|p: (&str, &str)| (p.0@, p.1@)) }
}

pub open spec fn first_map(m: Seq<(Seq<char>, Seq<char>)>, v: Seq<char>) -> Option<Seq<char>>
    decreases m.len(),
{
    if m.len() == 0 {
        None
    } else if m[0].0 == v {
        Some(m[0].1)
    } else {
        first_map(m.drop_first(), v)
    }
}

/// The admitted active view and who declared it, when a discriminator maps the decoded value.
pub open spec fn active_spec(fs: Seq<FieldView>, d: Option<DiscView>) -> Option<(Seq<char>, Seq<char>)> {
    match d {
        None => None,
        Some(d) => match fget(fs, d.field) {
            None => None,
            Some(f) => match first_map(d.mapping, f.value) {
                Some(vid) => Some((vid, "discriminator "@ + d.field + "="@ + f.value)),
                None => None,
            },
        },
    }
}

pub const REDEFINES_NEGATIVES: &'static str = ",\"business_meaning\":false},\"negative_capabilities\":[\"NEG.REDEFINES.ACTIVE_VIEW_NOT_INFERRED\",\"NEG.REDEFINES.LAYOUT_VALID_NOT_BUSINESS_MEANING\",\"NEG.REDEFINES.MULTI_VIEW_TRUTH_NOT_CLAIMED\",\"NEG.REDEFINES.DISCRIMINATOR_REQUIRED\",\"NEG.REDEFINES.WRITE_BACK_NOT_CLAIMED\"]}\n";

pub open spec fn active_json(a: Option<(Seq<char>, Seq<char>)>) -> Seq<char> {
    match a {
        Some((v, by)) => "{\"claimed\":true,\"view_id\":"@ + js(v) + ",\"declared_by\":"@ + js(by) + "}"@,
        None => "{\"claimed\":false,\"view_id\":null,\"declared_by\":null}"@,
    }
}

pub open spec fn manifest_spec(items: Seq<RItem>, fs: Seq<FieldView>, record: Seq<u8>, a: Option<(Seq<char>, Seq<char>)>) -> Seq<char> {
    let ts = targets(items, items.len());
    let active = match a {
        Some((v, _)) => Some(v),
        None => None,
    };
    "{\"schema\":\"kobold-redefines-view-manifest-v1\",\"court\":\"KOBOLD.LAYOUT.REDEFINES.2\",\"record_sha256\":"@ + js(
        spec_sha256_hex(record),
    ) + ",\"region_count\":"@ + dec_nat(ts.len()) + ",\"regions\":["@ + join_comma(
        ts.map_values(|t: Seq<char>| region_json(items, fs, record, t, active)),
    ) + "],\"active_view\":"@ + active_json(a) + "}"@
}

/// The overlapping-view manifest result.
pub struct RedefinesManifest {
    pub manifest_json: String,
    pub casefile_json: String,
    /// `Some(view_id)` only when a declared discriminator admitted it.
    pub active_view: Option<String>,
    pub region_count: usize,
}

pub struct ManifestView {
    pub manifest_json: Seq<char>,
    pub casefile_json: Seq<char>,
    pub active_view: Option<Seq<char>>,
    pub region_count: nat,
}

pub open spec fn manifest_view(m: RedefinesManifest) -> ManifestView {
    ManifestView {
        manifest_json: m.manifest_json@,
        casefile_json: m.casefile_json@,
        active_view: match m.active_view {
            Some(s) => Some(s@),
            None => None,
        },
        region_count: m.region_count as nat,
    }
}

/// What [`redefines_manifest`] builds from the decoded fields.
pub open spec fn redefines_body(text: Seq<char>, fs: Seq<FieldView>, record: Seq<u8>, d: Option<DiscView>) -> ManifestView {
    let items = items_spec(text);
    let a = active_spec(fs, d);
    let m = manifest_spec(items, fs, record, a);
    ManifestView {
        manifest_json: m,
        casefile_json: "{\"schema\":\"kobold-redefines-forensic-casefile-v1\",\"court\":\"KOBOLD.LAYOUT.REDEFINES.2\",\"manifest\":"@ + m
            + ",\"truth_layers\":{\"byte_view_truth\":true,\"active_view_truth\":"@ + bool_text(a is Some) + REDEFINES_NEGATIVES@,
        active_view: match a {
            Some((v, _)) => Some(v),
            None => None,
        },
        region_count: targets(items, items.len()).len(),
    }
}

pub open spec fn redefines_spec(cb: Copybook, record: Seq<u8>, enc: Encoding, d: Option<DiscView>) -> Result<ManifestView, ShimErrorView> {
    match decode_record_spec(cb, record, enc) {
        Err(e) => Err(e),
        Ok(rv) => Ok(redefines_body(cb.source@, rv.fields, record, d)),
    }
}

// ---- executable parts ----

fn fget_exec(fs: &Vec<DecodedField>, name: &str) -> (r: Option<usize>)
    ensures
        match r {
            Some(i) => i < fs@.len() && fget(fields_view(fs@), name@) == Some(field_view(fs@[i as int])),
            None => fget(fields_view(fs@), name@) is None,
        },
{
    let ghost fv = fields_view(fs@);
    let mut i = fs.len();
    assert(fv.take(i as int) =~= fv);
    while i > 0
        invariant
            i <= fs@.len(),
            fv == fields_view(fs@),
            fget(fv, name@) == fget(fv.take(i as int), name@),
        decreases i,
    {
        assert(fv.take(i as int).drop_last() =~= fv.take(i - 1));
        assert(fv[i - 1] == field_view(fs@[i - 1]));
        if str_eq(fs[i - 1].name.as_str(), name) {
            return Some(i - 1);
        }
        i -= 1;
    }
    None
}

fn members_exec(items: &Vec<RItemExec>, i: usize) -> (r: Vec<String>)
    requires
        i < items@.len(),
    ensures
        strs_view(r@) == members(ritems_view(items@), i as int),
{
    let ghost iv = ritems_view(items@);
    assert(iv[i as int] == ritem_view(items@[i as int]));
    let mut out: Vec<String> = Vec::new();
    if items[i].has_pic {
        out.push(items[i].name.clone());
        assert(strs_view(out@) =~= seq![iv[i as int].name]);
        return out;
    }
    let lvl = items[i].level;
    let n = items.len();
    let mut j = i + 1;
    while j < items.len() && items[j].level > lvl
        invariant
            i < j <= items@.len(),
            iv == ritems_view(items@),
            lvl == iv[i as int].level,
            strs_view(out@) + desc_members(iv, j as int, lvl) == desc_members(iv, i + 1, lvl),
        decreases items@.len() - j,
    {
        assert(iv[j as int] == ritem_view(items@[j as int]));
        if items[j].has_pic {
            let ghost before = out@;
            out.push(items[j].name.clone());
            assert(strs_view(out@) =~= strs_view(before).push(iv[j as int].name));
            assert(strs_view(out@) + desc_members(iv, j + 1, lvl) =~= strs_view(before) + desc_members(iv, j as int, lvl));
        } else {
            assert(strs_view(out@) + desc_members(iv, j + 1, lvl) =~= strs_view(out@) + desc_members(iv, j as int, lvl));
        }
        j += 1;
    }
    if j < items.len() {
        assert(iv[j as int] == ritem_view(items@[j as int]));
    }
    assert(desc_members(iv, j as int, lvl) =~= Seq::<Seq<char>>::empty());
    assert(strs_view(out@) =~= strs_view(out@) + desc_members(iv, j as int, lvl));
    out
}

fn contains_string(v: &Vec<String>, x: &str) -> (r: bool)
    ensures
        r == strs_view(v@).contains(x@),
{
    let ghost sv = strs_view(v@);
    let mut i: usize = 0;
    while i < v.len()
        invariant
            i <= v@.len(),
            sv == strs_view(v@),
            forall|j: int| 0 <= j < i ==> sv[j] != x@,
        decreases v@.len() - i,
    {
        if str_eq(v[i].as_str(), x) {
            assert(sv[i as int] == x@);
            return true;
        }
        i += 1;
    }
    false
}

fn targets_exec(items: &Vec<RItemExec>) -> (r: Vec<String>)
    ensures
        strs_view(r@) == targets(ritems_view(items@), items@.len()),
{
    let ghost iv = ritems_view(items@);
    let mut out: Vec<String> = Vec::new();
    let mut i: usize = 0;
    while i < items.len()
        invariant
            i <= items@.len(),
            iv == ritems_view(items@),
            strs_view(out@) == targets(iv, i as nat),
        decreases items@.len() - i,
    {
        assert(iv[i as int] == ritem_view(items@[i as int]));
        match &items[i].redefines {
            Some(t) => {
                if !contains_string(&out, t.as_str()) {
                    let ghost before = out@;
                    out.push(t.clone());
                    assert(strs_view(out@) =~= strs_view(before).push(t@));
                }
            },
            None => {},
        }
        i += 1;
    }
    out
}

fn group_exec(items: &Vec<RItemExec>, t: &str) -> (r: Vec<usize>)
    ensures
        r@.map_values(|k: usize| k as int) == group(ritems_view(items@), t@),
        forall|j: int| 0 <= j < r@.len() ==> #[trigger] r@[j] < items@.len(),
{
    let ghost iv = ritems_view(items@);
    let mut out: Vec<usize> = Vec::new();
    let mut k: usize = 0;
    while k < items.len()
        invariant
            k <= items@.len(),
            iv == ritems_view(items@),
            first_named(iv, t@, 0) == first_named(iv, t@, k as int),
            forall|m: int| 0 <= m < k ==> iv[m].name != t@,
        ensures
            k <= items@.len(),
            first_named(iv, t@, 0) == first_named(iv, t@, k as int),
            k < items@.len() ==> iv[k as int].name == t@,
        decreases items@.len() - k,
    {
        assert(iv[k as int] == ritem_view(items@[k as int]));
        if str_eq(items[k].name.as_str(), t) {
            break;
        }
        k += 1;
    }
    proof {
        lemma_first_named_step(iv, t@, 0, k as int);
    }
    if k < items.len() {
        out.push(k);
    }
    let ghost seed = out@.map_values(|x: usize| x as int);
    assert(seed =~= match first_named(iv, t@, 0) {
        Some(x) => seq![x],
        None => Seq::<int>::empty(),
    });
    let mut j: usize = 0;
    while j < items.len()
        invariant
            j <= items@.len(),
            iv == ritems_view(items@),
            out@.map_values(|x: usize| x as int) == seed + redefiners(iv, t@, j as nat),
            forall|m: int| 0 <= m < out@.len() ==> #[trigger] out@[m] < items@.len(),
        decreases items@.len() - j,
    {
        assert(iv[j as int] == ritem_view(items@[j as int]));
        let is_r = match &items[j].redefines {
            Some(r) => str_eq(r.as_str(), t),
            None => false,
        };
        let ghost before = out@;
        if is_r {
            out.push(j);
            assert(out@.map_values(|x: usize| x as int) =~= before.map_values(|x: usize| x as int).push(j as int));
        }
        j += 1;
    }
    out
}

proof fn lemma_first_named_step(items: Seq<RItem>, t: Seq<char>, a: int, k: int)
    requires
        0 <= a <= k <= items.len(),
        first_named(items, t, a) == first_named(items, t, k),
        forall|m: int| a <= m < k ==> items[m].name != t,
        k < items.len() ==> items[k].name == t,
    ensures
        first_named(items, t, a) == if k < items.len() { Some(k) } else { None::<int> },
{
}


/// One view's JSON, and the bounds after its members are taken in.
#[verifier::rlimit(40)]
fn view_exec(items: &Vec<RItemExec>, fs: &Vec<DecodedField>, vi: usize, active: &Option<String>, lo: usize, hi: u128) -> (r: (String, usize, u128))
    requires
        vi < items@.len(),
        hi <= usize::MAX as int + usize::MAX as int,
        lo == usize::MAX || lo <= hi,
    ensures
        r.1 == usize::MAX || r.1 <= r.2,
        r.0@ == view_json(ritems_view(items@), fields_view(fs@), vi as int, opt_view(*active)),
        ({
            let ms = members(ritems_view(items@), vi as int);
            (r.1 as int, r.2 as int) == mbounds(fields_view(fs@), ms, ms.len(), lo as int, hi as int)
        }),
        r.2 <= usize::MAX as int + usize::MAX as int,
{
    let ghost iv = ritems_view(items@);
    let ghost fv = fields_view(fs@);
    let ms = members_exec(items, vi);
    let ghost msv = strs_view(ms@);
    let mut fe: Vec<String> = Vec::new();
    let mut de: Vec<String> = Vec::new();
    let mut l = lo;
    let mut h = hi;
    let mut k: usize = 0;
    while k < ms.len()
        invariant
            k <= ms@.len(),
            msv == strs_view(ms@),
            fv == fields_view(fs@),
            h <= usize::MAX as int + usize::MAX as int,
            l == usize::MAX || l <= h,
            (strs_view(fe@), strs_view(de@)) == found_entries(fv, msv, k as nat),
            (l as int, h as int) == mbounds(fv, msv, k as nat, lo as int, hi as int),
        decreases ms@.len() - k,
    {
        let m = ms[k].as_str();
        assert(msv[k as int] == m@);
        match fget_exec(fs, m) {
            Some(fi) => {
                let f = &fs[fi];
                if f.offset < l {
                    l = f.offset;
                }
                let end: u128 = f.offset as u128 + f.size as u128;
                if end > h {
                    h = end;
                }
                let mut a = String::new();
                push_lit(&mut a, "{\"name\":");
                push_js(&mut a, m);
                push_lit(&mut a, ",\"offset\":");
                push_usize(&mut a, f.offset);
                push_lit(&mut a, ",\"length\":");
                push_usize(&mut a, f.size);
                push_lit(&mut a, "}");
                let mut b = String::new();
                push_js(&mut b, m);
                push_lit(&mut b, ":");
                push_js(&mut b, f.value.as_str());
                proof {
                    lemma_strs_push(fe@, a);
                    lemma_strs_push(de@, b);
                }
                fe.push(a);
                de.push(b);
            },
            None => {},
        }
        k += 1;
    }
    assert(iv[vi as int] == ritem_view(items@[vi as int]));
    let mut o = String::new();
    push_lit(&mut o, "{\"view_id\":");
    push_js(&mut o, items[vi].name.as_str());
    push_lit(&mut o, ",\"redefines\":");
    match &items[vi].redefines {
        Some(r) => push_js(&mut o, r.as_str()),
        None => push_lit(&mut o, "null"),
    }
    push_lit(&mut o, ",\"layout_valid\":true,\"is_active\":");
    let is_active = match active {
        Some(a) => str_eq(a.as_str(), items[vi].name.as_str()),
        None => false,
    };
    push_bool(&mut o, is_active);
    push_lit(&mut o, ",\"fields\":[");
    push_joined(&mut o, &fe);
    push_lit(&mut o, "],\"decoded\":{");
    push_joined(&mut o, &de);
    push_lit(&mut o, "}}");
    (o, l, h)
}

#[verifier::rlimit(40)]
fn region_exec(items: &Vec<RItemExec>, fs: &Vec<DecodedField>, record: &[u8], t: &str, active: &Option<String>) -> (r: String)
    ensures
        r@ == region_json(ritems_view(items@), fields_view(fs@), record@, t@, opt_view(*active)),
{
    let ghost iv = ritems_view(items@);
    let ghost fv = fields_view(fs@);
    let ghost act = opt_view(*active);
    let g = group_exec(items, t);
    let ghost gv = g@.map_values(|k: usize| k as int);
    let mut views: Vec<String> = Vec::new();
    let mut lo: usize = usize::MAX;
    let mut hi: u128 = 0;
    let mut i: usize = 0;
    while i < g.len()
        invariant
            i <= g@.len(),
            gv == g@.map_values(|k: usize| k as int),
            gv == group(iv, t@),
            iv == ritems_view(items@),
            fv == fields_view(fs@),
            forall|j: int| 0 <= j < g@.len() ==> #[trigger] g@[j] < items@.len(),
            hi <= usize::MAX as int + usize::MAX as int,
            lo == usize::MAX || lo <= hi,
            act == opt_view(*active),
            strs_view(views@) == gv.map_values(|vi: int| view_json(iv, fv, vi, act)).take(i as int),
            (lo as int, hi as int) == vbounds(iv, fv, gv, i as nat),
        decreases g@.len() - i,
    {
        assert(gv[i as int] == g@[i as int] as int);
        let (v, l, h) = view_exec(items, fs, g[i], active, lo, hi);
        proof {
            lemma_strs_push(views@, v);
        }
        views.push(v);
        assert(gv.map_values(|vi: int| view_json(iv, fv, vi, act)).take(i + 1) =~= gv.map_values(
            |vi: int| view_json(iv, fv, vi, act),
        ).take(i as int).push(v@));
        lo = l;
        hi = h;
        i += 1;
    }
    assert(gv.map_values(|vi: int| view_json(iv, fv, vi, act)).take(i as int) =~= gv.map_values(
        |vi: int| view_json(iv, fv, vi, act),
    ));
    let (off, len): (u128, u128) = if lo == usize::MAX { (0, 0) } else { (lo as u128, hi - lo as u128) };
    let mut raw_ok = false;
    let mut raw_off: usize = 0;
    let mut raw_end: usize = 0;
    if off + len <= record.len() as u128 {
        raw_ok = true;
        raw_off = off as usize;
        raw_end = (off + len) as usize;
    }
    let raw: &[u8] = if raw_ok { vstd::slice::slice_subrange(record, raw_off, raw_end) } else { &[] };
    assert(raw@ =~= (if off + len <= record@.len() { record@.subrange(off as int, off + len) } else { Seq::<u8>::empty() }));
    let sha = sha256_hex(raw);
    let mut o = String::new();
    push_lit(&mut o, "{\"storage_region\":{\"offset\":");
    push_u128(&mut o, off);
    push_lit(&mut o, ",\"length\":");
    push_u128(&mut o, len);
    push_lit(&mut o, ",\"raw_sha256\":");
    push_js(&mut o, sha.as_str());
    push_lit(&mut o, "},\"views\":[");
    push_joined(&mut o, &views);
    push_lit(&mut o, "]}");
    o
}

fn first_map_exec(m: &[(&str, &str)], v: &str) -> (r: Option<usize>)
    ensures
        match r {
            Some(i) => i < m@.len() && first_map(m@.map_values(|p: (&str, &str)| (p.0@, p.1@)), v@) == Some(m@[i as int].1@),
            None => first_map(m@.map_values(|p: (&str, &str)| (p.0@, p.1@)), v@) is None,
        },
{
    let ghost mv = m@.map_values(|p: (&str, &str)| (p.0@, p.1@));
    let mut i: usize = 0;
    assert(mv.skip(0) =~= mv);
    while i < m.len()
        invariant
            i <= m@.len(),
            mv == m@.map_values(|p: (&str, &str)| (p.0@, p.1@)),
            first_map(mv, v@) == first_map(mv.skip(i as int), v@),
        decreases m@.len() - i,
    {
        assert(mv.skip(i as int)[0] == mv[i as int]);
        assert(mv.skip(i as int).drop_first() =~= mv.skip(i + 1));
        if str_eq(m[i].0, v) {
            return Some(i);
        }
        i += 1;
    }
    assert(mv.skip(i as int).len() == 0);
    None
}

/// Build the overlapping-view manifest: every view is decoded over the same shared bytes, and the
/// active view is admitted only by a declared discriminator.
#[verifier::rlimit(40)]
pub fn redefines_manifest(cb: &Copybook, record: &[u8], encoding: Encoding, discriminator: Option<&RedefinesDiscriminator>) -> (r: Result<RedefinesManifest, ShimError>)
    ensures
        match r {
            Ok(m) => redefines_spec(*cb, record@, encoding, match discriminator {
                Some(d) => Some(disc_view(*d)),
                None => None,
            }) == Ok::<ManifestView, ShimErrorView>(manifest_view(m)),
            Err(e) => redefines_spec(*cb, record@, encoding, match discriminator {
                Some(d) => Some(disc_view(*d)),
                None => None,
            }) == Err::<ManifestView, ShimErrorView>(shim_error_view(e)),
        },
        r matches Ok(m) && m.active_view is Some ==> discriminator is Some,
{
    let decoded = decode_record_encoded(cb, record, encoding)?;
    let fs = &decoded.fields;
    let ghost fv = fields_view(fs@);
    let items = parse_items(cb.source.as_str());
    let ghost iv = ritems_view(items@);
    let ghost dv = match discriminator {
        Some(d) => Some(disc_view(*d)),
        None => None::<DiscView>,
    };
    let mut active_view: Option<String> = None;
    let mut declared_by: Option<String> = None;
    match discriminator {
        Some(d) => {
            match fget_exec(fs, d.field) {
                Some(fi) => {
                    let val = fs[fi].value.as_str();
                    match first_map_exec(d.mapping, val) {
                        Some(mi) => {
                            active_view = Some(String::from_str(d.mapping[mi].1));
                            let mut by = String::new();
                            push_lit(&mut by, "discriminator ");
                            by.append(d.field);
                            push_lit(&mut by, "=");
                            by.append(val);
                            declared_by = Some(by);
                        },
                        None => {},
                    }
                },
                None => {},
            }
        },
        None => {},
    }
    let ghost a = active_spec(fv, dv);
    assert(match a {
        Some((v, by)) => (active_view matches Some(x) && x@ == v) && (declared_by matches Some(y) && y@ == by),
        None => active_view is None && declared_by is None,
    });
    let ts = targets_exec(&items);
    let ghost tv = strs_view(ts@);
    let ghost act = opt_view(active_view);
    let mut regions: Vec<String> = Vec::new();
    let mut i: usize = 0;
    while i < ts.len()
        invariant
            i <= ts@.len(),
            tv == strs_view(ts@),
            iv == ritems_view(items@),
            fv == fields_view(fs@),
            act == opt_view(active_view),
            strs_view(regions@) == tv.map_values(|t: Seq<char>| region_json(iv, fv, record@, t, act)).take(i as int),
        decreases ts@.len() - i,
    {
        let rj = region_exec(&items, fs, record, ts[i].as_str(), &active_view);
        proof {
            lemma_strs_push(regions@, rj);
        }
        regions.push(rj);
        assert(tv.map_values(|t: Seq<char>| region_json(iv, fv, record@, t, act)).take(i + 1) =~= tv.map_values(
            |t: Seq<char>| region_json(iv, fv, record@, t, act),
        ).take(i as int).push(rj@));
        i += 1;
    }
    assert(tv.map_values(|t: Seq<char>| region_json(iv, fv, record@, t, act)).take(i as int) =~= tv.map_values(
        |t: Seq<char>| region_json(iv, fv, record@, t, act),
    ));
    let rec_sha = sha256_hex(record);
    let mut m = String::new();
    push_lit(&mut m, "{\"schema\":\"kobold-redefines-view-manifest-v1\",\"court\":\"KOBOLD.LAYOUT.REDEFINES.2\",\"record_sha256\":");
    push_js(&mut m, rec_sha.as_str());
    push_lit(&mut m, ",\"region_count\":");
    push_usize(&mut m, ts.len());
    push_lit(&mut m, ",\"regions\":[");
    push_joined(&mut m, &regions);
    push_lit(&mut m, "],\"active_view\":");
    match (&active_view, &declared_by) {
        (Some(v), Some(by)) => {
            push_lit(&mut m, "{\"claimed\":true,\"view_id\":");
            push_js(&mut m, v.as_str());
            push_lit(&mut m, ",\"declared_by\":");
            push_js(&mut m, by.as_str());
            push_lit(&mut m, "}");
        },
        _ => push_lit(&mut m, "{\"claimed\":false,\"view_id\":null,\"declared_by\":null}"),
    }
    push_lit(&mut m, "}");
    assert(m@ =~= manifest_spec(iv, fv, record@, a));
    let mut c = String::new();
    push_lit(&mut c, "{\"schema\":\"kobold-redefines-forensic-casefile-v1\",\"court\":\"KOBOLD.LAYOUT.REDEFINES.2\",\"manifest\":");
    c.append(m.as_str());
    push_lit(&mut c, ",\"truth_layers\":{\"byte_view_truth\":true,\"active_view_truth\":");
    push_bool(&mut c, active_view.is_some());
    push_lit(&mut c, REDEFINES_NEGATIVES);
    let region_count = ts.len();
    Ok(RedefinesManifest { manifest_json: m, casefile_json: c, active_view, region_count })
}

/// `k` is the first position of `m` whose key is `v`.
pub open spec fn first_key_at(m: Seq<(Seq<char>, Seq<char>)>, v: Seq<char>, k: int) -> bool {
    &&& 0 <= k < m.len()
    &&& m[k].0 == v
    &&& forall|j: int| 0 <= j < k ==> #[trigger] m[j].0 != v
}

proof fn lemma_first_map(m: Seq<(Seq<char>, Seq<char>)>, v: Seq<char>)
    ensures
        first_map(m, v) is None <==> forall|k: int| 0 <= k < m.len() ==> #[trigger] m[k].0 != v,
        first_map(m, v) matches Some(x) ==> exists|k: int| first_key_at(m, v, k) && m[k].1 == x,
    decreases m.len(),
{
    if m.len() > 0 {
        let t = m.drop_first();
        lemma_first_map(t, v);
        if m[0].0 != v {
            assert forall|k: int| 0 < k < m.len() implies m[k].0 == t[k - 1].0 by {}
            if forall|k: int| 0 <= k < t.len() ==> #[trigger] t[k].0 != v {
                assert forall|k: int| 0 <= k < m.len() implies #[trigger] m[k].0 != v by {
                    if k > 0 {
                        assert(t[k - 1].0 != v);
                    }
                }
            }
            if let Some(x) = first_map(t, v) {
                let k = choose|k: int| first_key_at(t, v, k) && t[k].1 == x;
                assert forall|j: int| 0 <= j < k + 1 implies #[trigger] m[j].0 != v by {
                    if j > 0 {
                        assert(t[j - 1].0 != v);
                    }
                }
                assert(first_key_at(m, v, k + 1) && m[k + 1].1 == x);
            }
        } else {
            assert(first_key_at(m, v, 0));
        }
    }
}

/// A view is active exactly when a discriminator is declared, its field is among the decoded
/// fields, and its mapping has the field's decoded value as a key: the view is that of the first
/// such entry. The casefile claims active-view truth exactly when a view is active.
pub proof fn lemma_active_view_only_by_discriminator(cb: Copybook, record: Seq<u8>, enc: Encoding, d: Option<DiscView>)
    ensures
        redefines_spec(cb, record, enc, d) matches Ok(v) ==> {
            let fs = decode_record_spec(cb, record, enc)->Ok_0.fields;
            &&& (v.active_view is None <==> (d is None || fget(fs, d->0.field) is None || forall|k: int|
                0 <= k < d->0.mapping.len() ==> #[trigger] d->0.mapping[k].0 != fget(fs, d->0.field)->0.value))
            &&& (v.active_view matches Some(x) ==> exists|k: int|
                first_key_at(d->0.mapping, fget(fs, d->0.field)->0.value, k) && d->0.mapping[k].1 == x)
            &&& v.casefile_json == "{\"schema\":\"kobold-redefines-forensic-casefile-v1\",\"court\":\"KOBOLD.LAYOUT.REDEFINES.2\",\"manifest\":"@
                + v.manifest_json + ",\"truth_layers\":{\"byte_view_truth\":true,\"active_view_truth\":"@ + bool_text(
                v.active_view is Some,
            ) + REDEFINES_NEGATIVES@
        },
{
    if let Ok(rv) = decode_record_spec(cb, record, enc) {
        if let Some(dd) = d {
            if let Some(f) = fget(rv.fields, dd.field) {
                lemma_first_map(dd.mapping, f.value);
            }
        }
    }
}

} // verus!
