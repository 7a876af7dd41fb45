//! Record decoding: a copybook (already `COPY`-expanded) becomes a program — laid-out items,
//! per-field attributes and category, LEVEL-88 conditions, provenance — and each record is decoded
//! field by field through the sealed courts. Fields outside the sealed subset fail closed as
//! `unsupported`, never guessed.
use crate::cobol::{
    build_field, condition_model, cp500_byte, decimal_from_binary, decimal_from_display,
    decimal_from_packed, decimal_model, decode_edited, digits_ok,
    edited_size, eval_88, item_view, items_view, items_admissible, items_admissible_exec, pic_admissible,
    pic_admissible_exec, pic_bounded, pic_bounded_exec, layout_fits, layout_fits_exec, laid_view, laids_view, lay_out, spec_build_field,
    spec_cp500, spec_decode_edited, spec_edited_size, spec_eval_88, spec_from_binary,
    spec_from_display, spec_from_packed, spec_lay_out, spec_utf8_lossy,
    utf8_lossy, Condition, ConditionModel, Decimal, DecimalModel, FieldAttr, Item, ItemView, Laid,
    LaidView, Usage, COB_TYPE_ALPHANUMERIC, COB_TYPE_NUMERIC_BINARY, COB_TYPE_NUMERIC_DISPLAY,
    COB_TYPE_NUMERIC_PACKED,
};
use crate::copybook::{
    item_of_scan, parse_88, parse_88_spec, parse_item, parse_item_spec,
    trim_end_ws, trim_start_ws, trim_ws,
};
use crate::batch_control::pow10;
use crate::copybook::{all_digits, digits_value};
use crate::text::{chars_of, hex, hex_spec, is_ws, is_ws_exec, push_char, push_range, str_eq, string_of, upper_char};
use vstd::prelude::*;

verus! {

/// The record's declared character encoding. **Never auto-detected** — the caller states it.
#[derive(Debug, Clone, Copy, PartialEq, Eq, Structural)]
pub enum Encoding {
    /// Native ASCII (the default): DISPLAY bytes are already the logical characters.
    Ascii,
    /// EBCDIC cp500: alphanumeric DISPLAY fields are decoded via the sealed cp500 table; binary and
    /// packed fields are raw storage and never text-converted.
    Cp500,
}

impl Default for Encoding {
    fn default() -> (e: Self)
        ensures
            e == Encoding::Ascii,
    {
        Encoding::Ascii
    }
}

/// The decode category a field was admitted under.
#[derive(Debug, Clone, Copy, PartialEq, Eq, Structural)]
pub enum Category {
    Numeric,
    Alphanumeric,
    Edited,
    Unsupported,
}

/// A copybook after `COPY` expansion: its source text, the spliced lines, and where each line
/// came from (`(file, 1-based line)`; `"<main>"` for the top-level source).
#[derive(Debug, Clone)]
pub struct Copybook {
    pub source: String,
    pub lines: Vec<String>,
    pub provenance: Vec<(String, usize)>,
}

/// What went wrong decoding a record against a copybook.
#[derive(Debug, Clone, PartialEq, Eq)]
pub enum ShimError {
    Copy(String),
    /// A copybook line could not be parsed into a data item.
    BadItem(String),
    /// The record/copybook produced no `01` record to lay out.
    Layout(String),
}

pub enum ShimErrorView {
    Copy(Seq<char>),
    BadItem(Seq<char>),
    Layout(Seq<char>),
}

pub open spec fn shim_error_view(e: ShimError) -> ShimErrorView {
    match e {
        ShimError::Copy(s) => ShimErrorView::Copy(s@),
        ShimError::BadItem(s) => ShimErrorView::BadItem(s@),
        ShimError::Layout(s) => ShimErrorView::Layout(s@),
    }
}

pub open spec fn shim_error_text(e: ShimErrorView) -> Seq<char> {
    match e {
        ShimErrorView::Copy(s) => "COPY expansion failed: "@ + s,
        ShimErrorView::BadItem(s) => "could not parse copybook item: "@ + s,
        ShimErrorView::Layout(s) => "record layout failed: "@ + s,
    }
}

impl ShimError {
    /// The operator-facing rendering of the error.
    pub fn to_string(&self) -> (s: String)
        ensures
            s@ == shim_error_text(shim_error_view(*self)),
    {
        match self {
            ShimError::Copy(e) => {
                let mut s = String::from_str("COPY expansion failed: ");
                s.append(e.as_str());
                s
            },
            ShimError::BadItem(e) => {
                let mut s = String::from_str("could not parse copybook item: ");
                s.append(e.as_str());
                s
            },
            ShimError::Layout(e) => {
                let mut s = String::from_str("record layout failed: ");
                s.append(e.as_str());
                s
            },
        }
    }
}

/// A decoded elementary (or group) field.
#[derive(Debug, Clone, PartialEq, Eq)]
pub struct DecodedField {
    pub name: String,
    pub level: u16,
    pub offset: usize,
    pub size: usize,
    /// `"numeric"`, `"alphanumeric"`, `"edited"`, `"group"`, or `"unsupported"`.
    pub category: &'static str,
    /// The decoded value: a canonical decimal for numerics, text for alphanumerics, or a marker.
    pub value: String,
    /// The raw field bytes as lowercase hex (the audit trail).
    pub raw_hex: String,
    /// For an edited DISPLAY field: the recovered numeric interpretation, as audit evidence.
    pub edited_numeric: Option<String>,
}

/// A decoded LEVEL-88 condition: its truth (or `None` when not evaluable) for the current record.
#[derive(Debug, Clone, PartialEq, Eq)]
pub struct DecodedCondition {
    pub name: String,
    pub parent: String,
    pub value: Option<bool>,
}

/// A fully decoded record: its fields and condition-name truths.
#[derive(Debug, Clone, PartialEq, Eq)]
pub struct DecodedRecord {
    pub fields: Vec<DecodedField>,
    pub conditions: Vec<DecodedCondition>,
}

/// Per-field provenance + declaration metadata.
#[derive(Debug, Clone)]
pub struct FieldMeta {
    pub pic: String,
    pub usage: String,
    pub source_file: String,
    pub source_line: usize,
}

/// A parsed program: laid-out items, per-field attributes/category, LEVEL-88 conditions keyed by
/// parent field, per-field metadata, and whether more than one source file was spliced.
pub struct Program {
    pub laid: Vec<Laid>,
    pub attrs: Vec<(String, FieldAttr, Category)>,
    pub conditions: Vec<(String, Condition)>,
    pub meta: Vec<(String, FieldMeta)>,
    pub used_copy: bool,
}

// ----------------------------------------------------------------------------------------------
// The program model
// ----------------------------------------------------------------------------------------------

pub struct MetaView {
    pub pic: Seq<char>,
    pub usage: Seq<char>,
    pub file: Seq<char>,
    pub line: nat,
}

pub struct ProgState {
    pub items: Seq<ItemView>,
    pub attrs: Seq<(Seq<char>, FieldAttr, Category)>,
    pub conds: Seq<(Seq<char>, ConditionModel)>,
    pub meta: Seq<(Seq<char>, MetaView)>,
    pub last_parent: Option<Seq<char>>,
}

pub struct ProgramView {
    pub laid: Seq<LaidView>,
    pub attrs: Seq<(Seq<char>, FieldAttr, Category)>,
    pub conds: Seq<(Seq<char>, ConditionModel)>,
    pub meta: Seq<(Seq<char>, MetaView)>,
    pub used_copy: bool,
}

pub open spec fn usage_label(u: Usage) -> Seq<char> {
    match u {
        Usage::Display => "DISPLAY"@,
        Usage::Comp3 => "COMP-3"@,
        Usage::Comp => "COMP"@,
        Usage::Comp5 => "COMP-5"@,
        Usage::CompX => "COMP-X"@,
        Usage::Comp6 => "COMP-6"@,
    }
}

pub open spec fn category_of_type(ft: u16) -> Category {
    if ft == COB_TYPE_NUMERIC_DISPLAY || ft == COB_TYPE_NUMERIC_PACKED || ft == COB_TYPE_NUMERIC_BINARY {
        Category::Numeric
    } else if ft == COB_TYPE_ALPHANUMERIC {
        Category::Alphanumeric
    } else {
        Category::Unsupported
    }
}

pub open spec fn zero_attr() -> FieldAttr {
    FieldAttr { field_type: 0, digits: 0, scale: 0, flags: 0 }
}

pub open spec fn prov_file(provs: Seq<(Seq<char>, nat)>, idx: int) -> Seq<char> {
    if 0 <= idx < provs.len() {
        provs[idx].0
    } else {
        seq![]
    }
}

pub open spec fn prov_line(provs: Seq<(Seq<char>, nat)>, idx: int) -> nat {
    if 0 <= idx < provs.len() {
        provs[idx].1
    } else {
        0
    }
}

/// Signed COMP-6 is not admitted (GnuCOBOL silently converts it to COMP-3): fail closed.
pub open spec fn is_signed_comp6(pic: Seq<char>, usage: Usage) -> bool {
    let t = trim_start_ws(pic);
    usage == Usage::Comp6 && t.len() > 0 && upper_char(t[0]) == 'S'
}

/// One copybook line's effect on the program under construction.
pub open spec fn program_step(st: ProgState, line: Seq<char>, idx: int, provs: Seq<(Seq<char>, nat)>) -> ProgState {
    if trim_ws(line).len() == 0 {
        st
    } else if parse_88_spec(line) is Some {
        let (cname, values) = parse_88_spec(line)->0;
        match st.last_parent {
            Some(p) => ProgState { conds: st.conds.push((p, ConditionModel { name: cname, values })), ..st },
            None => st,
        }
    } else {
        match parse_item_spec(line) {
            None => st,
            Some(m) => {
                let it = item_of_scan(m.level, m.name, m.scan);
                let st2 = match m.scan.pic {
                    None => st,
                    Some(pic) => {
                        let usage = m.scan.usage;
                        let built = if is_signed_comp6(pic, usage) || !pic_admissible(pic) {
                            None
                        } else {
                            spec_build_field(pic, usage, m.scan.sep, m.scan.lead)
                        };
                        let file = prov_file(provs, idx);
                        let ln = prov_line(provs, idx);
                        match built {
                            Some(pf) => ProgState {
                                attrs: st.attrs.push((m.name, pf.attr, category_of_type(pf.attr.field_type))),
                                meta: st.meta.push(
                                    (m.name, MetaView { pic, usage: usage_label(usage), file, line: ln }),
                                ),
                                last_parent: Some(m.name),
                                ..st
                            },
                            None => if usage == Usage::Display && spec_edited_size(pic) is Some {
                                ProgState {
                                    attrs: st.attrs.push((m.name, zero_attr(), Category::Edited)),
                                    meta: st.meta.push(
                                        (m.name, MetaView { pic, usage: "DISPLAY (edited)"@, file, line: ln }),
                                    ),
                                    last_parent: Some(m.name),
                                    ..st
                                }
                            } else {
                                ProgState {
                                    attrs: st.attrs.push((m.name, zero_attr(), Category::Unsupported)),
                                    last_parent: Some(m.name),
                                    ..st
                                }
                            },
                        }
                    },
                };
                ProgState { items: st2.items.push(it), ..st2 }
            },
        }
    }
}

pub open spec fn initial_state() -> ProgState {
    ProgState { items: seq![], attrs: seq![], conds: seq![], meta: seq![], last_parent: None }
}

/// The program state after the first `n` lines.
pub open spec fn program_fold(lines: Seq<Seq<char>>, provs: Seq<(Seq<char>, nat)>, n: nat) -> ProgState
    decreases n,
{
    if n == 0 || n > lines.len() {
        initial_state()
    } else {
        program_step(program_fold(lines, provs, (n - 1) as nat), lines[n - 1], n - 1, provs)
    }
}

/// More than one distinct source file contributed lines (a `COPY` was spliced in).
pub open spec fn distinct_files(provs: Seq<(Seq<char>, nat)>) -> bool {
    exists|i: int, j: int| 0 <= i < provs.len() && 0 <= j < provs.len() && provs[i].0 != provs[j].0
}

pub open spec fn lines_view(v: Seq<String>) -> Seq<Seq<char>> {
    v.map_values(|s: String| s@)
}

pub open spec fn provs_view(v: Seq<(String, usize)>) -> Seq<(Seq<char>, nat)> {
    v.map_values(|p: (String, usize)| (p.0@, p.1 as nat))
}

/// The program a copybook denotes, or the layout failure.
pub open spec fn program_spec(cb: Copybook) -> Result<ProgramView, ShimErrorView> {
    program_of(lines_view(cb.lines@), provs_view(cb.provenance@))
}

/// The program of expanded copybook lines and their provenance.
pub open spec fn program_of(lines: Seq<Seq<char>>, provs: Seq<(Seq<char>, nat)>) -> Result<ProgramView, ShimErrorView> {
    let st = program_fold(lines, provs, lines.len());
    if !items_admissible(st.items) {
        Err(ShimErrorView::Layout(TOO_MANY_POSITIONS@))
    } else if !layout_fits(st.items) {
        Err(ShimErrorView::Layout(RECORD_TOO_LARGE@))
    } else {
        match spec_lay_out(st.items) {
            Err(e) => Err(ShimErrorView::Layout(e)),
            Ok(laid) => Ok(
                ProgramView { laid, attrs: st.attrs, conds: st.conds, meta: st.meta, used_copy: distinct_files(provs) },
            ),
        }
    }
}

/// The layout refusal of a `P`-scaled picture too large for the PIC court's counters.
pub const TOO_MANY_POSITIONS: &'static str = "P-scaled picture declares more than 32767 positions";

/// The layout refusal of a record whose size bound does not fit in `usize`.
pub const RECORD_TOO_LARGE: &'static str = "record layout exceeds the addressable size";

pub open spec fn attrs_view(v: Seq<(String, FieldAttr, Category)>) -> Seq<(Seq<char>, FieldAttr, Category)> {
    v.map_values(|a: (String, FieldAttr, Category)| (a.0@, a.1, a.2))
}

pub open spec fn conds_view(v: Seq<(String, Condition)>) -> Seq<(Seq<char>, ConditionModel)> {
    v.map_values(|c: (String, Condition)| (c.0@, condition_model(c.1)))
}

pub open spec fn meta_view(m: FieldMeta) -> MetaView {
    MetaView { pic: m.pic@, usage: m.usage@, file: m.source_file@, line: m.source_line as nat }
}

pub open spec fn metas_view(v: Seq<(String, FieldMeta)>) -> Seq<(Seq<char>, MetaView)> {
    v.map_values(|m: (String, FieldMeta)| (m.0@, meta_view(m.1)))
}

pub open spec fn program_view(p: Program) -> ProgramView {
    ProgramView {
        laid: laids_view(p.laid@),
        attrs: attrs_view(p.attrs@),
        conds: conds_view(p.conditions@),
        meta: metas_view(p.meta@),
        used_copy: p.used_copy,
    }
}

// ----------------------------------------------------------------------------------------------
// Building the program
// ----------------------------------------------------------------------------------------------

fn usage_label_exec(u: Usage) -> (s: String)
    ensures
        s@ == usage_label(u),
{
    match u {
        Usage::Display => String::from_str("DISPLAY"),
        Usage::Comp3 => String::from_str("COMP-3"),
        Usage::Comp => String::from_str("COMP"),
        Usage::Comp5 => String::from_str("COMP-5"),
        Usage::CompX => String::from_str("COMP-X"),
        Usage::Comp6 => String::from_str("COMP-6"),
    }
}

fn category_of_type_exec(ft: u16) -> (c: Category)
    ensures
        c == category_of_type(ft),
{
    if ft == COB_TYPE_NUMERIC_DISPLAY || ft == COB_TYPE_NUMERIC_PACKED || ft == COB_TYPE_NUMERIC_BINARY {
        Category::Numeric
    } else if ft == COB_TYPE_ALPHANUMERIC {
        Category::Alphanumeric
    } else {
        Category::Unsupported
    }
}

fn signed_comp6_exec(pic: &String, usage: Usage) -> (r: bool)
    ensures
        r == is_signed_comp6(pic@, usage),
{
    if usage != Usage::Comp6 {
        return false;
    }
    let v = chars_of(pic.as_str());
    let k = crate::copybook::trim_start_len(&v);
    k < v.len() && crate::text::upper_char_exec(v[k]) == 'S'
}

fn is_blank(s: &String) -> (r: bool)
    ensures
        r == (trim_ws(s@).len() == 0),
{
    let v = chars_of(s.as_str());
    assert(v@ == s@);
    let mut i: usize = 0;
    while i < v.len()
        invariant
            i <= v@.len(),
            v@ == s@,
            forall|k: int| 0 <= k < i ==> is_ws(#[trigger] v@[k]),
        decreases v@.len() - i,
    {
        if !is_ws_exec(v[i]) {
            proof {
                crate::copybook::lemma_trim_keeps_non_ws(v@, i as int);
            }
            return false;
        }
        i += 1;
    }
    proof {
        crate::copybook::lemma_trim_all_ws(v@);
    }
    true
}

fn provenance_at(provs: &Vec<(String, usize)>, idx: usize) -> (r: (String, usize))
    ensures
        r.0@ == prov_file(provs_view(provs@), idx as int),
        r.1 as nat == prov_line(provs_view(provs@), idx as int),
{
    if idx < provs.len() {
        (provs[idx].0.clone(), provs[idx].1)
    } else {
        (String::new(), 0)
    }
}

fn files_differ(provs: &Vec<(String, usize)>) -> (r: bool)
    ensures
        r == distinct_files(provs_view(provs@)),
{
    let ghost pv = provs_view(provs@);
    if provs.len() == 0 {
        return false;
    }
    let mut i: usize = 1;
    while i < provs.len()
        invariant
            1 <= i <= provs@.len(),
            pv == provs_view(provs@),
            forall|k: int| 0 <= k < i ==> #[trigger] pv[k].0 == pv[0].0,
        decreases provs@.len() - i,
    {
        if !str_eq(provs[i].0.as_str(), provs[0].0.as_str()) {
            assert(pv[i as int].0 != pv[0].0);
            return true;
        }
        i += 1;
    }
    assert forall|a: int, b: int| 0 <= a < pv.len() && 0 <= b < pv.len() implies pv[a].0 == pv[b].0 by {
        assert(pv[a].0 == pv[0].0);
        assert(pv[b].0 == pv[0].0);
    }
    false
}

/// Build the program from an expanded copybook.
pub fn parse_program(cb: &Copybook) -> (r: Result<Program, ShimError>)
    ensures
        match r {
            Ok(p) => program_spec(*cb) == Ok::<ProgramView, ShimErrorView>(program_view(p)),
            Err(e) => program_spec(*cb) == Err::<ProgramView, ShimErrorView>(shim_error_view(e)),
        },
{
    let ghost lines = lines_view(cb.lines@);
    let ghost provs = provs_view(cb.provenance@);
    let mut items: Vec<Item> = Vec::new();
    let mut attrs: Vec<(String, FieldAttr, Category)> = Vec::new();
    let mut conditions: Vec<(String, Condition)> = Vec::new();
    let mut meta: Vec<(String, FieldMeta)> = Vec::new();
    let mut last_parent: Option<String> = None;
    let mut idx: usize = 0;
    assert(items_view(items@) =~= seq![]);
    assert(attrs_view(attrs@) =~= seq![]);
    assert(conds_view(conditions@) =~= seq![]);
    assert(metas_view(meta@) =~= seq![]);
    while idx < cb.lines.len()
        invariant
            idx <= cb.lines@.len(),
            lines == lines_view(cb.lines@),
            provs == provs_view(cb.provenance@),
            program_fold(lines, provs, idx as nat) == (ProgState {
                items: items_view(items@),
                attrs: attrs_view(attrs@),
                conds: conds_view(conditions@),
                meta: metas_view(meta@),
                last_parent: match last_parent {
                    Some(p) => Some(p@),
                    None => None,
                },
            }),
        decreases cb.lines@.len() - idx,
    {
        let line = &cb.lines[idx];
        assert(lines[idx as int] == line@);
        let ghost before = program_fold(lines, provs, idx as nat);
        assert(program_fold(lines, provs, (idx + 1) as nat) == program_step(before, line@, idx as int, provs));
        if is_blank(line) {
        } else if let Some((cname, values)) = parse_88(line.as_str()) {
            match &last_parent {
                Some(p) => {
                    let ghost cv = conds_view(conditions@);
                    let c = Condition { name: cname, values };
                    conditions.push((p.clone(), c));
                    assert(conds_view(conditions@) =~= cv.push((p@, condition_model(c))));
                },
                None => {},
            }
        } else if let Some((item, usage, sep, lead)) = parse_item(line.as_str()) {
            let ghost iv = items_view(items@);
            let ghost av = attrs_view(attrs@);
            let ghost mv = metas_view(meta@);
            match &item.pic {
                None => {},
                Some((pic, _, _, _)) => {
                    let signed = signed_comp6_exec(pic, usage);
                    let built = if signed || !pic_admissible_exec(pic.as_str()) {
                        None
                    } else {
                        build_field(pic.as_str(), usage, sep, lead)
                    };
                    let (file, ln) = provenance_at(&cb.provenance, idx);
                    match built {
                        Some(pf) => {
                            let cat = category_of_type_exec(pf.attr.field_type);
                            attrs.push((item.name.clone(), pf.attr, cat));
                            let m = FieldMeta { pic: pic.clone(), usage: usage_label_exec(usage), source_file: file, source_line: ln };
                            meta.push((item.name.clone(), m));
                            assert(attrs_view(attrs@) =~= av.push((item.name@, pf.attr, cat)));
                            assert(metas_view(meta@) =~= mv.push((item.name@, meta_view(m))));
                        },
                        None => {
                            let edited = if usage == Usage::Display {
                                edited_size(pic.as_str()).is_some()
                            } else {
                                false
                            };
                            let z = FieldAttr { field_type: 0, digits: 0, scale: 0, flags: 0 };
                            if edited {
                                attrs.push((item.name.clone(), z, Category::Edited));
                                let m = FieldMeta {
                                    pic: pic.clone(),
                                    usage: String::from_str("DISPLAY (edited)"),
                                    source_file: file,
                                    source_line: ln,
                                };
                                meta.push((item.name.clone(), m));
                                assert(attrs_view(attrs@) =~= av.push((item.name@, z, Category::Edited)));
                                assert(metas_view(meta@) =~= mv.push((item.name@, meta_view(m))));
                            } else {
                                attrs.push((item.name.clone(), z, Category::Unsupported));
                                assert(attrs_view(attrs@) =~= av.push((item.name@, z, Category::Unsupported)));
                            }
                        },
                    }
                    last_parent = Some(item.name.clone());
                },
            }
            items.push(item);
            assert(items_view(items@) =~= iv.push(item_view(item)));
        }
        idx += 1;
    }
    assert(lines.len() == cb.lines@.len());
    let used_copy = files_differ(&cb.provenance);
    if !items_admissible_exec(&items) {
        return Err(ShimError::Layout(String::from_str(TOO_MANY_POSITIONS)));
    }
    if !layout_fits_exec(&items) {
        return Err(ShimError::Layout(String::from_str(RECORD_TOO_LARGE)));
    }
    match lay_out(items) {
        Err(e) => Err(ShimError::Layout(e)),
        Ok(laid) => Ok(Program { laid, attrs, conditions, meta, used_copy }),
    }
}


// ----------------------------------------------------------------------------------------------
// Canonical decimal text
// ----------------------------------------------------------------------------------------------

/// The characters of a digit sequence (`0` + each digit; a dirty nibble `10..=15` shows as `:` to `?`).
pub open spec fn digit_text(ds: Seq<u8>) -> Seq<char> {
    ds.map_values(|x: u8| ((x + 0x30) as u32) as char)
}

/// `s` left-padded with `'0'` to at least `n` characters.
pub open spec fn zero_pad(s: Seq<char>, n: nat) -> Seq<char> {
    if s.len() >= n {
        s
    } else {
        Seq::new((n - s.len()) as nat, |i: int| '0') + s
    }
}

/// `s` with its leading `'0'`s removed.
pub open spec fn strip_zeros(s: Seq<char>) -> Seq<char>
    decreases s.len(),
{
    if s.len() > 0 && s[0] == '0' {
        strip_zeros(s.drop_first())
    } else {
        s
    }
}

pub open spec fn dec_scale(d: DecimalModel) -> nat {
    if d.scale < 0 {
        0
    } else {
        d.scale as nat
    }
}

/// The canonical signed decimal text of a decoded decimal (e.g. `-12.34`, `0.05`, `42`): an
/// optional `-`, the integer digits without leading zeros (`0` when none remain), and, when the
/// scale is positive, `.` and exactly `scale` fraction digits.
pub open spec fn fmt_decimal(d: DecimalModel) -> Seq<char> {
    let scale = dec_scale(d);
    let ds = zero_pad(digit_text(d.digits), scale + 1);
    let split = ds.len() - scale;
    let ip = strip_zeros(ds.take(split));
    (if d.negative { seq!['-'] } else { Seq::<char>::empty() }) + (if ip.len() == 0 {
        seq!['0']
    } else {
        ip
    }) + (if scale > 0 { seq!['.'] + ds.skip(split) } else { Seq::<char>::empty() })
}

fn padded_digits(d: &Decimal, scale: usize) -> (ds: Vec<char>)
    requires
        digits_ok(decimal_model(*d)),
        scale < 0x10000,
    ensures
        ds@ == zero_pad(digit_text(d.digits@), (scale + 1) as nat),
{
    let n = d.digits.len();
    let mut ds: Vec<char> = Vec::new();
    if n <= scale {
        let need = scale + 1 - n;
        let mut j: usize = 0;
        while j < need
            invariant
                j <= need,
                ds@ == Seq::new(j as nat, |i: int| '0'),
            decreases need - j,
        {
            ds.push('0');
            assert(ds@ =~= Seq::new((j + 1) as nat, |i: int| '0'));
            j += 1;
        }
    }
    let ghost pad = ds@;
    let mut i: usize = 0;
    while i < n
        invariant
            i <= n == d.digits@.len(),
            digits_ok(decimal_model(*d)),
            ds@ == pad + digit_text(d.digits@.take(i as int)),
        decreases n - i,
    {
        let x = d.digits[i];
        assert(decimal_model(*d).digits[i as int] <= 15);
        ds.push((x + 0x30) as char);
        assert(digit_text(d.digits@.take(i + 1)) =~= digit_text(d.digits@.take(i as int)).push(
            ((x + 0x30) as u32) as char));
        i += 1;
    }
    assert(d.digits@.take(n as int) =~= d.digits@);
    assert(ds@ =~= zero_pad(digit_text(d.digits@), (scale + 1) as nat));
    ds
}

fn first_significant(ds: &Vec<char>, split: usize) -> (k: usize)
    requires
        split <= ds@.len(),
    ensures
        k <= split,
        ds@.subrange(k as int, split as int) == strip_zeros(ds@.take(split as int)),
{
    let mut k: usize = 0;
    assert(ds@.take(split as int).skip(0) =~= ds@.take(split as int));
    while k < split && ds[k] == '0'
        invariant
            k <= split <= ds@.len(),
            strip_zeros(ds@.take(split as int).skip(k as int)) == strip_zeros(ds@.take(split as int)),
        decreases split - k,
    {
        assert(ds@.take(split as int).skip(k as int).drop_first() =~= ds@.take(split as int).skip(k + 1));
        k += 1;
    }
    assert(ds@.take(split as int).skip(k as int) =~= ds@.subrange(k as int, split as int));
    k
}

/// Render a decoded decimal as its canonical signed decimal text.
pub fn format_decimal(d: &Decimal) -> (s: String)
    requires
        digits_ok(decimal_model(*d)),
    ensures
        s@ == fmt_decimal(decimal_model(*d)),
{
    let ghost dm = decimal_model(*d);
    let scale: usize = if d.scale < 0 { 0 } else { d.scale as usize };
    assert(scale == dec_scale(dm));
    let ds = padded_digits(d, scale);
    let split = ds.len() - scale;
    let mut s = String::new();
    if d.negative {
        push_char(&mut s, '-');
    }
    let k = first_significant(&ds, split);
    if k == split {
        push_char(&mut s, '0');
    } else {
        push_range(&mut s, &ds, k, split);
    }
    if scale > 0 {
        push_char(&mut s, '.');
        push_range(&mut s, &ds, split, ds.len());
        assert(ds@.subrange(split as int, ds@.len() as int) =~= ds@.skip(split as int));
    }
    assert(s@ =~= fmt_decimal(dm));
    s
}

// ----------------------------------------------------------------------------------------------
// Field decoding
// ----------------------------------------------------------------------------------------------

/// The attributes and category a field name was last declared with.
pub open spec fn lookup_attr(attrs: Seq<(Seq<char>, FieldAttr, Category)>, name: Seq<char>) -> Option<
    (FieldAttr, Category),
>
    decreases attrs.len(),
{
    if attrs.len() == 0 {
        None
    } else if attrs.last().0 == name {
        Some((attrs.last().1, attrs.last().2))
    } else {
        lookup_attr(attrs.drop_last(), name)
    }
}

/// The metadata a field name was last declared with.
pub open spec fn lookup_meta(meta: Seq<(Seq<char>, MetaView)>, name: Seq<char>) -> Option<MetaView>
    decreases meta.len(),
{
    if meta.len() == 0 {
        None
    } else if meta.last().0 == name {
        Some(meta.last().1)
    } else {
        lookup_meta(meta.drop_last(), name)
    }
}

/// The picture of a field (`""` when it has no metadata).
pub open spec fn lookup_pic(meta: Seq<(Seq<char>, MetaView)>, name: Seq<char>) -> Seq<char> {
    match lookup_meta(meta, name) {
        Some(m) => m.pic,
        None => seq![],
    }
}

/// The bytes of a field, when the record is long enough to hold it.
pub open spec fn field_slice(record: Seq<u8>, off: usize, size: usize) -> Option<Seq<u8>> {
    if off + size <= record.len() {
        Some(record.subrange(off as int, off + size))
    } else {
        None
    }
}

/// The logical bytes of a field: alphanumeric bytes under cp500 go through the cp500 table;
/// everything else (binary, packed, ASCII) passes through unchanged.
pub open spec fn logical_bytes(cat: Category, enc: Encoding, raw: Seq<u8>) -> Seq<u8> {
    if enc == Encoding::Cp500 && cat == Category::Alphanumeric {
        raw.map_values(|b: u8| spec_cp500(b))
    } else {
        raw
    }
}

/// The court a numeric field is decoded by: packed, binary or ASCII zoned by the field's type tag.
pub open spec fn numeric_model(attr: FieldAttr, b: Seq<u8>) -> DecimalModel {
    if attr.field_type == COB_TYPE_NUMERIC_PACKED {
        spec_from_packed(b, attr)
    } else if attr.field_type == COB_TYPE_NUMERIC_BINARY {
        spec_from_binary(b, attr)
    } else {
        spec_from_display(b, attr)
    }
}

pub struct FieldView {
    pub name: Seq<char>,
    pub level: u16,
    pub offset: usize,
    pub size: usize,
    pub category: Seq<char>,
    pub value: Seq<char>,
    pub raw_hex: Seq<char>,
    pub edited_numeric: Option<Seq<char>>,
}

pub open spec fn opt_view(o: Option<String>) -> Option<Seq<char>> {
    match o {
        Some(s) => Some(s@),
        None => None,
    }
}

pub open spec fn field_view(f: DecodedField) -> FieldView {
    FieldView {
        name: f.name@,
        level: f.level,
        offset: f.offset,
        size: f.size,
        category: f.category@,
        value: f.value@,
        raw_hex: f.raw_hex@,
        edited_numeric: opt_view(f.edited_numeric),
    }
}

pub open spec fn fields_view(v: Seq<DecodedField>) -> Seq<FieldView> {
    v.map_values(|f: DecodedField| field_view(f))
}

pub open spec fn mk_view(l: LaidView, cat: Seq<char>, value: Seq<char>, raw: Seq<char>, en: Option<Seq<char>>) -> FieldView {
    FieldView {
        name: l.name,
        level: l.level,
        offset: l.offset,
        size: l.size,
        category: cat,
        value,
        raw_hex: raw,
        edited_numeric: en,
    }
}

/// How one laid-out item decodes: groups carry `(group)`; a field the record cannot hold fails
/// closed; numeric fields carry their canonical decimal, alphanumeric their (cp500-translated)
/// text without trailing whitespace, edited fields their presentation text plus the recovered
/// numeric; anything outside the sealed subset is `unsupported` with a marker.
pub open spec fn field_spec(p: ProgramView, l: LaidView, record: Seq<u8>, enc: Encoding) -> FieldView {
    match lookup_attr(p.attrs, l.name) {
        None => mk_view(l, "group"@, "(group)"@, seq![], None),
        Some((attr, cat)) => match field_slice(record, l.offset, l.size) {
            None => mk_view(l, "unsupported"@, "(record too short for field)"@, seq![], None),
            Some(b) => match cat {
                Category::Unsupported => mk_view(l, "unsupported"@, "(unsupported PIC/usage)"@, hex_spec(b), None),
                Category::Numeric => if enc == Encoding::Cp500 && attr.field_type == COB_TYPE_NUMERIC_DISPLAY {
                    mk_view(l, "unsupported"@, "(numeric DISPLAY under EBCDIC: deferred)"@, hex_spec(b), None)
                } else {
                    mk_view(l, "numeric"@, fmt_decimal(numeric_model(attr, b)), hex_spec(b), None)
                },
                Category::Edited => if enc == Encoding::Cp500 {
                    mk_view(l, "unsupported"@, "(edited picture under EBCDIC: deferred)"@, hex_spec(b), None)
                } else {
                    match (if pic_bounded(lookup_pic(p.meta, l.name)) {
                        spec_decode_edited(lookup_pic(p.meta, l.name), b)
                    } else {
                        None
                    }) {
                        Some((t, n)) => mk_view(l, "edited"@, trim_end_ws(t), hex_spec(b), match n {
                            Some(d) => Some(fmt_decimal(d)),
                            None => None,
                        }),
                        None => mk_view(l, "unsupported"@, "(edited decode failed)"@, hex_spec(b), None),
                    }
                },
                Category::Alphanumeric => mk_view(
                    l,
                    "alphanumeric"@,
                    trim_end_ws(spec_utf8_lossy(logical_bytes(cat, enc, b))),
                    hex_spec(b),
                    None,
                ),
            },
        },
    }
}

pub open spec fn fields_spec(p: ProgramView, record: Seq<u8>, enc: Encoding) -> Seq<FieldView> {
    p.laid.map_values(|l: LaidView| field_spec(p, l, record, enc))
}

pub fn find_attr(attrs: &Vec<(String, FieldAttr, Category)>, name: &String) -> (r: Option<(FieldAttr, Category)>)
    ensures
        r == lookup_attr(attrs_view(attrs@), name@),
{
    let ghost av = attrs_view(attrs@);
    let mut i = attrs.len();
    assert(av.take(i as int) =~= av);
    while i > 0
        invariant
            i <= attrs@.len(),
            av == attrs_view(attrs@),
            lookup_attr(av.take(i as int), name@) == lookup_attr(av, name@),
        decreases i,
    {
        assert(av.take(i as int).drop_last() =~= av.take(i - 1));
        if str_eq(attrs[i - 1].0.as_str(), name.as_str()) {
            return Some((attrs[i - 1].1, attrs[i - 1].2));
        }
        i -= 1;
    }
    None
}

fn find_pic(meta: &Vec<(String, FieldMeta)>, name: &String) -> (r: String)
    ensures
        r@ == lookup_pic(metas_view(meta@), name@),
{
    let ghost mv = metas_view(meta@);
    let mut i = meta.len();
    assert(mv.take(i as int) =~= mv);
    while i > 0
        invariant
            i <= meta@.len(),
            mv == metas_view(meta@),
            lookup_meta(mv.take(i as int), name@) == lookup_meta(mv, name@),
        decreases i,
    {
        assert(mv.take(i as int).drop_last() =~= mv.take(i - 1));
        if str_eq(meta[i - 1].0.as_str(), name.as_str()) {
            return meta[i - 1].1.pic.clone();
        }
        i -= 1;
    }
    String::new()
}

pub fn slice_of(record: &[u8], off: usize, size: usize) -> (r: Option<&[u8]>)
    ensures
        match r {
            Some(b) => field_slice(record@, off, size) == Some(b@),
            None => field_slice(record@, off, size) is None,
        },
{
    if off <= record.len() && size <= record.len() - off {
        Some(vstd::slice::slice_subrange(record, off, off + size))
    } else {
        None
    }
}

fn logical_of(cat: Category, enc: Encoding, raw: &[u8]) -> (r: Vec<u8>)
    ensures
        r@ == logical_bytes(cat, enc, raw@),
{
    let mut out: Vec<u8> = Vec::new();
    let tr = enc == Encoding::Cp500 && cat == Category::Alphanumeric;
    let mut i: usize = 0;
    while i < raw.len()
        invariant
            i <= raw@.len(),
            tr == (enc == Encoding::Cp500 && cat == Category::Alphanumeric),
            out@ == logical_bytes(cat, enc, raw@.take(i as int)),
        decreases raw@.len() - i,
    {
        let b = raw[i];
        if tr {
            out.push(cp500_byte(b));
        } else {
            out.push(b);
        }
        assert(logical_bytes(cat, enc, raw@.take(i + 1)) =~= logical_bytes(cat, enc, raw@.take(i as int)).push(
            out@.last()));
        i += 1;
    }
    assert(raw@.take(raw@.len() as int) =~= raw@);
    out
}

fn trimmed_end(s: &String) -> (r: String)
    ensures
        r@ == trim_end_ws(s@),
{
    let v = chars_of(s.as_str());
    let e = crate::copybook::trim_end_ws_len(&v, v.len());
    assert(v@.take(v@.len() as int) =~= v@);
    let mut out = String::new();
    push_range(&mut out, &v, 0, e);
    assert(v@.subrange(0, e as int) =~= v@.take(e as int));
    assert(out@ =~= trim_end_ws(s@));
    out
}

fn decode_numeric(attr: &FieldAttr, b: &[u8]) -> (s: String)
    ensures
        s@ == fmt_decimal(numeric_model(*attr, b@)),
{
    let d = if attr.field_type == COB_TYPE_NUMERIC_PACKED {
        decimal_from_packed(b, attr)
    } else if attr.field_type == COB_TYPE_NUMERIC_BINARY {
        decimal_from_binary(b, attr)
    } else {
        decimal_from_display(b, attr)
    };
    format_decimal(&d)
}

fn mk_field(l: &Laid, category: &'static str, value: String, raw_hex: String, edited_numeric: Option<String>) -> (f: DecodedField)
    ensures
        field_view(f) == mk_view(laid_view(*l), category@, value@, raw_hex@, opt_view(edited_numeric)),
{
    DecodedField { name: l.name.clone(), level: l.level, offset: l.offset, size: l.size, category, value, raw_hex, edited_numeric }
}

/// Decode one laid-out item of `record`.
pub fn decode_field(prog: &Program, l: &Laid, record: &[u8], enc: Encoding) -> (f: DecodedField)
    ensures
        field_view(f) == field_spec(program_view(*prog), laid_view(*l), record@, enc),
{
    match find_attr(&prog.attrs, &l.name) {
        None => mk_field(l, "group", String::from_str("(group)"), String::new(), None),
        Some((attr, cat)) => match slice_of(record, l.offset, l.size) {
            None => mk_field(l, "unsupported", String::from_str("(record too short for field)"), String::new(), None),
            Some(b) => match cat {
                Category::Unsupported => mk_field(l, "unsupported", String::from_str("(unsupported PIC/usage)"), hex(b), None),
                Category::Numeric => if enc == Encoding::Cp500 && attr.field_type == COB_TYPE_NUMERIC_DISPLAY {
                    mk_field(l, "unsupported", String::from_str("(numeric DISPLAY under EBCDIC: deferred)"), hex(b), None)
                } else {
                    mk_field(l, "numeric", decode_numeric(&attr, b), hex(b), None)
                },
                Category::Edited => if enc == Encoding::Cp500 {
                    mk_field(l, "unsupported", String::from_str("(edited picture under EBCDIC: deferred)"), hex(b), None)
                } else {
                    let pic = find_pic(&prog.meta, &l.name);
                    let decoded = if pic_bounded_exec(pic.as_str()) {
                        decode_edited(pic.as_str(), b)
                    } else {
                        None
                    };
                    match decoded {
                        Some((t, n)) => {
                            let num = match &n {
                                Some(d) => Some(format_decimal(d)),
                                None => None,
                            };
                            mk_field(l, "edited", trimmed_end(&t), hex(b), num)
                        },
                        None => mk_field(l, "unsupported", String::from_str("(edited decode failed)"), hex(b), None),
                    }
                },
                Category::Alphanumeric => {
                    let logical = logical_of(cat, enc, b);
                    let text = utf8_lossy(logical.as_slice());
                    mk_field(l, "alphanumeric", trimmed_end(&text), hex(b), None)
                },
            },
        },
    }
}

/// Decode every laid-out item of `record`, in layout order.
pub fn decode_fields(prog: &Program, record: &[u8], enc: Encoding) -> (r: Vec<DecodedField>)
    ensures
        fields_view(r@) == fields_spec(program_view(*prog), record@, enc),
{
    let ghost pv = program_view(*prog);
    let mut out: Vec<DecodedField> = Vec::new();
    let mut i: usize = 0;
    while i < prog.laid.len()
        invariant
            i <= prog.laid@.len(),
            pv == program_view(*prog),
            fields_view(out@) == fields_spec(pv, record@, enc).take(i as int),
        decreases prog.laid@.len() - i,
    {
        let f = decode_field(prog, &prog.laid[i], record, enc);
        let ghost before = fields_view(out@);
        out.push(f);
        assert(fields_view(out@) =~= before.push(field_view(f)));
        assert(fields_spec(pv, record@, enc).take(i + 1) =~= fields_spec(pv, record@, enc).take(i as int).push(
            field_spec(pv, laid_view(prog.laid@[i as int]), record@, enc)));
        i += 1;
    }
    assert(fields_spec(pv, record@, enc).take(i as int) =~= fields_spec(pv, record@, enc));
    out
}


// ----------------------------------------------------------------------------------------------
// LEVEL-88 conditions
// ----------------------------------------------------------------------------------------------

/// The first laid-out item with this name.
pub open spec fn first_laid(laid: Seq<LaidView>, name: Seq<char>) -> Option<LaidView>
    decreases laid.len(),
{
    if laid.len() == 0 {
        None
    } else if laid[0].name == name {
        Some(laid[0])
    } else {
        first_laid(laid.drop_first(), name)
    }
}

/// A condition's truth for a record: its parent's bytes (cp500-translated when the parent is
/// alphanumeric under cp500, since the literals are ASCII) through the condition court; `None`
/// when the parent is not laid out, has no attributes, does not fit in the record, or is an empty
/// packed field (which holds no value to compare).
pub open spec fn cond_value_spec(p: ProgramView, parent: Seq<char>, cond: ConditionModel, record: Seq<u8>, enc: Encoding) -> Option<bool> {
    match first_laid(p.laid, parent) {
        None => None,
        Some(l) => match lookup_attr(p.attrs, parent) {
            None => None,
            Some((attr, cat)) => match field_slice(record, l.offset, l.size) {
                None => None,
                Some(b) => if attr.field_type == COB_TYPE_NUMERIC_PACKED && b.len() == 0 {
                    None
                } else {
                    spec_eval_88(attr, logical_bytes(cat, enc, b), cond)
                },
            },
        },
    }
}

pub struct CondView {
    pub name: Seq<char>,
    pub parent: Seq<char>,
    pub value: Option<bool>,
}

pub open spec fn cond_view(c: DecodedCondition) -> CondView {
    CondView { name: c.name@, parent: c.parent@, value: c.value }
}

pub open spec fn cond_views(v: Seq<DecodedCondition>) -> Seq<CondView> {
    v.map_values(|c: DecodedCondition| cond_view(c))
}

pub open spec fn conds_spec(p: ProgramView, record: Seq<u8>, enc: Encoding) -> Seq<CondView> {
    p.conds.map_values(
        |c: (Seq<char>, ConditionModel)|
            CondView { name: c.1.name, parent: c.0, value: cond_value_spec(p, c.0, c.1, record, enc) },
    )
}

pub fn find_laid(laid: &Vec<Laid>, name: &String) -> (r: Option<usize>)
    ensures
        match r {
            Some(i) => i < laid@.len() && first_laid(laids_view(laid@), name@) == Some(laid_view(laid@[i as int])),
            None => first_laid(laids_view(laid@), name@) is None,
        },
{
    let ghost lv = laids_view(laid@);
    let mut i: usize = 0;
    assert(lv.skip(0) =~= lv);
    while i < laid.len()
        invariant
            i <= laid@.len(),
            lv == laids_view(laid@),
            first_laid(lv.skip(i as int), name@) == first_laid(lv, name@),
        decreases laid@.len() - i,
    {
        assert(lv.skip(i as int).drop_first() =~= lv.skip(i + 1));
        assert(lv.skip(i as int)[0] == lv[i as int]);
        if str_eq(laid[i].name.as_str(), name.as_str()) {
            return Some(i);
        }
        i += 1;
    }
    assert(lv.skip(i as int).len() == 0);
    None
}

fn eval_condition(prog: &Program, parent: &String, cond: &Condition, record: &[u8], enc: Encoding) -> (r: Option<bool>)
    ensures
        r == cond_value_spec(program_view(*prog), parent@, condition_model(*cond), record@, enc),
{
    match find_laid(&prog.laid, parent) {
        None => None,
        Some(i) => match find_attr(&prog.attrs, parent) {
            None => None,
            Some((attr, cat)) => match slice_of(record, prog.laid[i].offset, prog.laid[i].size) {
                None => None,
                Some(b) => if attr.field_type == COB_TYPE_NUMERIC_PACKED && b.len() == 0 {
                    None
                } else {
                    let logical = logical_of(cat, enc, b);
                    eval_88(&attr, logical.as_slice(), cond)
                },
            },
        },
    }
}

/// Evaluate every LEVEL-88 condition of the program against `record`, in declaration order.
pub fn eval_conditions(prog: &Program, record: &[u8], enc: Encoding) -> (r: Vec<DecodedCondition>)
    ensures
        cond_views(r@) == conds_spec(program_view(*prog), record@, enc),
{
    let ghost pv = program_view(*prog);
    let mut out: Vec<DecodedCondition> = Vec::new();
    let mut i: usize = 0;
    while i < prog.conditions.len()
        invariant
            i <= prog.conditions@.len(),
            pv == program_view(*prog),
            cond_views(out@) == conds_spec(pv, record@, enc).take(i as int),
        decreases prog.conditions@.len() - i,
    {
        let (parent, cond) = (&prog.conditions[i].0, &prog.conditions[i].1);
        let value = eval_condition(prog, parent, cond, record, enc);
        let c = DecodedCondition { name: cond.name.clone(), parent: parent.clone(), value };
        let ghost before = cond_views(out@);
        out.push(c);
        assert(cond_views(out@) =~= before.push(cond_view(c)));
        assert(conds_spec(pv, record@, enc).take(i + 1) =~= conds_spec(pv, record@, enc).take(i as int).push(
            cond_view(c)));
        i += 1;
    }
    assert(conds_spec(pv, record@, enc).take(i as int) =~= conds_spec(pv, record@, enc));
    out
}

// ----------------------------------------------------------------------------------------------
// Records
// ----------------------------------------------------------------------------------------------

pub struct RecordView {
    pub fields: Seq<FieldView>,
    pub conds: Seq<CondView>,
}

pub open spec fn record_view(r: DecodedRecord) -> RecordView {
    RecordView { fields: fields_view(r.fields@), conds: cond_views(r.conditions@) }
}

pub open spec fn record_spec(p: ProgramView, record: Seq<u8>, enc: Encoding) -> RecordView {
    RecordView { fields: fields_spec(p, record, enc), conds: conds_spec(p, record, enc) }
}

/// Number of fields whose category is `unsupported`.
pub open spec fn count_unsupported(fs: Seq<FieldView>) -> nat
    decreases fs.len(),
{
    if fs.len() == 0 {
        0
    } else {
        count_unsupported(fs.drop_last()) + if fs.last().category == "unsupported"@ {
            1nat
        } else {
            0nat
        }
    }
}

impl DecodedRecord {
    /// Count of fields outside the sealed subset (the reconciliation signal).
    pub fn unsupported(&self) -> (n: usize)
        ensures
            n == count_unsupported(fields_view(self.fields@)),
    {
        let ghost fv = fields_view(self.fields@);
        let mut n: usize = 0;
        let mut i: usize = 0;
        while i < self.fields.len()
            invariant
                i <= self.fields@.len(),
                fv == fields_view(self.fields@),
                n == count_unsupported(fv.take(i as int)),
                n <= i,
            decreases self.fields@.len() - i,
        {
            assert(fv.take(i + 1).drop_last() =~= fv.take(i as int));
            if str_eq(self.fields[i].category, "unsupported") {
                n += 1;
            }
            i += 1;
        }
        assert(fv.take(i as int) =~= fv);
        n
    }
}

/// The decoded fields of a record under ASCII, or the copybook's layout failure.
pub open spec fn decode_spec(cb: Copybook, record: Seq<u8>) -> Result<Seq<FieldView>, ShimErrorView> {
    match program_spec(cb) {
        Ok(p) => Ok(fields_spec(p, record, Encoding::Ascii)),
        Err(e) => Err(e),
    }
}

/// The decoded record (fields and conditions) under `enc`, or the copybook's layout failure.
pub open spec fn decode_record_spec(cb: Copybook, record: Seq<u8>, enc: Encoding) -> Result<RecordView, ShimErrorView> {
    match program_spec(cb) {
        Ok(p) => Ok(record_spec(p, record, enc)),
        Err(e) => Err(e),
    }
}

/// Decode `record` against an expanded copybook. Returns one field per laid-out item (groups
/// included), in layout order.
pub fn decode(cb: &Copybook, record: &[u8]) -> (r: Result<Vec<DecodedField>, ShimError>)
    ensures
        match r {
            Ok(fs) => decode_spec(*cb, record@) == Ok::<Seq<FieldView>, ShimErrorView>(fields_view(fs@)),
            Err(e) => decode_spec(*cb, record@) == Err::<Seq<FieldView>, ShimErrorView>(shim_error_view(e)),
        },
{
    let prog = parse_program(cb)?;
    Ok(decode_fields(&prog, record, Encoding::Ascii))
}

/// Decode a record under an explicit encoding into its fields and its LEVEL-88 condition truths.
pub fn decode_record_encoded(cb: &Copybook, record: &[u8], encoding: Encoding) -> (r: Result<DecodedRecord, ShimError>)
    ensures
        match r {
            Ok(d) => decode_record_spec(*cb, record@, encoding) == Ok::<RecordView, ShimErrorView>(record_view(d)),
            Err(e) => decode_record_spec(*cb, record@, encoding) == Err::<RecordView, ShimErrorView>(shim_error_view(e)),
        },
{
    let prog = parse_program(cb)?;
    Ok(DecodedRecord { fields: decode_fields(&prog, record, encoding), conditions: eval_conditions(&prog, record, encoding) })
}

/// Decode a record into its fields and condition truths, as native ASCII.
pub fn decode_record(cb: &Copybook, record: &[u8]) -> (r: Result<DecodedRecord, ShimError>)
    ensures
        match r {
            Ok(d) => decode_record_spec(*cb, record@, Encoding::Ascii) == Ok::<RecordView, ShimErrorView>(record_view(d)),
            Err(e) => decode_record_spec(*cb, record@, Encoding::Ascii) == Err::<RecordView, ShimErrorView>(shim_error_view(e)),
        },
{
    decode_record_encoded(cb, record, Encoding::Ascii)
}

/// `data` cut into consecutive chunks of `n` bytes; the last chunk may be shorter.
pub open spec fn chunks_spec(data: Seq<u8>, n: nat) -> Seq<Seq<u8>>
    recommends
        n > 0,
    decreases data.len(),
{
    if n == 0 || data.len() == 0 {
        seq![]
    } else if data.len() <= n {
        seq![data]
    } else {
        seq![data.take(n as int)] + chunks_spec(data.skip(n as int), n)
    }
}

pub open spec fn records_view(v: Seq<DecodedRecord>) -> Seq<RecordView> {
    v.map_values(|r: DecodedRecord| record_view(r))
}

/// Decode a buffer of fixed-length records: one decoded record per `record_len`-byte chunk (a
/// trailing partial chunk is decoded as-is; its short fields fail closed).
pub fn decode_all(cb: &Copybook, data: &[u8], record_len: usize) -> (r: Result<Vec<DecodedRecord>, ShimError>)
    ensures
        record_len == 0 ==> (r matches Err(ShimError::Layout(m)) && m@ == "record_len must be > 0"@),
        record_len > 0 && data@.len() == 0 ==> (r matches Ok(v) && v@.len() == 0),
        record_len > 0 && data@.len() > 0 ==> match program_spec(*cb) {
            Err(e) => (r matches Err(x) && shim_error_view(x) == e),
            Ok(p) => (r matches Ok(v) && records_view(v@) == chunks_spec(data@, record_len as nat).map_values(
                |c: Seq<u8>| record_spec(p, c, Encoding::Ascii),
            )),
        },
{
    if record_len == 0 {
        return Err(ShimError::Layout(String::from_str("record_len must be > 0")));
    }
    let mut out: Vec<DecodedRecord> = Vec::new();
    if data.len() == 0 {
        return Ok(out);
    }
    let prog = parse_program(cb)?;
    let ghost pv = program_view(prog);
    let ghost n = record_len as nat;
    let mut off: usize = 0;
    assert(data@.skip(0) =~= data@);
    while off < data.len()
        invariant
            off <= data@.len(),
            record_len > 0,
            n == record_len as nat,
            pv == program_view(prog),
            records_view(out@) + chunks_spec(data@.skip(off as int), n).map_values(
                |c: Seq<u8>| record_spec(pv, c, Encoding::Ascii),
            ) == chunks_spec(data@, n).map_values(|c: Seq<u8>| record_spec(pv, c, Encoding::Ascii)),
        decreases data@.len() - off,
    {
        let ghost rest = data@.skip(off as int);
        let end = if data.len() - off <= record_len { data.len() } else { off + record_len };
        let chunk = vstd::slice::slice_subrange(data, off, end);
        let rec = DecodedRecord {
            fields: decode_fields(&prog, chunk, Encoding::Ascii),
            conditions: eval_conditions(&prog, chunk, Encoding::Ascii),
        };
        let ghost before = records_view(out@);
        out.push(rec);
        assert(records_view(out@) =~= before.push(record_view(rec)));
        proof {
            if rest.len() <= n {
                assert(chunk@ =~= rest);
                assert(data@.skip(end as int).len() == 0);
                assert(chunks_spec(data@.skip(end as int), n) =~= seq![]);
            } else {
                assert(chunk@ =~= rest.take(n as int));
                assert(rest.skip(n as int) =~= data@.skip(end as int));
            }
            let f = |c: Seq<u8>| record_spec(pv, c, Encoding::Ascii);
            assert(chunks_spec(rest, n).map_values(f) =~= seq![record_view(rec)] + chunks_spec(data@.skip(end as int), n).map_values(f));
            assert(records_view(out@) + chunks_spec(data@.skip(end as int), n).map_values(f) =~= before + chunks_spec(rest, n).map_values(f));
        }
        off = end;
    }
    assert(data@.skip(off as int).len() == 0);
    assert(chunks_spec(data@.skip(off as int), n) =~= seq![]);
    assert(records_view(out@) =~= chunks_spec(data@, n).map_values(|c: Seq<u8>| record_spec(pv, c, Encoding::Ascii)));
    Ok(out)
}

/// The chunk that starts at `off`, and the chunks after it.
pub proof fn lemma_chunks_step(data: Seq<u8>, n: nat, off: int)
    requires
        n > 0,
        0 <= off < data.len(),
    ensures
        ({
            let rest = data.skip(off);
            let end = if rest.len() <= n { data.len() as int } else { off + n };
            &&& off < end <= data.len()
            &&& chunks_spec(rest, n) == seq![data.subrange(off, end)] + chunks_spec(data.skip(end), n)
        }),
{
    let rest = data.skip(off);
    if rest.len() <= n {
        assert(data.subrange(off, data.len() as int) =~= rest);
        assert(data.skip(data.len() as int).len() == 0);
        assert(chunks_spec(data.skip(data.len() as int), n) =~= seq![]);
        assert(chunks_spec(rest, n) =~= seq![rest]);
    } else {
        assert(data.subrange(off, off + n) =~= rest.take(n as int));
        assert(rest.skip(n as int) =~= data.skip(off + n));
    }
}

/// Splitting a sequence of chunks at its head.
pub proof fn lemma_skip_head<A>(s: Seq<A>, i: int, a: A, t: Seq<A>)
    requires
        0 <= i <= s.len(),
        s.skip(i) == seq![a] + t,
    ensures
        i < s.len(),
        s[i] == a,
        s.skip(i + 1) == t,
{
    assert(s.skip(i).len() == t.len() + 1);
    assert(s.skip(i)[0] == a);
    assert(s.skip(i + 1) =~= s.skip(i).drop_first());
    assert(s.skip(i).drop_first() =~= t);
}

/// Decoding the same bytes under cp500 instead of ASCII changes nothing but text: every item that
/// is not alphanumeric, not an edited picture and not a numeric DISPLAY field (groups, binary,
/// packed and unsupported items) decodes to exactly the same view under both encodings.
pub proof fn lemma_encoding_touches_only_text(p: ProgramView, l: LaidView, record: Seq<u8>)
    requires
        match lookup_attr(p.attrs, l.name) {
            None => true,
            Some((attr, cat)) => cat != Category::Alphanumeric && cat != Category::Edited && !(cat
                == Category::Numeric && attr.field_type == COB_TYPE_NUMERIC_DISPLAY),
        },
    ensures
        field_spec(p, l, record, Encoding::Ascii) == field_spec(p, l, record, Encoding::Cp500),
{
}

/// A decoded decimal's sign is never lost or invented: a negative value renders as `-` followed by
/// the rendering of its magnitude, whatever that magnitude (so `-0.50` keeps its sign), and the
/// rendering of a non-negative value does not start with `-`.
pub proof fn lemma_sign_shown_exactly_when_negative(d: DecimalModel)
    ensures
        fmt_decimal(DecimalModel { negative: true, ..d }) == seq!['-'] + fmt_decimal(DecimalModel { negative: false, ..d }),
        fmt_decimal(DecimalModel { negative: false, ..d }).len() > 0,
        fmt_decimal(DecimalModel { negative: false, ..d })[0] != '-',
{
    let p = DecimalModel { negative: false, ..d };
    let scale = dec_scale(p);
    let ds = zero_pad(digit_text(p.digits), scale + 1);
    let split = ds.len() - scale;
    let ip = strip_zeros(ds.take(split));
    lemma_strip_zeros_suffix(ds.take(split));
    if ip.len() > 0 {
        let k = choose|k: int|
            0 <= k <= ds.take(split).len() && ip == ds.take(split).skip(k) && forall|i: int|
                0 <= i < k ==> #[trigger] ds.take(split)[i] == '0';
        assert(ip[0] == ds[k]);
        if ds.len() >= scale + 1 && digit_text(p.digits).len() >= scale + 1 {
            assert(ds == digit_text(p.digits));
        } else {
            let t = digit_text(p.digits);
            let pad = (scale + 1 - t.len()) as nat;
            if k >= pad {
                assert(ds[k] == t[k - pad]);
            }
        }
    }
}

proof fn lemma_strip_zeros_suffix(s: Seq<char>)
    ensures
        exists|k: int|
            0 <= k <= s.len() && strip_zeros(s) == s.skip(k) && forall|i: int| 0 <= i < k ==> #[trigger] s[i] == '0',
        strip_zeros(s).len() > 0 ==> strip_zeros(s)[0] != '0',
    decreases s.len(),
{
    if s.len() > 0 && s[0] == '0' {
        lemma_strip_zeros_suffix(s.drop_first());
        let k = choose|k: int|
            0 <= k <= s.drop_first().len() && strip_zeros(s.drop_first()) == s.drop_first().skip(k) && forall|i: int|
                0 <= i < k ==> #[trigger] s.drop_first()[i] == '0';
        assert(s.drop_first().skip(k) =~= s.skip(k + 1));
        assert forall|i: int| 0 <= i < k + 1 implies #[trigger] s[i] == '0' by {
            if i > 0 {
                assert(s[i] == s.drop_first()[i - 1]);
            }
        }
    } else {
        assert(s.skip(0) =~= s);
    }
}

/// The number decimal digits write, most significant first.
pub open spec fn digits_number(ds: Seq<u8>) -> nat
    decreases ds.len(),
{
    if ds.len() == 0 {
        0
    } else {
        digits_number(ds.drop_last()) * 10 + ds.last() as nat
    }
}

proof fn lemma_digits_concat(a: Seq<char>, b: Seq<char>)
    ensures
        digits_value(a + b) == digits_value(a) * pow10(b.len()) + digits_value(b),
    decreases b.len(),
{
    if b.len() == 0 {
        assert(a + b =~= a);
        assert(pow10(0) == 1);
        assert(digits_value(b) == 0);
        assert(digits_value(a) * 1 == digits_value(a));
    } else {
        lemma_digits_concat(a, b.drop_last());
        assert((a + b).drop_last() =~= a + b.drop_last());
        assert((a + b).last() == b.last());
        let x = digits_value(a);
        let y = digits_value(b.drop_last());
        let q = pow10(b.drop_last().len());
        let c = ((b.last() as u32) - 0x30) as nat;
        assert(digits_value(a + b) == digits_value(a + b.drop_last()) * 10 + c);
        assert(digits_value(b) == y * 10 + c);
        assert(pow10(b.len()) == 10 * q);
        assert((x * q + y) * 10 == x * (10 * q) + y * 10) by (nonlinear_arith);
        assert(digits_value(a + b.drop_last()) == x * q + y);
        assert(digits_value(a + b) == (x * q + y) * 10 + c);
        assert(digits_value(a + b) == x * pow10(b.len()) + digits_value(b));
    }
}

proof fn lemma_zero_digits(z: Seq<char>)
    requires
        forall|i: int| 0 <= i < z.len() ==> #[trigger] z[i] == '0',
    ensures
        digits_value(z) == 0,
        all_digits(z),
    decreases z.len(),
{
    if z.len() > 0 {
        lemma_zero_digits(z.drop_last());
        assert(('0' as u32) == 0x30);
    }
}

proof fn lemma_digit_text_value(ds: Seq<u8>)
    requires
        forall|i: int| 0 <= i < ds.len() ==> #[trigger] ds[i] <= 9,
    ensures
        all_digits(digit_text(ds)),
        digits_value(digit_text(ds)) == digits_number(ds),
    decreases ds.len(),
{
    if ds.len() > 0 {
        lemma_digit_text_value(ds.drop_last());
        assert(digit_text(ds).drop_last() =~= digit_text(ds.drop_last()));
        let c = digit_text(ds).last();
        assert(c == ((ds.last() + 0x30) as u32) as char);
        assert((c as u32) == ds.last() + 0x30);
        assert forall|i: int| 0 <= i < digit_text(ds).len() implies '0' <= #[trigger] digit_text(ds)[i] && digit_text(ds)[i] <= '9' by {
            assert(digit_text(ds)[i] == ((ds[i] + 0x30) as u32) as char);
        }
    }
}

proof fn lemma_padded_value(digits: Seq<u8>, scale: nat)
    requires
        forall|i: int| 0 <= i < digits.len() ==> #[trigger] digits[i] <= 9,
    ensures
        all_digits(zero_pad(digit_text(digits), scale + 1)),
        digits_value(zero_pad(digit_text(digits), scale + 1)) == digits_number(digits),
        zero_pad(digit_text(digits), scale + 1).len() >= scale + 1,
{
    let t = digit_text(digits);
    let ds = zero_pad(t, scale + 1);
    lemma_digit_text_value(digits);
    if t.len() < scale + 1 {
        let z = Seq::new((scale + 1 - t.len()) as nat, |i: int| '0');
        lemma_zero_digits(z);
        lemma_digits_concat(z, t);
        assert forall|i: int| 0 <= i < ds.len() implies '0' <= #[trigger] ds[i] && ds[i] <= '9' by {
            if i >= z.len() {
                assert(ds[i] == t[i - z.len()]);
            }
        }
    }
}

proof fn lemma_integer_part(head: Seq<char>)
    requires
        all_digits(head),
    ensures
        ({
            let ip = strip_zeros(head);
            let iq = if ip.len() == 0 { seq!['0'] } else { ip };
            &&& all_digits(iq)
            &&& digits_value(iq) == digits_value(head)
            &&& iq.len() >= 1
            &&& (iq.len() == 1 || iq[0] != '0')
        }),
{
    let ip = strip_zeros(head);
    lemma_strip_zeros_suffix(head);
    let k = choose|k: int| 0 <= k <= head.len() && ip == head.skip(k) && forall|i: int| 0 <= i < k ==> #[trigger] head[i] == '0';
    assert(head =~= head.take(k) + head.skip(k));
    lemma_zero_digits(head.take(k));
    lemma_digits_concat(head.take(k), head.skip(k));
    assert forall|i: int| 0 <= i < ip.len() implies '0' <= #[trigger] ip[i] && ip[i] <= '9' by {
        assert(ip[i] == head[k + i]);
    }
    if ip.len() == 0 {
        assert(seq!['0'].drop_last() =~= Seq::<char>::empty());
        assert(('0' as u32) == 0x30);
        assert(digits_value(seq!['0']) == digits_value(seq!['0'].drop_last()) * 10 + ((('0' as u32) - 0x30) as nat));
    }
}

/// The text of a decimal writes its value: with clean digits (each `0..=9`), a non-negative
/// decimal renders as its integer digits (a single `0`, or no leading zero) and, for a positive
/// scale, a `.` followed by exactly `scale` fraction digits; and the digits before and after the
/// point, read together, write the number its digits write.
#[verifier::rlimit(40)]
pub proof fn lemma_text_writes_the_value(d: DecimalModel)
    requires
        forall|i: int| 0 <= i < d.digits.len() ==> #[trigger] d.digits[i] <= 9,
    ensures
        ({
            let s = fmt_decimal(DecimalModel { negative: false, ..d });
            let sc = dec_scale(d);
            let il: int = if sc > 0 { s.len() - sc - 1 } else { s.len() as int };
            let ip = s.take(il);
            let fp = if sc > 0 { s.skip(il + 1) } else { Seq::<char>::empty() };
            &&& il >= 1
            &&& sc > 0 ==> s.len() == il + 1 + sc && s[il] == '.'
            &&& all_digits(ip) && all_digits(fp)
            &&& ip.len() == 1 || ip[0] != '0'
            &&& digits_value(ip + fp) == digits_number(d.digits)
        }),
{
    let p = DecimalModel { negative: false, ..d };
    let s = fmt_decimal(p);
    let scale = dec_scale(p);
    let ds = zero_pad(digit_text(p.digits), scale + 1);
    let split = ds.len() - scale;
    let head = ds.take(split);
    let tail = ds.skip(split);
    lemma_padded_value(p.digits, scale);
    assert(ds =~= head + tail);
    lemma_digits_concat(head, tail);
    assert(all_digits(head)) by {
        assert forall|i: int| 0 <= i < head.len() implies '0' <= #[trigger] head[i] && head[i] <= '9' by {
            assert(head[i] == ds[i]);
        }
    }
    assert(all_digits(tail)) by {
        assert forall|i: int| 0 <= i < tail.len() implies '0' <= #[trigger] tail[i] && tail[i] <= '9' by {
            assert(tail[i] == ds[split + i]);
        }
    }
    lemma_integer_part(head);
    let ip = strip_zeros(head);
    let iq = if ip.len() == 0 { seq!['0'] } else { ip };
    assert(tail.len() == scale);
    if scale > 0 {
        assert(s =~= iq + seq!['.'] + tail);
        assert(s.take(iq.len() as int) =~= iq);
        assert(s.skip(iq.len() + 1int) =~= tail);
        lemma_digits_concat(iq, tail);
    } else {
        assert(s =~= iq);
        assert(s.take(s.len() as int) =~= iq);
        assert(iq + Seq::<char>::empty() =~= iq);
        assert(tail =~= Seq::<char>::empty());
        assert(pow10(0) == 1);
    }
}

} // verus!
