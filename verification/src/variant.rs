//! Header/detail/trailer record-discriminator routing.
//!
//! A flat file interleaves record types (header, detail(s), trailer) told apart by a
//! discriminator field. Each record is routed to the declared layout its discriminator selects and
//! decoded under it; a record whose discriminator matches no declared type is refused
//! (`matched:false`, no decode), never guessed onto a layout. Routing proves discriminator-selected
//! layout decoding, not control-total or sequence truth.
use crate::decode::{
    decode_record_encoded, decode_record_spec, record_view, shim_error_view, Copybook, DecodedField,
    DecodedRecord, Encoding, FieldView, RecordView, ShimError, ShimErrorView, field_view, fields_view,
};
use crate::sha256::{sha256_hex, spec_sha256_hex};
use crate::text::{
    dec_nat, hex_digit, hex_spec, join_comma, js, lemma_strs_push, push_char, push_hex, push_joined,
    push_js, push_lit, push_usize, str_eq, strs_view, bytes_eq,
};
use vstd::prelude::*;

verus! {

/// One declared record type: the discriminator bytes that select it and the copybook to decode it.
pub struct VariantType<'a> {
    pub name: &'a str,
    /// The bytes at the discriminator position that select this type (e.g. `b"H"`).
    pub discriminator_value: &'a [u8],
    pub copybook: &'a Copybook,
}

/// Where the discriminator lives in every record, and the declared types.
pub struct VariantSpec<'a> {
    pub discriminator_offset: usize,
    pub discriminator_length: usize,
    pub types: &'a [VariantType<'a>],
}

/// The routing result.
pub struct VariantRouting {
    pub manifest_json: String,
    pub casefile_json: String,
    /// Records routed to a declared type.
    pub routed: usize,
    /// Records whose discriminator matched no declared type (refused, fail closed).
    pub unmatched: usize,
}

// ----------------------------------------------------------------------------------------------
// The routing model
// ----------------------------------------------------------------------------------------------

/// The discriminator bytes of a record (empty when the record is too short to hold them).
pub open spec fn disc_of(rec: Seq<u8>, off: usize, len: usize) -> Seq<u8> {
    if off + len <= rec.len() {
        rec.subrange(off as int, off + len)
    } else {
        seq![]
    }
}

/// The first declared type (from index `k` on) whose discriminator value is `disc`.
pub open spec fn first_type(types: Seq<VariantType>, disc: Seq<u8>, k: int) -> Option<int>
    decreases types.len() - k,
{
    if k < 0 || k >= types.len() {
        None
    } else if types[k].discriminator_value@ == disc {
        Some(k)
    } else {
        first_type(types, disc, k + 1)
    }
}

/// The first declared type (from index `k` on) with this name: the slot its records are counted in.
pub open spec fn first_named(types: Seq<VariantType>, name: Seq<char>, k: int) -> Option<int>
    decreases types.len() - k,
{
    if k < 0 || k >= types.len() {
        None
    } else if types[k].name@ == name {
        Some(k)
    } else {
        first_named(types, name, k + 1)
    }
}

/// Printable-ASCII rendering of bytes (non-printable bytes shown as `.`).
pub open spec fn printable_spec(b: Seq<u8>) -> Seq<char> {
    b.map_values(|x: u8| if 0x20 <= x && x < 0x7f { (x as u32) as char } else { '.' })
}

pub open spec fn field_entry(f: FieldView) -> Seq<char> {
    "{\"name\":"@ + js(f.name) + ",\"offset\":"@ + dec_nat(f.offset as nat) + ",\"length\":"@ + dec_nat(
        f.size as nat,
    ) + "}"@
}

pub open spec fn decoded_entry(f: FieldView) -> Seq<char> {
    js(f.name) + ":"@ + js(f.value)
}

/// The layout entries of the non-group fields.
pub open spec fn field_entries(fs: Seq<FieldView>) -> Seq<Seq<char>>
    decreases fs.len(),
{
    if fs.len() == 0 {
        seq![]
    } else if fs.last().category == "group"@ {
        field_entries(fs.drop_last())
    } else {
        field_entries(fs.drop_last()).push(field_entry(fs.last()))
    }
}

/// The `name:value` entries of the non-group fields.
pub open spec fn decoded_entries(fs: Seq<FieldView>) -> Seq<Seq<char>>
    decreases fs.len(),
{
    if fs.len() == 0 {
        seq![]
    } else if fs.last().category == "group"@ {
        decoded_entries(fs.drop_last())
    } else {
        decoded_entries(fs.drop_last()).push(decoded_entry(fs.last()))
    }
}

pub open spec fn matched_body(name: Seq<char>, fs: Seq<FieldView>) -> Seq<char> {
    "\"matched\":true,\"record_type\":"@ + js(name) + ",\"fields\":["@ + join_comma(field_entries(fs))
        + "],\"decoded\":{"@ + join_comma(decoded_entries(fs)) + "}"@
}

pub open spec fn unmatched_body() -> Seq<char> {
    "\"matched\":false,\"record_type\":null,\"fields\":[],\"decoded\":null"@
}

pub open spec fn record_json(i: nat, rec: Seq<u8>, off: usize, len: usize, body: Seq<char>) -> Seq<char> {
    let d = disc_of(rec, off, len);
    "{\"index\":"@ + dec_nat(i) + ",\"record_sha256\":"@ + js(spec_sha256_hex(rec))
        + ",\"discriminator\":{\"offset\":"@ + dec_nat(off as nat) + ",\"length\":"@ + dec_nat(len as nat)
        + ",\"value\":"@ + js(printable_spec(d)) + ",\"hex\":"@ + js(hex_spec(d)) + "},"@ + body + "}"@
}

/// The routing tally after some records.
pub struct RouteAcc {
    pub routed: nat,
    pub unmatched: nat,
    pub counts: Seq<nat>,
    pub records: Seq<Seq<char>>,
    pub bytes: Seq<u8>,
}

pub open spec fn recs_view(records: Seq<&[u8]>) -> Seq<Seq<u8>> {
    records.map_values(|r: &[u8]| r@)
}

/// One record's effect on the routing tally.
pub open spec fn route_step(acc: RouteAcc, i: nat, rec: Seq<u8>, spec: VariantSpec, enc: Encoding) -> Result<RouteAcc, ShimErrorView> {
    let types = spec.types@;
    let d = disc_of(rec, spec.discriminator_offset, spec.discriminator_length);
    match first_type(types, d, 0) {
        None => Ok(RouteAcc {
            unmatched: acc.unmatched + 1,
            records: acc.records.push(
                record_json(i, rec, spec.discriminator_offset, spec.discriminator_length, unmatched_body()),
            ),
            bytes: acc.bytes + rec,
            ..acc
        }),
        Some(m) => match decode_record_spec(*types[m].copybook, rec, enc) {
            Err(e) => Err(e),
            Ok(rv) => Ok(RouteAcc {
                routed: acc.routed + 1,
                counts: match first_named(types, types[m].name@, 0) {
                    Some(k) => acc.counts.update(k, acc.counts[k] + 1),
                    None => acc.counts,
                },
                records: acc.records.push(
                    record_json(
                        i,
                        rec,
                        spec.discriminator_offset,
                        spec.discriminator_length,
                        matched_body(types[m].name@, rv.fields),
                    ),
                ),
                bytes: acc.bytes + rec,
                ..acc
            }),
        },
    }
}

/// Route the first `n` records; the first record whose selected copybook fails to lay out stops
/// the routing with that failure.
pub open spec fn route_fold(records: Seq<Seq<u8>>, spec: VariantSpec, enc: Encoding, n: nat) -> Result<RouteAcc, ShimErrorView>
    decreases n,
{
    if n == 0 || n > records.len() {
        Ok(RouteAcc { routed: 0, unmatched: 0, counts: Seq::new(spec.types@.len(), |k: int| 0nat), records: seq![], bytes: seq![] })
    } else {
        match route_fold(records, spec, enc, (n - 1) as nat) {
            Err(e) => Err(e),
            Ok(acc) => route_step(acc, (n - 1) as nat, records[n - 1], spec, enc),
        }
    }
}

pub open spec fn by_type_entries(types: Seq<VariantType>, counts: Seq<nat>) -> Seq<Seq<char>> {
    Seq::new(types.len(), |k: int| js(types[k].name@) + ":"@ + dec_nat(counts[k]))
}

pub open spec fn variant_manifest(n: nat, acc: RouteAcc, types: Seq<VariantType>) -> Seq<char> {
    "{\"schema\":\"kobold-variant-routing-manifest-v1\",\"court\":\"KOBOLD.VARIANT.1\",\"file_sha256\":"@
        + js(spec_sha256_hex(acc.bytes)) + ",\"record_count\":"@ + dec_nat(n) + ",\"routed\":"@ + dec_nat(
        acc.routed,
    ) + ",\"unmatched\":"@ + dec_nat(acc.unmatched) + ",\"by_type\":{"@ + join_comma(
        by_type_entries(types, acc.counts),
    ) + "},\"records\":["@ + join_comma(acc.records) + "]}"@
}

pub open spec fn variant_casefile(manifest: Seq<char>) -> Seq<char> {
    "{\"schema\":\"kobold-variant-routing-forensic-casefile-v1\",\"court\":\"KOBOLD.VARIANT.1\",\"manifest\":"@
        + manifest
        + ",\"truth_layers\":{\"routing_truth\":true,\"byte_view_truth\":true,\"control_total_truth\":false,\"record_order_truth\":false,\"business_meaning\":false},\"negative_capabilities\":[\"NEG.VARIANT.ROUTING_REQUIRES_DECLARED_DISCRIMINATOR\",\"NEG.VARIANT.UNMATCHED_FAILS_CLOSED\",\"NEG.VARIANT.NO_CONTROL_TOTAL_VALIDATION\",\"NEG.VARIANT.NO_RECORD_ORDER_SEMANTICS\",\"NEG.VARIANT.NO_BUSINESS_MEANING\",\"NEG.VARIANT.WRITE_BACK_NOT_CLAIMED\"]}\n"@
}

/// Once routing has failed, later records do not change the outcome.
pub proof fn lemma_route_err_sticky(records: Seq<Seq<u8>>, spec: VariantSpec, enc: Encoding, a: nat, b: nat)
    requires
        a <= b <= records.len(),
        route_fold(records, spec, enc, a) is Err,
    ensures
        route_fold(records, spec, enc, b) == route_fold(records, spec, enc, a),
    decreases b - a,
{
    if a < b {
        lemma_route_err_sticky(records, spec, enc, a, (b - 1) as nat);
    }
}

/// Every record is either routed or refused: `routed + unmatched` is the number of records.
pub proof fn lemma_route_partition(records: Seq<Seq<u8>>, spec: VariantSpec, enc: Encoding, n: nat)
    requires
        n <= records.len(),
        route_fold(records, spec, enc, n) is Ok,
    ensures
        route_fold(records, spec, enc, n)->Ok_0.routed + route_fold(records, spec, enc, n)->Ok_0.unmatched == n,
        route_fold(records, spec, enc, n)->Ok_0.records.len() == n,
    decreases n,
{
    if n > 0 {
        lemma_route_partition(records, spec, enc, (n - 1) as nat);
    }
}

// ----------------------------------------------------------------------------------------------
// Routing
// ----------------------------------------------------------------------------------------------

fn find_type(types: &[VariantType], disc: &[u8]) -> (r: Option<usize>)
    ensures
        match r {
            Some(m) => m < types@.len() && first_type(types@, disc@, 0) == Some(m as int),
            None => first_type(types@, disc@, 0) is None,
        },
{
    let mut k: usize = 0;
    while k < types.len()
        invariant
            k <= types@.len(),
            first_type(types@, disc@, k as int) == first_type(types@, disc@, 0),
        decreases types@.len() - k,
    {
        if bytes_eq(types[k].discriminator_value, disc) {
            return Some(k);
        }
        k += 1;
    }
    None
}

fn find_named(types: &[VariantType], name: &str) -> (r: Option<usize>)
    ensures
        match r {
            Some(k) => k < types@.len() && first_named(types@, name@, 0) == Some(k as int),
            None => first_named(types@, name@, 0) is None,
        },
{
    let mut k: usize = 0;
    while k < types.len()
        invariant
            k <= types@.len(),
            first_named(types@, name@, k as int) == first_named(types@, name@, 0),
        decreases types@.len() - k,
    {
        if str_eq(types[k].name, name) {
            return Some(k);
        }
        k += 1;
    }
    None
}

fn printable(b: &[u8]) -> (s: String)
    ensures
        s@ == printable_spec(b@),
{
    let mut s = String::new();
    let mut i: usize = 0;
    while i < b.len()
        invariant
            i <= b@.len(),
            s@ == printable_spec(b@.take(i as int)),
        decreases b@.len() - i,
    {
        let x = b[i];
        if 0x20 <= x && x < 0x7f {
            push_char(&mut s, x as char);
        } else {
            push_char(&mut s, '.');
        }
        assert(printable_spec(b@.take(i + 1)) =~= printable_spec(b@.take(i as int)).push(s@.last()));
        i += 1;
    }
    assert(b@.take(i as int) =~= b@);
    s
}

fn disc_slice(rec: &[u8], off: usize, len: usize) -> (d: &[u8])
    ensures
        d@ == disc_of(rec@, off, len),
{
    if off <= rec.len() && len <= rec.len() - off {
        vstd::slice::slice_subrange(rec, off, off + len)
    } else {
        &[]
    }
}

/// The layout and value entries of a decoded record's non-group fields.
fn entries_of(fields: &Vec<DecodedField>) -> (r: (Vec<String>, Vec<String>))
    ensures
        strs_view(r.0@) == field_entries(fields_view(fields@)),
        strs_view(r.1@) == decoded_entries(fields_view(fields@)),
{
    let ghost fv = fields_view(fields@);
    let mut layout: Vec<String> = Vec::new();
    let mut values: Vec<String> = Vec::new();
    let mut i: usize = 0;
    while i < fields.len()
        invariant
            i <= fields@.len(),
            fv == fields_view(fields@),
            strs_view(layout@) == field_entries(fv.take(i as int)),
            strs_view(values@) == decoded_entries(fv.take(i as int)),
        decreases fields@.len() - i,
    {
        let f = &fields[i];
        assert(fv.take(i + 1).drop_last() =~= fv.take(i as int));
        assert(fv.take(i + 1).last() == field_view(*f));
        if !str_eq(f.category, "group") {
            let mut e = String::new();
            push_lit(&mut e, "{\"name\":");
            push_js(&mut e, f.name.as_str());
            push_lit(&mut e, ",\"offset\":");
            push_usize(&mut e, f.offset);
            push_lit(&mut e, ",\"length\":");
            push_usize(&mut e, f.size);
            push_lit(&mut e, "}");
            assert(e@ =~= field_entry(field_view(*f)));
            proof {
                lemma_strs_push(layout@, e);
            }
            layout.push(e);
            let mut v = String::new();
            push_js(&mut v, f.name.as_str());
            push_lit(&mut v, ":");
            push_js(&mut v, f.value.as_str());
            assert(v@ =~= decoded_entry(field_view(*f)));
            proof {
                lemma_strs_push(values@, v);
            }
            values.push(v);
        }
        i += 1;
    }
    assert(fv.take(i as int) =~= fv);
    (layout, values)
}

fn matched_body_exec(name: &str, d: &DecodedRecord) -> (s: String)
    ensures
        s@ == matched_body(name@, record_view(*d).fields),
{
    let (layout, values) = entries_of(&d.fields);
    let mut s = String::new();
    push_lit(&mut s, "\"matched\":true,\"record_type\":");
    push_js(&mut s, name);
    push_lit(&mut s, ",\"fields\":[");
    push_joined(&mut s, &layout);
    push_lit(&mut s, "],\"decoded\":{");
    push_joined(&mut s, &values);
    push_lit(&mut s, "}");
    assert(s@ =~= matched_body(name@, record_view(*d).fields));
    s
}

fn record_json_exec(i: usize, rec: &[u8], off: usize, len: usize, body: &String) -> (s: String)
    ensures
        s@ == record_json(i as nat, rec@, off, len, body@),
{
    let d = disc_slice(rec, off, len);
    let mut s = String::new();
    push_lit(&mut s, "{\"index\":");
    push_usize(&mut s, i);
    push_lit(&mut s, ",\"record_sha256\":");
    let h = sha256_hex(rec);
    push_js(&mut s, h.as_str());
    push_lit(&mut s, ",\"discriminator\":{\"offset\":");
    push_usize(&mut s, off);
    push_lit(&mut s, ",\"length\":");
    push_usize(&mut s, len);
    push_lit(&mut s, ",\"value\":");
    let p = printable(d);
    push_js(&mut s, p.as_str());
    push_lit(&mut s, ",\"hex\":");
    let hx = crate::text::hex(d);
    push_js(&mut s, hx.as_str());
    push_lit(&mut s, "},");
    s.append(body.as_str());
    push_lit(&mut s, "}");
    assert(s@ =~= record_json(i as nat, rec@, off, len, body@));
    s
}

pub open spec fn acc_of(routed: usize, unmatched: usize, counts: Seq<usize>, rec_json: Seq<String>, bytes: Seq<u8>) -> RouteAcc {
    RouteAcc {
        routed: routed as nat,
        unmatched: unmatched as nat,
        counts: counts.map_values(|c: usize| c as nat),
        records: strs_view(rec_json),
        bytes,
    }
}

#[verifier::rlimit(30)]
fn route_one(
    rec: &[u8],
    i: usize,
    spec: &VariantSpec,
    encoding: Encoding,
    routed: &mut usize,
    unmatched: &mut usize,
    counts: &mut Vec<usize>,
    rec_json: &mut Vec<String>,
    file_bytes: &mut Vec<u8>,
) -> (r: Result<(), ShimError>)
    requires
        old(counts)@.len() == spec.types@.len(),
        forall|j: int| 0 <= j < old(counts)@.len() ==> old(counts)@[j] <= i,
        *old(routed) <= i,
        *old(unmatched) <= i,
        i < usize::MAX,
    ensures
        final(counts)@.len() == spec.types@.len(),
        forall|j: int| 0 <= j < final(counts)@.len() ==> final(counts)@[j] <= i + 1,
        *final(routed) <= i + 1,
        *final(unmatched) <= i + 1,
        match r {
            Ok(_) => route_step(
                acc_of(*old(routed), *old(unmatched), old(counts)@, old(rec_json)@, old(file_bytes)@),
                i as nat,
                rec@,
                *spec,
                encoding,
            ) == Ok::<RouteAcc, ShimErrorView>(
                acc_of(*final(routed), *final(unmatched), final(counts)@, final(rec_json)@, final(file_bytes)@),
            ),
            Err(e) => route_step(
                acc_of(*old(routed), *old(unmatched), old(counts)@, old(rec_json)@, old(file_bytes)@),
                i as nat,
                rec@,
                *spec,
                encoding,
            ) == Err::<RouteAcc, ShimErrorView>(shim_error_view(e)),
        },
{
    let ghost cv = counts@.map_values(|c: usize| c as nat);
    let off = spec.discriminator_offset;
    let len = spec.discriminator_length;
    file_bytes.extend_from_slice(rec);
    assert(file_bytes@ =~= old(file_bytes)@ + rec@);
    let d = disc_slice(rec, off, len);
    let body = match find_type(spec.types, d) {
        None => {
            *unmatched += 1;
            String::from_str("\"matched\":false,\"record_type\":null,\"fields\":[],\"decoded\":null")
        },
        Some(m) => {
            let t = &spec.types[m];
            let decoded = match decode_record_encoded(t.copybook, rec, encoding) {
                Ok(dr) => dr,
                Err(e) => {
                    return Err(e);
                },
            };
            *routed += 1;
            match find_named(spec.types, t.name) {
                Some(slot) => {
                    let c = counts[slot];
                    counts.set(slot, c + 1);
                    assert(counts@.map_values(|c: usize| c as nat) =~= cv.update(slot as int, cv[slot as int] + 1));
                },
                None => {},
            }
            matched_body_exec(t.name, &decoded)
        },
    };
    let j = record_json_exec(i, rec, off, len, &body);
    proof {
        lemma_strs_push(rec_json@, j);
    }
    rec_json.push(j);
    Ok(())
}

/// The outcome of routing: the manifest, the casefile and the two counts, or the first layout
/// failure among the selected copybooks.
pub open spec fn variant_route_spec(records: Seq<Seq<u8>>, spec: VariantSpec, enc: Encoding) -> Result<
    (Seq<char>, Seq<char>, nat, nat),
    ShimErrorView,
> {
    match route_fold(records, spec, enc, records.len()) {
        Err(e) => Err(e),
        Ok(acc) => {
            let m = variant_manifest(records.len(), acc, spec.types@);
            Ok((m, variant_casefile(m), acc.routed, acc.unmatched))
        },
    }
}

/// Route each record to the declared layout its discriminator selects and decode it there;
/// records whose discriminator matches no declared type are refused (no decode).
pub fn variant_route(records: &[&[u8]], spec: &VariantSpec, encoding: Encoding) -> (r: Result<VariantRouting, ShimError>)
    ensures
        match r {
            Ok(v) => variant_route_spec(recs_view(records@), *spec, encoding) == Ok::<
                (Seq<char>, Seq<char>, nat, nat),
                ShimErrorView,
            >((v.manifest_json@, v.casefile_json@, v.routed as nat, v.unmatched as nat)),
            Err(e) => variant_route_spec(recs_view(records@), *spec, encoding) == Err::<
                (Seq<char>, Seq<char>, nat, nat),
                ShimErrorView,
            >(shim_error_view(e)),
        },
{
    let ghost rv = recs_view(records@);
    let ghost types = spec.types@;
    let off = spec.discriminator_offset;
    let len = spec.discriminator_length;
    let mut routed: usize = 0;
    let mut unmatched: usize = 0;
    let mut counts: Vec<usize> = Vec::new();
    let mut k: usize = 0;
    while k < spec.types.len()
        invariant
            k <= types.len(),
            types == spec.types@,
            counts@.len() == k,
            forall|j: int| 0 <= j < k ==> counts@[j] == 0,
        decreases types.len() - k,
    {
        counts.push(0);
        k += 1;
    }
    let mut rec_json: Vec<String> = Vec::new();
    let mut file_bytes: Vec<u8> = Vec::new();
    let mut i: usize = 0;
    assert(counts@.map_values(|c: usize| c as nat) =~= Seq::new(types.len(), |k: int| 0nat));
    assert(strs_view(rec_json@) =~= seq![]);
    assert(file_bytes@ =~= seq![]);
    while i < records.len()
        invariant
            i <= records@.len(),
            rv == recs_view(records@),
            types == spec.types@,
            off == spec.discriminator_offset,
            len == spec.discriminator_length,
            counts@.len() == types.len(),
            forall|j: int| 0 <= j < counts@.len() ==> counts@[j] <= i,
            routed <= i,
            unmatched <= i,
            route_fold(rv, *spec, encoding, i as nat) == Ok::<RouteAcc, ShimErrorView>(
                acc_of(routed, unmatched, counts@, rec_json@, file_bytes@),
            ),
        decreases records@.len() - i,
    {
        let rec: &[u8] = records[i];
        assert(rv[i as int] == rec@);
        match route_one(rec, i, spec, encoding, &mut routed, &mut unmatched, &mut counts, &mut rec_json, &mut file_bytes) {
            Ok(_) => {},
            Err(e) => {
                proof {
                    lemma_route_err_sticky(rv, *spec, encoding, (i + 1) as nat, rv.len());
                }
                return Err(e);
            },
        }
        i += 1;
    }
    assert(rv.len() == records@.len());
    let mut by_type: Vec<String> = Vec::new();
    let mut k: usize = 0;
    while k < spec.types.len()
        invariant
            k <= types.len(),
            types == spec.types@,
            counts@.len() == types.len(),
            strs_view(by_type@) == by_type_entries(types, counts@.map_values(|c: usize| c as nat)).take(k as int),
        decreases types.len() - k,
    {
        let mut e = String::new();
        push_js(&mut e, spec.types[k].name);
        push_lit(&mut e, ":");
        push_usize(&mut e, counts[k]);
        proof {
            lemma_strs_push(by_type@, e);
        }
        by_type.push(e);
        assert(by_type_entries(types, counts@.map_values(|c: usize| c as nat)).take(k + 1) =~= by_type_entries(
            types,
            counts@.map_values(|c: usize| c as nat),
        ).take(k as int).push(e@));
        k += 1;
    }
    assert(by_type_entries(types, counts@.map_values(|c: usize| c as nat)).take(k as int) =~= by_type_entries(
        types,
        counts@.map_values(|c: usize| c as nat),
    ));
    let mut m = String::new();
    push_lit(&mut m, "{\"schema\":\"kobold-variant-routing-manifest-v1\",\"court\":\"KOBOLD.VARIANT.1\",\"file_sha256\":");
    let fh = sha256_hex(file_bytes.as_slice());
    push_js(&mut m, fh.as_str());
    push_lit(&mut m, ",\"record_count\":");
    push_usize(&mut m, records.len());
    push_lit(&mut m, ",\"routed\":");
    push_usize(&mut m, routed);
    push_lit(&mut m, ",\"unmatched\":");
    push_usize(&mut m, unmatched);
    push_lit(&mut m, ",\"by_type\":{");
    push_joined(&mut m, &by_type);
    push_lit(&mut m, "},\"records\":[");
    push_joined(&mut m, &rec_json);
    push_lit(&mut m, "]}");
    let ghost acc = route_fold(rv, *spec, encoding, rv.len())->Ok_0;
    assert(m@ =~= variant_manifest(rv.len(), acc, types));
    let mut c = String::new();
    push_lit(&mut c, "{\"schema\":\"kobold-variant-routing-forensic-casefile-v1\",\"court\":\"KOBOLD.VARIANT.1\",\"manifest\":");
    c.append(m.as_str());
    push_lit(
        &mut c,
        ",\"truth_layers\":{\"routing_truth\":true,\"byte_view_truth\":true,\"control_total_truth\":false,\"record_order_truth\":false,\"business_meaning\":false},\"negative_capabilities\":[\"NEG.VARIANT.ROUTING_REQUIRES_DECLARED_DISCRIMINATOR\",\"NEG.VARIANT.UNMATCHED_FAILS_CLOSED\",\"NEG.VARIANT.NO_CONTROL_TOTAL_VALIDATION\",\"NEG.VARIANT.NO_RECORD_ORDER_SEMANTICS\",\"NEG.VARIANT.NO_BUSINESS_MEANING\",\"NEG.VARIANT.WRITE_BACK_NOT_CLAIMED\"]}\n",
    );
    assert(c@ =~= variant_casefile(m@));
    Ok(VariantRouting { manifest_json: m, casefile_json: c, routed, unmatched })
}

/// 1 for a record whose discriminator no declared type has.
pub open spec fn unmatched_part(rec: Seq<u8>, spec: VariantSpec) -> nat {
    if first_type(spec.types@, disc_of(rec, spec.discriminator_offset, spec.discriminator_length), 0) is None {
        1
    } else {
        0
    }
}

/// The number of records among the first `n` whose discriminator no declared type has.
pub open spec fn unmatched_count(records: Seq<Seq<u8>>, spec: VariantSpec, n: nat) -> nat
    decreases n,
{
    if n == 0 || n > records.len() {
        0
    } else {
        unmatched_count(records, spec, (n - 1) as nat) + unmatched_part(records[n - 1], spec)
    }
}

proof fn lemma_fold_unmatched(records: Seq<Seq<u8>>, spec: VariantSpec, enc: Encoding, n: nat)
    requires
        n <= records.len(),
        route_fold(records, spec, enc, n) is Ok,
    ensures
        route_fold(records, spec, enc, n)->Ok_0.unmatched == unmatched_count(records, spec, n),
    decreases n,
{
    if n > 0 {
        let k = (n - 1) as nat;
        if route_fold(records, spec, enc, k) is Err {
            lemma_route_err_sticky(records, spec, enc, k, n);
        }
        lemma_fold_unmatched(records, spec, enc, k);
    }
}

/// A routing that succeeds accounts for every record: those whose discriminator no declared type
/// has are the unmatched ones, and all the others are routed.
pub proof fn lemma_routing_accounts_for_every_record(records: Seq<Seq<u8>>, spec: VariantSpec, enc: Encoding)
    ensures
        variant_route_spec(records, spec, enc) matches Ok((m, c, routed, unmatched)) ==> {
            &&& routed + unmatched == records.len()
            &&& unmatched == unmatched_count(records, spec, records.len())
        },
{
    if route_fold(records, spec, enc, records.len()) is Ok {
        lemma_route_partition(records, spec, enc, records.len());
        lemma_fold_unmatched(records, spec, enc, records.len());
    }
}

/// The tally slot of a record: that of the first declared type bearing the name of the type its
/// discriminator selects; none for an unmatched record.
pub open spec fn slot_of(rec: Seq<u8>, spec: VariantSpec) -> Option<int> {
    let types = spec.types@;
    match first_type(types, disc_of(rec, spec.discriminator_offset, spec.discriminator_length), 0) {
        Some(m) => first_named(types, types[m].name@, 0),
        None => None,
    }
}

/// The number of records among the first `n` tallied in slot `k`.
pub open spec fn slot_count(records: Seq<Seq<u8>>, spec: VariantSpec, k: int, n: nat) -> nat
    decreases n,
{
    if n == 0 || n > records.len() {
        0
    } else {
        slot_count(records, spec, k, (n - 1) as nat) + if slot_of(records[n - 1], spec) == Some(k) { 1nat } else { 0nat }
    }
}

proof fn lemma_first_named_range(types: Seq<VariantType>, name: Seq<char>, k: int)
    ensures
        first_named(types, name, k) matches Some(j) ==> 0 <= j < types.len(),
    decreases types.len() - k,
{
    if 0 <= k < types.len() && types[k].name@ != name {
        lemma_first_named_range(types, name, k + 1);
    }
}

proof fn lemma_fold_counts(records: Seq<Seq<u8>>, spec: VariantSpec, enc: Encoding, n: nat)
    requires
        n <= records.len(),
        route_fold(records, spec, enc, n) is Ok,
    ensures
        route_fold(records, spec, enc, n)->Ok_0.counts.len() == spec.types@.len(),
        forall|k: int|
            0 <= k < spec.types@.len() ==> #[trigger] route_fold(records, spec, enc, n)->Ok_0.counts[k] == slot_count(
                records,
                spec,
                k,
                n,
            ),
    decreases n,
{
    if n > 0 {
        let j = (n - 1) as nat;
        if route_fold(records, spec, enc, j) is Err {
            lemma_route_err_sticky(records, spec, enc, j, n);
        }
        lemma_fold_counts(records, spec, enc, j);
        let types = spec.types@;
        let rec = records[j as int];
        if let Some(m) = first_type(types, disc_of(rec, spec.discriminator_offset, spec.discriminator_length), 0) {
            lemma_first_named_range(types, types[m].name@, 0);
        }
    }
}

/// A routing that succeeds tallies each routed record once, in the slot of the first declared type
/// with its type's name: each slot's count is the number of records tallied there.
pub proof fn lemma_routing_tallies_per_type(records: Seq<Seq<u8>>, spec: VariantSpec, enc: Encoding)
    ensures
        route_fold(records, spec, enc, records.len()) matches Ok(acc) ==> {
            &&& acc.counts.len() == spec.types@.len()
            &&& forall|k: int| 0 <= k < spec.types@.len() ==> #[trigger] acc.counts[k] == slot_count(records, spec, k, records.len())
        },
        variant_route_spec(records, spec, enc) matches Ok((m, c, routed, unmatched)) ==> m == variant_manifest(
            records.len(),
            route_fold(records, spec, enc, records.len())->Ok_0,
            spec.types@,
        ),
{
    if route_fold(records, spec, enc, records.len()) is Ok {
        lemma_fold_counts(records, spec, enc, records.len());
    }
}

} // verus!
