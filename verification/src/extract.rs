//! Declared extraction provenance and copybook freshness.
//!
//! The declared extraction provenance (file organization, extract method, record-length source,
//! copybook source, any code-set conversion done before decoding, source-system cutoff, operator
//! assumptions) is bound to the data and copybook hashes, while extraction truth is refused and
//! copybook freshness stays a permanent uncertainty.
use crate::sha256::{sha256_hex, spec_sha256_hex};
use crate::text::{join_comma, js, lemma_strs_push, push_joined, push_js, push_lit, strs_view};
use vstd::prelude::*;

verus! {

/// How the source file was organized on the mainframe (declared, not detected).
#[derive(Debug, Clone, Copy, PartialEq, Eq, Structural)]
pub enum FileOrganization {
    Sequential,
    LineSequential,
    Indexed,
    Relative,
    Vsam,
    Unknown,
}

/// How the bytes were extracted to the file being decoded.
#[derive(Debug, Clone, Copy, PartialEq, Eq, Structural)]
pub enum ExtractMethod {
    UnloadedFixedRecord,
    ProgramExport,
    VendorTool,
    Unknown,
}

/// Where the record length came from.
#[derive(Debug, Clone, Copy, PartialEq, Eq, Structural)]
pub enum RecordLengthSource {
    Copybook,
    Operator,
    Trailer,
    Unknown,
}

pub open spec fn org_text(o: FileOrganization) -> Seq<char> {
    match o {
        FileOrganization::Sequential => "sequential"@,
        FileOrganization::LineSequential => "line_sequential"@,
        FileOrganization::Indexed => "indexed"@,
        FileOrganization::Relative => "relative"@,
        FileOrganization::Vsam => "vsam"@,
        FileOrganization::Unknown => "unknown"@,
    }
}

pub open spec fn method_text(m: ExtractMethod) -> Seq<char> {
    match m {
        ExtractMethod::UnloadedFixedRecord => "unloaded_fixed_record"@,
        ExtractMethod::ProgramExport => "program_export"@,
        ExtractMethod::VendorTool => "vendor_tool"@,
        ExtractMethod::Unknown => "unknown"@,
    }
}

pub open spec fn length_source_text(r: RecordLengthSource) -> Seq<char> {
    match r {
        RecordLengthSource::Copybook => "copybook"@,
        RecordLengthSource::Operator => "operator"@,
        RecordLengthSource::Trailer => "trailer"@,
        RecordLengthSource::Unknown => "unknown"@,
    }
}

fn org(o: FileOrganization) -> (s: &'static str)
    ensures
        s@ == org_text(o),
{
    match o {
        FileOrganization::Sequential => "sequential",
        FileOrganization::LineSequential => "line_sequential",
        FileOrganization::Indexed => "indexed",
        FileOrganization::Relative => "relative",
        FileOrganization::Vsam => "vsam",
        FileOrganization::Unknown => "unknown",
    }
}

fn meth(m: ExtractMethod) -> (s: &'static str)
    ensures
        s@ == method_text(m),
{
    match m {
        ExtractMethod::UnloadedFixedRecord => "unloaded_fixed_record",
        ExtractMethod::ProgramExport => "program_export",
        ExtractMethod::VendorTool => "vendor_tool",
        ExtractMethod::Unknown => "unknown",
    }
}

fn rls(r: RecordLengthSource) -> (s: &'static str)
    ensures
        s@ == length_source_text(r),
{
    match r {
        RecordLengthSource::Copybook => "copybook",
        RecordLengthSource::Operator => "operator",
        RecordLengthSource::Trailer => "trailer",
        RecordLengthSource::Unknown => "unknown",
    }
}

/// The declared extraction profile.
pub struct ExtractProfile<'a> {
    pub source_file_organization: FileOrganization,
    pub extract_method: ExtractMethod,
    pub record_length_source: RecordLengthSource,
    pub copybook_source: &'a str,
    /// Any code-set conversion (e.g. EBCDIC to ASCII) done by a tool before these bytes were seen.
    pub code_set_conversion_before_kobold: Option<&'a str>,
    pub source_system_cutoff: Option<&'a str>,
    pub business_date: Option<&'a str>,
    pub operator_declared_assumptions: &'a [&'a str],
}

/// The extraction-provenance custody result.
pub struct ExtractManifest {
    pub manifest_json: String,
    pub casefile_json: String,
}

/// A JSON string, or `null` when absent.
pub open spec fn opt_js(s: Option<&str>) -> Seq<char> {
    match s {
        Some(x) => js(x@),
        None => "null"@,
    }
}

pub open spec fn extract_manifest_json(copybook: Seq<char>, data: Seq<u8>, p: ExtractProfile) -> Seq<char> {
    "{\"schema\":\"kobold-extract-profile-v1\",\"file_sha256\":"@ + js(spec_sha256_hex(data)) + ",\"copybook_sha256\":"@
        + js(spec_sha256_hex(vstd::utf8::encode_utf8(copybook))) + ",\"source_file_organization\":"@ + js(
        org_text(p.source_file_organization),
    ) + ",\"extract_method\":"@ + js(method_text(p.extract_method)) + ",\"record_length_source\":"@ + js(
        length_source_text(p.record_length_source),
    ) + ",\"copybook_source\":"@ + js(p.copybook_source@) + ",\"code_set_conversion_before_kobold\":"@ + opt_js(
        p.code_set_conversion_before_kobold,
    ) + ",\"source_system_cutoff\":"@ + opt_js(p.source_system_cutoff) + ",\"business_date\":"@ + opt_js(
        p.business_date,
    ) + ",\"operator_declared_assumptions\":["@ + join_comma(
        p.operator_declared_assumptions@.map_values(|a: &str| js(a@)),
    ) + "]}"@
}

pub open spec fn extract_casefile_json(manifest: Seq<char>, copybook: Seq<char>, p: ExtractProfile) -> Seq<char> {
    "{\"schema\":\"kobold-extract-forensic-casefile-v1\",\"court\":\"KOBOLD.EXTRACT.PROFILE.1\",\"extraction_provenance\":"@
        + manifest + ",\"copybook_freshness\":{\"claimed\":false,\"copybook_sha256\":"@ + js(
        spec_sha256_hex(vstd::utf8::encode_utf8(copybook)),
    ) + ",\"copybook_source\":"@ + js(p.copybook_source@)
        + ",\"evidence\":\"hash + declared provenance only\",\"risk\":\"a stale copybook may decode bytes plausibly wrong\"},\"extraction_truth\":{\"claimed\":false},\"currentness\":{\"claimed\":false},\"negative_capabilities\":[\"NEG.EXTRACT.EXTRACTION_TRUTH\",\"NEG.EXTRACT.VSAM_NOT_CLAIMED\",\"NEG.EXTRACT.INDEXED_BACKEND_NOT_CLAIMED\",\"NEG.EXTRACT.FILE_STATUS_NOT_INTERPRETED\",\"NEG.CODESET.FILE_IO_CONVERSION\",\"NEG.COPYBOOK.STALE\",\"NEG.CURRENTNESS\"]}\n"@
}

fn push_opt_js(s: &mut String, v: Option<&str>)
    ensures
        final(s)@ == old(s)@ + opt_js(v),
{
    match v {
        Some(x) => push_js(s, x),
        None => push_lit(s, "null"),
    }
}

/// Record the declared extraction provenance for `data` decoded under `copybook` (the copybook's
/// source text), with copybook freshness held as an explicit non-claim. Pure metadata custody.
pub fn extract_manifest(copybook: &str, data: &[u8], profile: &ExtractProfile) -> (r: ExtractManifest)
    ensures
        r.manifest_json@ == extract_manifest_json(copybook@, data@, *profile),
        r.casefile_json@ == extract_casefile_json(r.manifest_json@, copybook@, *profile),
{
    let ghost av = profile.operator_declared_assumptions@.map_values(|a: &str| js(a@));
    let mut parts: Vec<String> = Vec::new();
    let mut i: usize = 0;
    while i < profile.operator_declared_assumptions.len()
        invariant
            i <= profile.operator_declared_assumptions@.len(),
            av == profile.operator_declared_assumptions@.map_values(|a: &str| js(a@)),
            strs_view(parts@) == av.take(i as int),
        decreases profile.operator_declared_assumptions@.len() - i,
    {
        let mut e = String::new();
        push_js(&mut e, profile.operator_declared_assumptions[i]);
        proof {
            lemma_strs_push(parts@, e);
        }
        parts.push(e);
        assert(av.take(i + 1) =~= av.take(i as int).push(e@));
        i += 1;
    }
    assert(av.take(i as int) =~= av);
    let ch = sha256_hex(copybook.as_bytes());
    let mut m = String::new();
    push_lit(&mut m, "{\"schema\":\"kobold-extract-profile-v1\",\"file_sha256\":");
    let dh = sha256_hex(data);
    push_js(&mut m, dh.as_str());
    push_lit(&mut m, ",\"copybook_sha256\":");
    push_js(&mut m, ch.as_str());
    push_lit(&mut m, ",\"source_file_organization\":");
    push_js(&mut m, org(profile.source_file_organization));
    push_lit(&mut m, ",\"extract_method\":");
    push_js(&mut m, meth(profile.extract_method));
    push_lit(&mut m, ",\"record_length_source\":");
    push_js(&mut m, rls(profile.record_length_source));
    push_lit(&mut m, ",\"copybook_source\":");
    push_js(&mut m, profile.copybook_source);
    push_lit(&mut m, ",\"code_set_conversion_before_kobold\":");
    push_opt_js(&mut m, profile.code_set_conversion_before_kobold);
    push_lit(&mut m, ",\"source_system_cutoff\":");
    push_opt_js(&mut m, profile.source_system_cutoff);
    push_lit(&mut m, ",\"business_date\":");
    push_opt_js(&mut m, profile.business_date);
    push_lit(&mut m, ",\"operator_declared_assumptions\":[");
    push_joined(&mut m, &parts);
    push_lit(&mut m, "]}");
    assert(m@ =~= extract_manifest_json(copybook@, data@, *profile));
    let mut c = String::new();
    push_lit(&mut c, "{\"schema\":\"kobold-extract-forensic-casefile-v1\",\"court\":\"KOBOLD.EXTRACT.PROFILE.1\",\"extraction_provenance\":");
    c.append(m.as_str());
    push_lit(&mut c, ",\"copybook_freshness\":{\"claimed\":false,\"copybook_sha256\":");
    push_js(&mut c, ch.as_str());
    push_lit(&mut c, ",\"copybook_source\":");
    push_js(&mut c, profile.copybook_source);
    push_lit(
        &mut c,
        ",\"evidence\":\"hash + declared provenance only\",\"risk\":\"a stale copybook may decode bytes plausibly wrong\"},\"extraction_truth\":{\"claimed\":false},\"currentness\":{\"claimed\":false},\"negative_capabilities\":[\"NEG.EXTRACT.EXTRACTION_TRUTH\",\"NEG.EXTRACT.VSAM_NOT_CLAIMED\",\"NEG.EXTRACT.INDEXED_BACKEND_NOT_CLAIMED\",\"NEG.EXTRACT.FILE_STATUS_NOT_INTERPRETED\",\"NEG.CODESET.FILE_IO_CONVERSION\",\"NEG.COPYBOOK.STALE\",\"NEG.CURRENTNESS\"]}\n",
    );
    assert(c@ =~= extract_casefile_json(m@, copybook@, *profile));
    ExtractManifest { manifest_json: m, casefile_json: c }
}

} // verus!
