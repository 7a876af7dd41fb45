//! # kobold-data-shim
//!
//! A verifiable COBOL record-decoding shim for data-migration pipelines.
#![allow(unused_imports)]

pub mod sha256;
pub mod text;
pub mod file;
pub mod batch_chain;
pub mod cobol;
pub mod copybook;
pub mod decode;
pub mod expand;
pub mod variant;
pub mod batch_control;
pub mod banking;
pub mod posting;
pub mod db2host;
pub mod extract;
pub mod sentinel;
pub mod currency;
pub mod date_profile;
pub mod operator;
pub mod recon;
pub mod recon2;
pub mod diff;
pub mod redefines;
pub mod privacy;
pub mod tooling;
pub mod bank_reconcile;
pub mod fixture;
pub mod pilot;
pub use bank_reconcile::{BankReconcileInputs, bank_reconcile_report};
pub use banking::{ControlSpec, Variant, VariantSpec, reconcile_banking};
pub use currency::{CurrencyFieldProfile, CurrencyProfile, currency_validate};
pub use date_profile::{DateFieldProfile, DateFormat, DateProfile, date_validate};
pub use db2host::{IndicatorManifest, IndicatorPair, db2host_evaluate};
pub use decode::{Copybook, DecodedField, DecodedRecord, Encoding, ShimError, decode, decode_all, decode_record, decode_record_encoded};
pub use diff::{DiffInput, DiffReport, DiffTarget, OracleStatus, diff_artifacts};
pub use expand::{CopyBooks, NoCopy, decode_with_resolver, expand_copybook};
pub use extract::{ExtractMethod, ExtractProfile, FileOrganization, RecordLengthSource, extract_manifest};
pub use file::{ExitCode, Ingest, IngestPolicy, PartialRecord, TrailingNewline, ingest};
pub use fixture::{Fixture, FixtureOutcome, FixtureVerdict, replay_fixture};
pub use operator::{DirtyMode, STALE_COPYBOOK_RISK, control_totals, explain_field};
pub use pilot::{PilotArtifact, PilotInputs, pilot_packet};
pub use posting::{PostingProfile, posting_manifest};
pub use privacy::{DefaultAction, FieldRule, RedactionAction, RedactionPolicy, redact_record};
pub use recon2::{Transform, TransformOp, reconcile_transform};
pub use redefines::{RedefinesDiscriminator, redefines_manifest};
pub use sentinel::{SentinelMatch, SentinelProfile, SentinelRule, sentinel_scan};
pub use tooling::{tooling_export};
pub use gnucobol_rs::copybook::CopyResolver;
