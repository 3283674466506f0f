//! A verified validator for C2PA manifests.
//!
//! The library decides what the content credentials of an asset come to. It
//! takes a parsed manifest store, the asset's bytes, and plain reports of what
//! parsing, certificate-path building and signature checking found, and returns
//! status codes, a validation state and a reader report.
//!
//! - [`verify`] verifies a store that is embedded in an asset or stands beside
//!   it; [`pipeline`] is the verification of one manifest.
//! - [`binding`] checks hashed URIs and hard bindings, over [`exclusions`],
//!   [`bmff`], [`bmff_merkle`], [`boxes`], [`collection`], [`multi_asset`] and
//!   [`compound`].
//! - [`structure`], [`claim_fields`], [`claim_refs`], [`refs`], [`redaction`] and
//!   [`ingredient`] hold the rules on claims and assertions.
//! - [`credential`], [`ocsp`], [`online`] and [`revocation`] judge the signer.
//! - [`stream`], [`session`] and [`live_video`] verify fragmented and live
//!   streams.
//! - [`verdict`], [`program`] and [`output`] turn results into a state and a
//!   report.
//! - [`soundness`] states what an accepted manifest guarantees.
pub mod base64;
pub mod binding;
pub mod bmff;
pub mod bmff_merkle;
pub mod boxes;
pub mod bytes;
pub mod claim_fields;
pub mod claim_refs;
pub mod collection;
pub mod compound;
pub mod credential;
pub mod datetime;
pub mod error;
pub mod exclusions;
pub mod hash;
pub mod ingredient;
pub mod json;
pub mod labels;
pub mod live_video;
pub mod manifest;
pub mod merkle;
pub mod multi_asset;
pub mod network_needs;
pub mod observe;
pub mod ocsp;
pub mod online;
pub mod output;
pub mod pdf_history;
pub mod pipeline;
pub mod profile;
pub mod program;
pub mod readiness;
pub mod redaction;
pub mod refs;
pub mod report;
pub mod revocation;
pub mod session;
pub mod soundness;
pub mod status;
pub mod stream;
pub mod structure;
pub mod text;
pub mod text_wrapper;
pub mod value;
pub mod verdict;
pub mod verify;
