//! What can go wrong.

use crate::canonical::{canonical, canonical_json};
use crate::json::{Json, JsonView};
use crate::text::{decimal, decimal_int, i64_text, u64_text};
use vstd::prelude::*;
use vstd::string::*;

verus! {

/// Why a request was refused.
#[derive(Debug)]
pub enum Error {
    /// Full-text-search indexes were asked for.
    FtsNotSupported,
    /// A vector index names a field that is not there.
    FieldNotFound,
    /// A vector index is on a vector without a fixed dimension.
    DimensionNotFixed,
    /// A vector index is on a vector of the named element type.
    UnsupportedElementType(String),
    /// A vector index is on a field of the named type.
    NotAVector(String),
    /// A vector index with the IvfFlat method was asked for.
    IvfFlatNotSupported,
    /// A vector index with the inner product metric was asked for.
    InnerProductNotSupported,
    /// A key has another number of parts than its schema has fields.
    KeyFieldsMismatch { fields: usize, parts: usize },
    /// Something that never happens has happened.
    InvarianceViolation,
    /// The additional key of a relationship is a list of other than two keys.
    AdditionalKeyFields(Json),
    /// The metadata of the flow is newer than what the caller has seen.
    NewerVersionSeen,
    /// The metadata of the flow has another version than the caller's.
    VersionMismatch { latest: Option<u64>, current: u64 },
    /// The flow has no source state table.
    SourceStateNotEnabled,
    /// The target has no export context.
    NoExportContext(i32),
    /// A clean-up task panicked.
    TaskPanicked(String),
    /// The connection url has no protocol.
    InvalidDbUrl,
    /// The connection url has the named protocol.
    UnsupportedProtocol(String),
    /// A target factory of the name is already registered.
    DuplicateTargetFactory(String),
}

/// An error as a mathematical value.
pub enum ErrorView {
    FtsNotSupported,
    FieldNotFound,
    DimensionNotFixed,
    UnsupportedElementType(Seq<char>),
    NotAVector(Seq<char>),
    IvfFlatNotSupported,
    InnerProductNotSupported,
    KeyFieldsMismatch { fields: nat, parts: nat },
    InvarianceViolation,
    AdditionalKeyFields(JsonView),
    NewerVersionSeen,
    VersionMismatch { latest: Option<u64>, current: u64 },
    SourceStateNotEnabled,
    NoExportContext(i32),
    TaskPanicked(Seq<char>),
    InvalidDbUrl,
    UnsupportedProtocol(Seq<char>),
    DuplicateTargetFactory(Seq<char>),
}

/// How an optional version is shown.
pub open spec fn version_text(v: Option<u64>) -> Seq<char> {
    match v {
        Some(n) => "Some("@ + decimal(n as nat) + ")"@,
        None => "None"@,
    }
}

/// The message of an error.
pub open spec fn message_text(e: ErrorView) -> Seq<char> {
    match e {
        ErrorView::FtsNotSupported => "FTS indexes are not supported for SurrealDB target yet"@,
        ErrorView::FieldNotFound => "field not found"@,
        ErrorView::DimensionNotFixed =>
            "Vector index field must be a vector with fixed dimension"@,
        ErrorView::UnsupportedElementType(t) =>
            "Unsupported vector element type for SurrealDB: "@ + t,
        ErrorView::NotAVector(t) => "Vector index field must be a vector type, got: "@ + t,
        ErrorView::IvfFlatNotSupported =>
            "IvfFlat vector index method is not supported for SurrealDB target"@,
        ErrorView::InnerProductNotSupported =>
            "InnerProduct vector metric is not supported for SurrealDB target yet"@,
        ErrorView::KeyFieldsMismatch { fields, parts } => "Key fields number mismatch: "@ + decimal(
            fields,
        ) + " vs "@ + decimal(parts),
        ErrorView::InvarianceViolation => "Invariance violation"@,
        ErrorView::AdditionalKeyFields(v) => "Expected additional key with 2 fields, got "@
            + canonical(v),
        ErrorView::NewerVersionSeen => "seen newer version in the metadata table"@,
        ErrorView::VersionMismatch { latest, current } => "seen newer version ("@ + version_text(
            latest,
        ) + ") in the metadata table ("@ + decimal(current as nat) + ")"@,
        ErrorView::SourceStateNotEnabled => "Source state table not enabled for this flow"@,
        ErrorView::NoExportContext(target_id) => "No export context for target "@ + decimal_int(
            target_id as int,
        ),
        ErrorView::TaskPanicked(t) => "Task panicked: "@ + t,
        ErrorView::InvalidDbUrl => "Invalid DB url"@,
        ErrorView::UnsupportedProtocol(t) => "Unsupported protocol: "@ + t,
        ErrorView::DuplicateTargetFactory(t) => "Duplicate target factory name: "@ + t,
    }
}

fn with_text(head: &str, tail: &str) -> (out: String)
    ensures
        out@ == head@ + tail@,
{
    let mut out: String = String::from_str(head);
    out.append(tail);
    out
}

impl Error {
    pub open spec fn view(&self) -> ErrorView {
        match self {
            Error::FtsNotSupported => ErrorView::FtsNotSupported,
            Error::FieldNotFound => ErrorView::FieldNotFound,
            Error::DimensionNotFixed => ErrorView::DimensionNotFixed,
            Error::UnsupportedElementType(t) => ErrorView::UnsupportedElementType(t@),
            Error::NotAVector(t) => ErrorView::NotAVector(t@),
            Error::IvfFlatNotSupported => ErrorView::IvfFlatNotSupported,
            Error::InnerProductNotSupported => ErrorView::InnerProductNotSupported,
            Error::KeyFieldsMismatch { fields, parts } => ErrorView::KeyFieldsMismatch {
                fields: *fields as nat,
                parts: *parts as nat,
            },
            Error::InvarianceViolation => ErrorView::InvarianceViolation,
            Error::AdditionalKeyFields(v) => ErrorView::AdditionalKeyFields(v@),
            Error::NewerVersionSeen => ErrorView::NewerVersionSeen,
            Error::VersionMismatch { latest, current } => ErrorView::VersionMismatch {
                latest: *latest,
                current: *current,
            },
            Error::SourceStateNotEnabled => ErrorView::SourceStateNotEnabled,
            Error::NoExportContext(id) => ErrorView::NoExportContext(*id),
            Error::TaskPanicked(t) => ErrorView::TaskPanicked(t@),
            Error::InvalidDbUrl => ErrorView::InvalidDbUrl,
            Error::UnsupportedProtocol(t) => ErrorView::UnsupportedProtocol(t@),
            Error::DuplicateTargetFactory(t) => ErrorView::DuplicateTargetFactory(t@),
        }
    }

    /// Whether the request conflicts with what another one has done: its
    /// answer has the status `409 Conflict`.
    pub fn is_conflict(&self) -> (r: bool)
        ensures
            r == (self@ is NewerVersionSeen || self@ is VersionMismatch),
    {
        match self {
            Error::NewerVersionSeen => true,
            Error::VersionMismatch { latest: _, current: _ } => true,
            _ => false,
        }
    }

    /// The message of the error.
    pub fn message(&self) -> (out: String)
        ensures
            out@ == message_text(self@),
    {
        match self {
            Error::FtsNotSupported => String::from_str(
                "FTS indexes are not supported for SurrealDB target yet",
            ),
            Error::FieldNotFound => String::from_str("field not found"),
            Error::DimensionNotFixed => String::from_str(
                "Vector index field must be a vector with fixed dimension",
            ),
            Error::UnsupportedElementType(t) => with_text(
                "Unsupported vector element type for SurrealDB: ",
                t.as_str(),
            ),
            Error::NotAVector(t) => with_text(
                "Vector index field must be a vector type, got: ",
                t.as_str(),
            ),
            Error::IvfFlatNotSupported => String::from_str(
                "IvfFlat vector index method is not supported for SurrealDB target",
            ),
            Error::InnerProductNotSupported => String::from_str(
                "InnerProduct vector metric is not supported for SurrealDB target yet",
            ),
            Error::KeyFieldsMismatch { fields, parts } => {
                let a: String = u64_text(*fields as u64);
                let b: String = u64_text(*parts as u64);
                let mut out: String = with_text("Key fields number mismatch: ", a.as_str());
                out.append(" vs ");
                out.append(b.as_str());
                out
            },
            Error::InvarianceViolation => String::from_str("Invariance violation"),
            Error::AdditionalKeyFields(v) => {
                let mut out: String = String::from_str("Expected additional key with 2 fields, got ");
                canonical_json(v, &mut out);
                out
            },
            Error::NewerVersionSeen => String::from_str(
                "seen newer version in the metadata table",
            ),
            Error::VersionMismatch { latest, current } => {
                let shown: String = match latest {
                    Some(n) => {
                        let d: String = u64_text(*n);
                        let mut t: String = with_text("Some(", d.as_str());
                        t.append(")");
                        t
                    },
                    None => String::from_str("None"),
                };
                let c: String = u64_text(*current);
                let mut out: String = with_text("seen newer version (", shown.as_str());
                out.append(") in the metadata table (");
                out.append(c.as_str());
                out.append(")");
                out
            },
            Error::SourceStateNotEnabled => String::from_str(
                "Source state table not enabled for this flow",
            ),
            Error::NoExportContext(target_id) => {
                let t: String = i64_text(*target_id as i64);
                with_text("No export context for target ", t.as_str())
            },
            Error::TaskPanicked(t) => with_text("Task panicked: ", t.as_str()),
            Error::InvalidDbUrl => String::from_str("Invalid DB url"),
            Error::UnsupportedProtocol(t) => with_text("Unsupported protocol: ", t.as_str()),
            Error::DuplicateTargetFactory(t) => with_text(
                "Duplicate target factory name: ",
                t.as_str(),
            ),
        }
    }
}

// ----------------------------------------------------------------------------- laws

/// Every refusal says what was refused, with what it was about.
pub proof fn law_messages_say_what_was_refused(e: ErrorView)
    ensures
        ({
            let t = message_text(e);
            match e {
                ErrorView::FtsNotSupported => t
                    == "FTS indexes are not supported for SurrealDB target yet"@,
                ErrorView::FieldNotFound => t == "field not found"@,
                ErrorView::DimensionNotFixed => t
                    == "Vector index field must be a vector with fixed dimension"@,
                ErrorView::UnsupportedElementType(x) => t
                    == "Unsupported vector element type for SurrealDB: "@ + x,
                ErrorView::NotAVector(x) => t
                    == "Vector index field must be a vector type, got: "@ + x,
                ErrorView::IvfFlatNotSupported => t
                    == "IvfFlat vector index method is not supported for SurrealDB target"@,
                ErrorView::InnerProductNotSupported => t
                    == "InnerProduct vector metric is not supported for SurrealDB target yet"@,
                ErrorView::KeyFieldsMismatch { fields, parts } => t
                    == "Key fields number mismatch: "@ + decimal(fields) + " vs "@ + decimal(parts),
                ErrorView::InvarianceViolation => t == "Invariance violation"@,
                ErrorView::AdditionalKeyFields(v) => t
                    == "Expected additional key with 2 fields, got "@ + canonical(v),
                ErrorView::NewerVersionSeen => t == "seen newer version in the metadata table"@,
                ErrorView::VersionMismatch { latest: None, current } => t
                    == "seen newer version ("@ + "None"@ + ") in the metadata table ("@ + decimal(
                    current as nat,
                ) + ")"@,
                ErrorView::VersionMismatch { latest: Some(n), current } => t
                    == "seen newer version ("@ + ("Some("@ + decimal(n as nat) + ")"@)
                    + ") in the metadata table ("@ + decimal(current as nat) + ")"@,
                ErrorView::SourceStateNotEnabled => t
                    == "Source state table not enabled for this flow"@,
                ErrorView::NoExportContext(id) => t == "No export context for target "@
                    + decimal_int(id as int),
                ErrorView::TaskPanicked(x) => t == "Task panicked: "@ + x,
                ErrorView::InvalidDbUrl => t == "Invalid DB url"@,
                ErrorView::UnsupportedProtocol(x) => t == "Unsupported protocol: "@ + x,
                ErrorView::DuplicateTargetFactory(x) => t == "Duplicate target factory name: "@ + x,
            }
        }),
{
}

/// An error is known by its kind and by what it is about.
pub proof fn law_errors_are_known_by_their_kind(e: Error)
    ensures
        match e {
            Error::FtsNotSupported => e@ is FtsNotSupported,
            Error::FieldNotFound => e@ is FieldNotFound,
            Error::DimensionNotFixed => e@ is DimensionNotFixed,
            Error::UnsupportedElementType(t) => e@ == ErrorView::UnsupportedElementType(t@),
            Error::NotAVector(t) => e@ == ErrorView::NotAVector(t@),
            Error::IvfFlatNotSupported => e@ is IvfFlatNotSupported,
            Error::InnerProductNotSupported => e@ is InnerProductNotSupported,
            Error::KeyFieldsMismatch { fields, parts } => e@ == (ErrorView::KeyFieldsMismatch {
                fields: fields as nat,
                parts: parts as nat,
            }),
            Error::InvarianceViolation => e@ is InvarianceViolation,
            Error::AdditionalKeyFields(v) => e@ == ErrorView::AdditionalKeyFields(v@),
            Error::NewerVersionSeen => e@ is NewerVersionSeen,
            Error::VersionMismatch { latest, current } => e@ == (ErrorView::VersionMismatch {
                latest,
                current,
            }),
            Error::SourceStateNotEnabled => e@ is SourceStateNotEnabled,
            Error::NoExportContext(id) => e@ == ErrorView::NoExportContext(id),
            Error::TaskPanicked(t) => e@ == ErrorView::TaskPanicked(t@),
            Error::InvalidDbUrl => e@ is InvalidDbUrl,
            Error::UnsupportedProtocol(t) => e@ == ErrorView::UnsupportedProtocol(t@),
            Error::DuplicateTargetFactory(t) => e@ == ErrorView::DuplicateTargetFactory(t@),
        },
{
}

} // verus!
