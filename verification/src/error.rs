//! Controlled ingest errors.
//!
//! Every failure mode is an explicit variant. Ingest never panics on input
//! data and never silently drops information: unsupported or malformed input
//! becomes a typed error, while merely incomplete input becomes an explicit
//! unknown inside an otherwise valid fragment.

use vstd::prelude::*;

verus! {

#[derive(Debug, PartialEq, Eq)]
pub enum IngestError {
    Malformed { adapter: String, detail: String },
    Unsupported { adapter: String, detail: String },
    MissingField { adapter: String, field: String },
    UnexpectedField { adapter: String, field: String },
    ConflictingFields { adapter: String, detail: String },
    Overlong { adapter: String, detail: String },
    SchemaMismatch { expected: String, got: String },
    Language(String),
    Consumer(String),
}

/// The mathematical content of an [`IngestError`]: the variant with the
/// scalar values of each text field.
pub ghost enum ErrorView {
    Malformed { adapter: Seq<char>, detail: Seq<char> },
    Unsupported { adapter: Seq<char>, detail: Seq<char> },
    MissingField { adapter: Seq<char>, field: Seq<char> },
    UnexpectedField { adapter: Seq<char>, field: Seq<char> },
    ConflictingFields { adapter: Seq<char>, detail: Seq<char> },
    Overlong { adapter: Seq<char>, detail: Seq<char> },
    SchemaMismatch { expected: Seq<char>, got: Seq<char> },
    Language(Seq<char>),
    Consumer(Seq<char>),
}

impl View for IngestError {
    type V = ErrorView;

    open spec fn view(&self) -> ErrorView {
        match self {
            IngestError::Malformed { adapter, detail } => ErrorView::Malformed {
                adapter: adapter@,
                detail: detail@,
            },
            IngestError::Unsupported { adapter, detail } => ErrorView::Unsupported {
                adapter: adapter@,
                detail: detail@,
            },
            IngestError::MissingField { adapter, field } => ErrorView::MissingField {
                adapter: adapter@,
                field: field@,
            },
            IngestError::UnexpectedField { adapter, field } => ErrorView::UnexpectedField {
                adapter: adapter@,
                field: field@,
            },
            IngestError::ConflictingFields { adapter, detail } => ErrorView::ConflictingFields {
                adapter: adapter@,
                detail: detail@,
            },
            IngestError::Overlong { adapter, detail } => ErrorView::Overlong {
                adapter: adapter@,
                detail: detail@,
            },
            IngestError::SchemaMismatch { expected, got } => ErrorView::SchemaMismatch {
                expected: expected@,
                got: got@,
            },
            IngestError::Language(text) => ErrorView::Language(text@),
            IngestError::Consumer(text) => ErrorView::Consumer(text@),
        }
    }
}

impl IngestError {
    pub fn malformed(adapter: &str, detail: &str) -> (r: Self)
        ensures
            r@ == (ErrorView::Malformed { adapter: adapter@, detail: detail@ }),
    {
        IngestError::Malformed { adapter: adapter.to_owned(), detail: detail.to_owned() }
    }

    pub fn unsupported(adapter: &str, detail: &str) -> (r: Self)
        ensures
            r@ == (ErrorView::Unsupported { adapter: adapter@, detail: detail@ }),
    {
        IngestError::Unsupported { adapter: adapter.to_owned(), detail: detail.to_owned() }
    }

    pub fn missing_field(adapter: &str, field: &str) -> (r: Self)
        ensures
            r@ == (ErrorView::MissingField { adapter: adapter@, field: field@ }),
    {
        IngestError::MissingField { adapter: adapter.to_owned(), field: field.to_owned() }
    }
}

/// An overlong-input error for `adapter` with the given detail.
pub fn overlong(adapter: &str, detail: &str) -> (r: IngestError)
    ensures
        r@ == (ErrorView::Overlong { adapter: adapter@, detail: detail@ }),
{
    IngestError::Overlong { adapter: adapter.to_owned(), detail: detail.to_owned() }
}

/// A language-policy error with the given detail.
pub fn language(detail: &str) -> (r: IngestError)
    ensures
        r@ == ErrorView::Language(detail@),
{
    IngestError::Language(detail.to_owned())
}

} // verus!
