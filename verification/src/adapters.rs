//! Adapter boundary: source-specific interpretation in, canonical facts out.
//!
//! Each adapter owns its source representation and nothing else. All three
//! obey one contract: extract fields through transport-appropriate means,
//! decide meaning through the policy verdicts of [`LanguageRuntime`], and
//! return [`Ingested`] with full provenance. Adapters never implement
//! retention, retrieval, or any other downstream policy.

pub mod native;
pub mod structured;
pub mod text;

pub use native::{NativeAdapter, NativeTransfer};
pub use structured::StructuredAdapter;
pub use text::TextAdapter;

use vstd::prelude::*;

use crate::canonical::{FactsView, Ingested};
use crate::error::{ErrorView, IngestError};
use crate::ir::{AdapterKind, FragmentView};
use crate::language::LanguageRuntime;

verus! {

/// The adapter contract. `Input` differs per source (text takes the raw
/// sentence, structured takes JSON bytes, native takes typed values) but
/// the output contract is one canonical form.
pub trait Adapter {
    type Input<'a>;

    fn kind(&self) -> AdapterKind;

    fn ingest(&self, rt: &LanguageRuntime, input: Self::Input<'_>) -> Result<Ingested, IngestError>;
}

/// The mathematical content of an ingest outcome.
pub open spec fn outcome(r: Result<Ingested, IngestError>) -> Result<(FragmentView, FactsView), ErrorView> {
    match r {
        Ok(ingested) => Ok((ingested.fragment@, ingested.facts@)),
        Err(e) => Err(e@),
    }
}

} // verus!
