//! Downstream consumer handoff.
//!
//! The handoff is one canonical fragment in, one receipt out. The consumer
//! sees versioned atoms, relations, unknowns, and provenance — never
//! adapters, policy internals, or ingest configuration. Retention,
//! contradiction, reinforcement, retrieval, and every other memory/model
//! policy live downstream; this module proves the boundary, not the
//! policy. [`EchoConsumer`] is the decoupling test double.

use vstd::prelude::*;
use vstd::string::*;
use vstd::utf8::*;

use crate::canonical::{hex, signal_id_spec};
use crate::digest::{sha256, sha256_digest};
use crate::error::{ErrorView, IngestError};
use crate::ir::{
    canonical_text, copy_fragment, semantically_equal_spec, Fragment, FragmentView,
    FRAGMENT_SCHEMA_VERSION,
};
use crate::text::{hex_of, lemma_hex_injective, str_eq};

verus! {

/// What a downstream system must accept without importing ingest policy.
pub trait FragmentConsumer {
    fn accept(&mut self, fragment: &Fragment) -> Result<ConsumerReceipt, IngestError>;
}

/// Deterministic receipt for one accepted fragment.
#[derive(Debug, Clone, PartialEq, Eq)]
pub struct ConsumerReceipt {
    pub signal_id: String,
    pub semantic_hash: String,
    pub atom_count: usize,
    pub relation_count: usize,
    pub unknown_count: usize,
}

pub ghost struct ReceiptView {
    pub signal_id: Seq<char>,
    pub semantic_hash: Seq<char>,
    pub atom_count: nat,
    pub relation_count: nat,
    pub unknown_count: nat,
}

impl View for ConsumerReceipt {
    type V = ReceiptView;

    open spec fn view(&self) -> ReceiptView {
        ReceiptView {
            signal_id: self.signal_id@,
            semantic_hash: self.semantic_hash@,
            atom_count: self.atom_count as nat,
            relation_count: self.relation_count as nat,
            unknown_count: self.unknown_count as nat,
        }
    }
}

/// The receipt of a fragment: its signal id, the hex sha256 of its
/// canonical bytes, and its atom, relation and unknown counts.
pub open spec fn receipt_spec(f: FragmentView) -> ReceiptView {
    ReceiptView {
        signal_id: f.provenance.signal_id,
        semantic_hash: hex_of(sha256(encode_utf8(canonical_text(f)))),
        atom_count: f.atoms.len(),
        relation_count: f.relations.len(),
        unknown_count: f.unknowns.len(),
    }
}

pub fn receipt_for(fragment: &Fragment) -> (r: ConsumerReceipt)
    ensures
        r@ == receipt_spec(fragment@),
{
    let bytes = fragment.canonical_bytes();
    let digest = sha256_digest(bytes.as_slice());
    ConsumerReceipt {
        signal_id: fragment.provenance.signal_id.clone(),
        semantic_hash: hex(&digest),
        atom_count: fragment.atoms.len(),
        relation_count: fragment.relations.len(),
        unknown_count: fragment.unknowns.len(),
    }
}

/// Receipts follow semantics, not provenance: semantically equal
/// fragments receive the same semantic hash.
pub proof fn lemma_receipts_follow_semantics(a: FragmentView, b: FragmentView)
    requires
        semantically_equal_spec(a, b),
    ensures
        receipt_spec(a).semantic_hash == receipt_spec(b).semantic_hash,
{
    assert(canonical_text(a) == canonical_text(b));
}

/// A receipt's semantic hash is the signal identity (lower-case hex
/// SHA-256) of the fragment's canonical bytes, the bytes that
/// `Fragment::canonical_bytes` returns; so two receipts carry the same
/// semantic hash exactly when the SHA-256 digests of the two fragments'
/// canonical bytes are equal.
pub proof fn lemma_receipt_hash_is_canonical_digest(a: FragmentView, b: FragmentView)
    ensures
        receipt_spec(a).semantic_hash == signal_id_spec(encode_utf8(canonical_text(a))),
        receipt_spec(a).semantic_hash == receipt_spec(b).semantic_hash <==> sha256(
            encode_utf8(canonical_text(a)),
        ) == sha256(encode_utf8(canonical_text(b))),
{
    let da = sha256(encode_utf8(canonical_text(a)));
    let db = sha256(encode_utf8(canonical_text(b)));
    if hex_of(da) == hex_of(db) {
        lemma_hex_injective(da, db);
    }
}

/// Test consumer: stores accepted fragments and returns receipts. It
/// performs no retention or reasoning policy of its own.
#[derive(Debug)]
pub struct EchoConsumer {
    received: Vec<Fragment>,
}

impl View for EchoConsumer {
    type V = Seq<FragmentView>;

    closed spec fn view(&self) -> Seq<FragmentView> {
        self.received@.map_values(|f: Fragment| f@)
    }
}

impl EchoConsumer {
    pub fn new() -> (r: Self)
        ensures
            r@ == Seq::<FragmentView>::empty(),
    {
        let r = EchoConsumer { received: Vec::new() };
        assert(r@ =~= Seq::<FragmentView>::empty());
        r
    }

    pub fn received(&self) -> (r: &[Fragment])
        ensures
            r@.map_values(|f: Fragment| f@) == self@,
    {
        self.received.as_slice()
    }
}

impl Default for EchoConsumer {
    fn default() -> (r: Self)
        ensures
            r@ == Seq::<FragmentView>::empty(),
    {
        EchoConsumer::new()
    }
}

impl FragmentConsumer for EchoConsumer {
    fn accept(&mut self, fragment: &Fragment) -> (r: Result<ConsumerReceipt, IngestError>)
        ensures
            fragment@.schema == FRAGMENT_SCHEMA_VERSION@ ==> (r matches Ok(receipt) && receipt@
                == receipt_spec(fragment@) && final(self)@ == old(self)@.push(fragment@)),
            fragment@.schema != FRAGMENT_SCHEMA_VERSION@ ==> (r matches Err(e) && e@
                == (ErrorView::SchemaMismatch {
                expected: FRAGMENT_SCHEMA_VERSION@,
                got: fragment@.schema,
            }) && final(self)@ == old(self)@),
    {
        if !str_eq(fragment.schema.as_str(), FRAGMENT_SCHEMA_VERSION) {
            return Err(
                IngestError::SchemaMismatch {
                    expected: String::from_str(FRAGMENT_SCHEMA_VERSION),
                    got: fragment.schema.clone(),
                },
            );
        }
        let receipt = receipt_for(fragment);
        let copy = copy_fragment(fragment);
        self.received.push(copy);
        assert(self@ =~= old(self)@.push(fragment@));
        Ok(receipt)
    }
}

} // verus!
