//! Ingest envelopes: content identity + provenance.
//!
//! An envelope binds three things that must never collapse into each
//! other:
//!
//! - `source_id`: sha256 over the exact raw source bytes (replay key);
//! - `normalized_digest`: sha256 over the canonical record bytes (meaning
//!   identity — chunking-independent by construction);
//! - `provenance`: adapter, interpreter, spans, confidence (audit trail).
//!
//! Identical normalized values from different sources share the digest
//! and keep their own source ids and provenance. Raw source is never part
//! of canonical identity.

use vstd::prelude::*;
use vstd::string::*;

use crate::canonical::hex;
use crate::digest::{sha256, sha256_digest};
use crate::error::{overlong, ErrorView, IngestError};
use crate::ir::{Provenance, ProvenanceView};
use crate::language::LanguageRuntime;
use crate::text::hex_of;

verus! {

pub const ENVELOPE_SCHEMA: &'static str = "mncs-ingest/envelope-v1";

/// The unit separator joining record fields.
pub const UNIT_SEPARATOR: u8 = 0x1f;

/// Fields joined with the unit separator.
pub open spec fn join_fields(fields: Seq<Seq<u8>>) -> Seq<u8>
    decreases fields.len(),
{
    if fields.len() == 0 {
        seq![]
    } else if fields.len() == 1 {
        fields[0]
    } else {
        join_fields(fields.drop_last()) + seq![UNIT_SEPARATOR] + fields.last()
    }
}

/// Canonical record bytes: fields joined with UNIT SEPARATOR (0x1F).
/// The separator cannot appear in field values (controls are rejected
/// upstream), so joining is injective.
pub fn canonical_record_bytes(fields: &[Vec<u8>]) -> (r: Vec<u8>)
    ensures
        r@ == join_fields(fields@.map_values(|f: Vec<u8>| f@)),
{
    let ghost fv = fields@.map_values(|f: Vec<u8>| f@);
    let mut out: Vec<u8> = Vec::new();
    let mut index: usize = 0;
    while index < fields.len()
        invariant
            index <= fields@.len(),
            fv == fields@.map_values(|f: Vec<u8>| f@),
            out@ == join_fields(fv.take(index as int)),
        decreases fields@.len() - index,
    {
        if index > 0 {
            out.push(UNIT_SEPARATOR);
        }
        let field = &fields[index];
        let mut k: usize = 0;
        let ghost before = out@;
        while k < field.len()
            invariant
                k <= field@.len(),
                out@ == before + field@.take(k as int),
            decreases field@.len() - k,
        {
            out.push(field[k]);
            assert(field@.take(k + 1) =~= field@.take(k as int).push(field@[k as int]));
            k += 1;
        }
        proof {
            assert(field@.take(field@.len() as int) =~= field@);
            let next = fv.take(index + 1);
            assert(next.drop_last() =~= fv.take(index as int));
            if index == 0 {
                assert(out@ =~= join_fields(next));
            } else {
                assert(out@ =~= join_fields(next));
            }
        }
        index += 1;
    }
    assert(fv.take(fields@.len() as int) =~= fv);
    out
}

pub open spec fn no_separator(field: Seq<u8>) -> bool {
    forall|i: int| 0 <= i < field.len() ==> field[i] != UNIT_SEPARATOR
}

proof fn lemma_join_len(fields: Seq<Seq<u8>>)
    requires
        fields.len() >= 2,
    ensures
        join_fields(fields).len() == join_fields(fields.drop_last()).len() + 1 + fields.last().len(),
        join_fields(fields)[join_fields(fields.drop_last()).len() as int] == UNIT_SEPARATOR,
{
}

/// Joining is injective on non-empty field lists whose fields hold no
/// unit separator: equal canonical record bytes mean equal fields.
pub proof fn lemma_join_injective(a: Seq<Seq<u8>>, b: Seq<Seq<u8>>)
    requires
        a.len() >= 1,
        b.len() >= 1,
        forall|i: int| 0 <= i < a.len() ==> no_separator(#[trigger] a[i]),
        forall|i: int| 0 <= i < b.len() ==> no_separator(#[trigger] b[i]),
        join_fields(a) == join_fields(b),
    ensures
        a == b,
    decreases a.len() + b.len(),
{
    let j = join_fields(a);
    if a.len() == 1 && b.len() == 1 {
        assert(a =~= b);
    } else if a.len() == 1 {
        lemma_join_len(b);
        assert(no_separator(a[0]));
        assert(j[join_fields(b.drop_last()).len() as int] == UNIT_SEPARATOR);
        assert(false);
    } else if b.len() == 1 {
        lemma_join_len(a);
        assert(no_separator(b[0]));
        assert(j[join_fields(a.drop_last()).len() as int] == UNIT_SEPARATOR);
        assert(false);
    } else {
        lemma_join_len(a);
        lemma_join_len(b);
        let la = a.last();
        let lb = b.last();
        let ja = join_fields(a.drop_last());
        let jb = join_fields(b.drop_last());
        assert(no_separator(la));
        assert(no_separator(lb));
        if la.len() < lb.len() {
            let pos = ja.len() as int;
            assert(j[pos] == UNIT_SEPARATOR);
            let off = pos - (jb.len() + 1);
            assert(0 <= off < lb.len());
            assert(j[pos] == lb[off]);
            assert(false);
        }
        if lb.len() < la.len() {
            let pos = jb.len() as int;
            assert(j[pos] == UNIT_SEPARATOR);
            let off = pos - (ja.len() + 1);
            assert(0 <= off < la.len());
            assert(j[pos] == la[off]);
            assert(false);
        }
        assert(la =~= lb) by {
            assert forall|k: int| 0 <= k < la.len() implies la[k] == lb[k] by {
                assert(j[ja.len() + 1 + k] == la[k]);
                assert(j[jb.len() + 1 + k] == lb[k]);
            }
        }
        assert(ja =~= jb) by {
            assert forall|k: int| 0 <= k < ja.len() implies ja[k] == jb[k] by {
                assert(j[k] == ja[k]);
                assert(j[k] == jb[k]);
            }
        }
        assert forall|i: int| 0 <= i < a.drop_last().len() implies no_separator(
            #[trigger] a.drop_last()[i],
        ) by {
            assert(a.drop_last()[i] == a[i]);
        }
        assert forall|i: int| 0 <= i < b.drop_last().len() implies no_separator(
            #[trigger] b.drop_last()[i],
        ) by {
            assert(b.drop_last()[i] == b[i]);
        }
        lemma_join_injective(a.drop_last(), b.drop_last());
        assert(a =~= a.drop_last().push(la));
        assert(b =~= b.drop_last().push(lb));
    }
}

#[derive(Debug, Clone, PartialEq, Eq)]
pub struct IngestEnvelope {
    pub schema: String,
    pub source_id: String,
    pub normalized_digest: [u8; 32],
    pub provenance: Provenance,
}

impl IngestEnvelope {
    pub fn digest_hex(&self) -> (r: String)
        ensures
            r@ == hex_of(self.normalized_digest@),
    {
        hex(&self.normalized_digest)
    }
}

pub fn source_id_of(raw: &[u8]) -> (r: String)
    ensures
        r@ == hex_of(sha256(raw@)),
{
    let digest = sha256_digest(raw);
    hex(&digest)
}

impl LanguageRuntime {
    /// SHA-256 of a canonical record of at most 256 bytes.
    pub fn digest_record(&self, canonical: &[u8]) -> (r: Result<[u8; 32], IngestError>)
        ensures
            canonical@.len() <= 256 ==> (r matches Ok(d) && d@ == sha256(canonical@)),
            canonical@.len() > 256 ==> (r matches Err(e) && e@ == (ErrorView::Overlong {
                adapter: "envelope"@,
                detail: "canonical record exceeds 256 bytes"@,
            })),
    {
        if canonical.len() > 256 {
            return Err(overlong("envelope", "canonical record exceeds 256 bytes"));
        }
        Ok(sha256_digest(canonical))
    }
}

/// Seal canonical bytes into an envelope: the digest identifies meaning,
/// the source id identifies raw source, provenance travels alongside.
pub fn seal(
    rt: &LanguageRuntime,
    canonical: &[u8],
    raw: &[u8],
    provenance: Provenance,
) -> (r: Result<IngestEnvelope, IngestError>)
    ensures
        canonical@.len() > 256 ==> (r matches Err(e) && e@ == (ErrorView::Overlong {
            adapter: "envelope"@,
            detail: "canonical record exceeds 256 bytes"@,
        })),
        canonical@.len() <= 256 ==> (r matches Ok(env) && env.schema@ == ENVELOPE_SCHEMA@
            && env.source_id@ == hex_of(sha256(raw@)) && env.normalized_digest@ == sha256(
            canonical@,
        ) && env.provenance@ == provenance@),
{
    if canonical.len() > 256 {
        return Err(overlong("envelope", "canonical record exceeds 256 bytes"));
    }
    let digest = rt.digest_record(canonical)?;
    Ok(
        IngestEnvelope {
            schema: String::from_str(ENVELOPE_SCHEMA),
            source_id: source_id_of(raw),
            normalized_digest: digest,
            provenance,
        },
    )
}

} // verus!
