//! Incremental manifest ingestion.
//!
//! Manifests are a bounded JSON subset: top-level objects with string
//! keys and string / integer / boolean / nested values, depth ≤ 4,
//! documents ≤ 512 bytes. Two phases: [`ManifestScanner`] validates
//! structure incrementally over chunk views (bounded state crosses each
//! call); extraction reads typed pairs from the staged bytes of a complete
//! document.
//!
//! Unicode escapes (`\uXXXX`) are rejected by design; integers are
//! ±99999; only `\"`, `\\`, `\n`, `\t` escapes survive.

use vstd::prelude::*;

use crate::error::{ErrorView, IngestError};
use crate::language::nest::{
    lemma_nest_scan_split, nest_scan, nest_start, scan_verdict, NestView, EXPECT_DONE,
    EXPECT_VALUE, SCAN_COMPLETE, SCAN_MALFORMED, SCAN_TRUNCATED,
};
use crate::language::pairs::{
    doc_pairs, pair_count_of, pair_error, typed_pair, PairSpan, PairView, DOC_BYTES,
};
use crate::language::LanguageRuntime;
use crate::text::{decimal, decimal_i64, decimal_int, decimal_u64};

verus! {

/// Scanner state: depth, the kinds of the open containers, what is
/// expected next, and the string / escape / scalar flags.
#[derive(Debug, Clone, Copy, PartialEq, Eq)]
pub struct NestState {
    pub depth: u64,
    pub stack: [u64; 4],
    pub expect: u64,
    pub in_string: bool,
    pub esc: bool,
    pub max_depth: u64,
    pub seen_value: bool,
    pub in_literal: bool,
    pub after_comma: bool,
}

impl Default for NestState {
    fn default() -> (r: Self)
        ensures
            r@ == nest_start(),
    {
        let r = NestState {
            depth: 0,
            stack: [0, 0, 0, 0],
            expect: EXPECT_VALUE,
            in_string: false,
            esc: false,
            max_depth: 0,
            seen_value: false,
            in_literal: false,
            after_comma: false,
        };
        assert(r@.stack =~= seq![0u64, 0u64, 0u64, 0u64]);
        r
    }
}

/// One scan step verdict.
#[derive(Debug, Clone, Copy, PartialEq, Eq)]
pub struct ScanVerdict {
    /// 0 ok-so-far, 1 complete, 2 truncated, 3 malformed.
    pub status: i64,
    pub state: NestState,
    pub position: u64,
    pub consumed: u64,
}

/// Typed manifest value.
#[derive(Debug, Clone, PartialEq, Eq)]
pub enum ManifestValue {
    Str(Vec<u8>),
    Int(i64),
    Bool(bool),
    /// Opaque span (start, len) into the document; re-stageable.
    Nested { start: u64, len: u64 },
}

/// One extracted pair with source spans.
#[derive(Debug, PartialEq, Eq)]
pub struct ManifestPair {
    pub key: Vec<u8>,
    pub key_span: (u64, u64),
    pub value: ManifestValue,
    pub value_span: (u64, u64),
}

impl Clone for ManifestPair {
    fn clone(&self) -> Self {
        ManifestPair {
            key: self.key.clone(),
            key_span: (self.key_span.0, self.key_span.1),
            value: self.value.clone(),
            value_span: (self.value_span.0, self.value_span.1),
        }
    }
}

pub struct ManifestScanner {
    state: NestState,
    base: u64,
}

/// The state of a [`ManifestScanner`]: the scanner state and the number of
/// bytes it has taken.
pub ghost struct ScannerView {
    pub state: NestView,
    pub base: nat,
}

impl ManifestScanner {
    pub closed spec fn view(&self) -> ScannerView {
        ScannerView { state: self.state@, base: self.base as nat }
    }

    pub fn new() -> (r: Self)
        ensures
            r.view() == (ScannerView { state: nest_start(), base: 0 }),
    {
        ManifestScanner { state: NestState::default(), base: 0 }
    }

    /// Scan one chunk view; at end-of-input pass `eof` with an empty view
    /// to finalize. Returns the verdict; state advances internally.
    pub fn scan(&mut self, rt: &LanguageRuntime, view: &[u8], eof: bool) -> (r: Result<
        ScanVerdict,
        IngestError,
    >)
        requires
            old(self).view().base + view@.len() <= u64::MAX,
        ensures
            ({
                let v = scan_verdict(old(self).view().state, view@, old(self).view().base, eof);
                &&& r matches Ok(out) && out.describes(v)
                &&& final(self).view() == ScannerView {
                    state: v.state,
                    base: old(self).view().base + v.consumed,
                }
            }),
    {
        let out = rt.scan_chunk(&self.state, view, self.base, eof)?;
        self.base = self.base + out.consumed;
        self.state = out.state;
        Ok(out)
    }
}

impl Default for ManifestScanner {
    fn default() -> (r: Self)
        ensures
            r.view() == (ScannerView { state: nest_start(), base: 0 }),
    {
        Self::new()
    }
}

/// Bound on the number of pairs extracted from one document.
pub const MAX_PAIRS: i64 = 64;

pub open spec fn structure_error(position: nat) -> ErrorView {
    ErrorView::Malformed {
        adapter: "manifest"@,
        detail: "malformed structure at byte "@ + decimal(position),
    }
}

pub open spec fn truncated_error(position: nat) -> ErrorView {
    ErrorView::Malformed {
        adapter: "manifest"@,
        detail: "truncated document at byte "@ + decimal(position),
    }
}

/// The typed pairs at `ps[k..]`, after `acc`; the first refused pair
/// decides the error.
pub open spec fn typed_pairs_from(doc: Seq<u8>, ps: Seq<PairSpan>, k: nat, acc: Seq<PairView>) -> Result<
    Seq<PairView>,
    ErrorView,
>
    decreases ps.len() - k,
{
    if k >= ps.len() {
        Ok(acc)
    } else {
        match typed_pair(doc, ps[k as int]) {
            Err(status) => Err(pair_error(status, k)),
            Ok(p) => typed_pairs_from(doc, ps, k + 1, acc.push(p)),
        }
    }
}

/// What extracting every pair of a complete document yields.
pub open spec fn extract_spec(doc: Seq<u8>) -> Result<Seq<PairView>, ErrorView> {
    if doc.len() > DOC_BYTES {
        Err(ErrorView::Overlong { adapter: "manifest"@, detail: "document exceeds 512 bytes"@ })
    } else {
        let count = pair_count_of(doc);
        if count < 0 || count > MAX_PAIRS {
            Err(ErrorView::Language("pair_count out of range: "@ + decimal_int(count)))
        } else {
            typed_pairs_from(doc, doc_pairs(doc).unwrap(), 0, seq![])
        }
    }
}

/// What ingesting a manifest yields: the first malformed byte of its
/// structure, or its truncation, or its typed pairs.
pub open spec fn manifest_spec(doc: Seq<u8>) -> Result<Seq<PairView>, ErrorView> {
    let r = nest_scan(nest_start(), doc);
    match r.failed_at {
        Some(p) => Err(structure_error(p)),
        None => if r.state.expect == EXPECT_DONE {
            extract_spec(doc)
        } else {
            Err(truncated_error(doc.len()))
        },
    }
}

pub open spec fn pairs_view(v: Seq<ManifestPair>) -> Seq<PairView> {
    v.map_values(|p: ManifestPair| p@)
}

fn manifest_error(what: &str, position: u64) -> (r: IngestError)
    ensures
        r@ == (ErrorView::Malformed { adapter: "manifest"@, detail: what@ + decimal(position as nat) }),
{
    let mut detail = String::from_str(what);
    let number = decimal_u64(position);
    detail.append(number.as_str());
    IngestError::malformed("manifest", detail.as_str())
}

/// Validate a whole document through chunk views of `width`, then
/// extract all pairs. What comes out does not depend on `width`.
pub fn ingest_manifest(rt: &LanguageRuntime, doc: &[u8], width: usize) -> (r: Result<
    Vec<ManifestPair>,
    IngestError,
>)
    ensures
        match manifest_spec(doc@) {
            Ok(ps) => r matches Ok(v) && pairs_view(v@) == ps,
            Err(e) => r matches Err(x) && x@ == e,
        },
{
    let mut scanner = ManifestScanner::new();
    let width = if width == 0 {
        1
    } else {
        width
    };
    let ghost start = nest_start();
    let mut off: usize = 0;
    assert(doc@.take(0) =~= seq![]);
    while off < doc.len()
        invariant
            start == nest_start(),
            width >= 1,
            off <= doc@.len(),
            nest_scan(start, doc@.take(off as int)).failed_at is None,
            scanner.view() == (ScannerView {
                state: nest_scan(start, doc@.take(off as int)).state,
                base: off as nat,
            }),
        decreases doc@.len() - off,
    {
        let end: usize = if doc.len() - off > width {
            off + width
        } else {
            doc.len()
        };
        let view = &doc[off..end];
        proof {
            assert(doc@.take(off as int) + view@ =~= doc@.take(end as int));
            lemma_nest_scan_split(start, doc@.take(off as int), view@);
        }
        let verdict = scanner.scan(rt, view, false)?;
        if verdict.status == SCAN_MALFORMED {
            proof {
                assert(doc@.take(end as int) + doc@.skip(end as int) =~= doc@);
                lemma_nest_scan_split(start, doc@.take(end as int), doc@.skip(end as int));
            }
            return Err(manifest_error("malformed structure at byte ", verdict.position));
        }
        off = end;
    }
    let empty: [u8; 0] = [];
    proof {
        assert(doc@.take(off as int) =~= doc@);
        assert(empty@ =~= seq![]);
    }
    let verdict = scanner.scan(rt, &empty, true)?;
    if verdict.status == SCAN_COMPLETE {
        extract_all(rt, doc)
    } else if verdict.status == SCAN_TRUNCATED {
        Err(manifest_error("truncated document at byte ", verdict.position))
    } else {
        Err(manifest_error("malformed structure at byte ", verdict.position))
    }
}

/// Extract every pair of a complete document.
fn extract_all(rt: &LanguageRuntime, doc: &[u8]) -> (r: Result<Vec<ManifestPair>, IngestError>)
    ensures
        match extract_spec(doc@) {
            Ok(ps) => r matches Ok(v) && pairs_view(v@) == ps,
            Err(e) => r matches Err(x) && x@ == e,
        },
{
    if doc.len() > DOC_BYTES {
        return Err(crate::error::overlong("manifest", "document exceeds 512 bytes"));
    }
    let count = rt.pair_count(doc)?;
    if count < 0 || count > MAX_PAIRS {
        let mut detail = String::from_str("pair_count out of range: ");
        let number = decimal_i64(count);
        detail.append(number.as_str());
        return Err(crate::error::language(detail.as_str()));
    }
    let ghost ps = doc_pairs(doc@).unwrap();
    let mut pairs: Vec<ManifestPair> = Vec::new();
    let mut index: u64 = 0;
    assert(pairs_view(pairs@) =~= seq![]);
    while index < count as u64
        invariant
            doc@.len() <= DOC_BYTES,
            0 <= count <= MAX_PAIRS,
            doc_pairs(doc@) == Some(ps),
            count == ps.len(),
            index <= count,
            typed_pairs_from(doc@, ps, index as nat, pairs_view(pairs@)) == extract_spec(doc@),
        decreases count - index,
    {
        let pair = rt.pair_at(doc, index)?;
        let ghost before = pairs_view(pairs@);
        let ghost pv = pair@;
        pairs.push(pair);
        assert(pairs_view(pairs@) =~= before.push(pv));
        index = index + 1;
    }
    Ok(pairs)
}

} // verus!
