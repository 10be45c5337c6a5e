//! Canonical fragment assembly and semantic equality over canonical facts.
//!
//! Layout policy for schema v1 is positional:
//!
//! ```text
//! atom 0: event    "transfer"
//! atom 1: entity   <source spelling>
//! atom 2: entity   <target spelling>
//! atom 3: object   <canonical singular> | unknown <source spelling>
//! atom 4: quantity <decimal>            | absent when not given
//! ```
//!
//! Semantic equality over the facts ([`mncs_equal`]) compares canonical
//! codes and spellings; the semantic key of the fragment is the host-side
//! transport form of the same meaning.

use vstd::prelude::*;
use vstd::string::*;
use vstd::utf8::*;

use crate::digest::{sha256, sha256_digest};
use crate::error::IngestError;
use crate::ir::{
    atom_bodies, atom_body, key_lines, lemma_atom_body_decodes, lemma_equal_keys_equal_lines,
    semantic_key_of, semantically_equal_spec, AdapterKind, Atom, AtomKind, AtomView, Confidence,
    Fragment, FragmentView, Provenance, ProvenanceView, Relation, Role, Span, SpanView,
    EVENT_TRANSFER, FRAGMENT_SCHEMA_VERSION,
};
use crate::language::{codes_equal_spec, LanguageRuntime};
use crate::text::{decimal_i64, decimal_int, hex_of, lossy_string, utf8_lossy};

verus! {

/// Canonical facts: the exact inputs to semantic equality. Kept next to
/// the fragment through the ingest pipeline; the consumer handoff carries
/// the fragment alone.
#[derive(Debug, Clone, PartialEq, Eq)]
pub struct CanonicalFacts {
    pub event: i64,
    pub source: Vec<u8>,
    pub target: Vec<u8>,
    pub object_code: i64,
    pub object_spelling: Vec<u8>,
    pub quantity: Option<i64>,
}

pub ghost struct FactsView {
    pub event: i64,
    pub source: Seq<u8>,
    pub target: Seq<u8>,
    pub object_code: i64,
    pub object_spelling: Seq<u8>,
    pub quantity: Option<i64>,
}

impl View for CanonicalFacts {
    type V = FactsView;

    open spec fn view(&self) -> FactsView {
        FactsView {
            event: self.event,
            source: self.source@,
            target: self.target@,
            object_code: self.object_code,
            object_spelling: self.object_spelling@,
            quantity: self.quantity,
        }
    }
}

/// A fragment plus the facts that prove it.
#[derive(Debug, Clone)]
pub struct Ingested {
    pub fragment: Fragment,
    pub facts: CanonicalFacts,
}

/// Canonical singular spelling of a known object code.
pub open spec fn object_label_spec(code: i64) -> Option<Seq<char>> {
    if code == 1 {
        Some("apple"@)
    } else if code == 2 {
        Some("orange"@)
    } else {
        None
    }
}

/// Render a canonical object code to its singular spelling.
pub fn object_label(code: i64) -> (r: Option<&'static str>)
    ensures
        r matches Some(s) ==> object_label_spec(code) == Some(s@),
        r is None <==> object_label_spec(code) is None,
{
    match code {
        1 => Some("apple"),
        2 => Some("orange"),
        _ => None,
    }
}

/// Hex sha256 of raw bytes: the signal identity.
pub open spec fn signal_id_spec(raw: Seq<u8>) -> Seq<char> {
    hex_of(sha256(raw))
}

pub fn signal_id(raw: &[u8]) -> (r: String)
    ensures
        r@ == signal_id_spec(raw@),
{
    let digest = sha256_digest(raw);
    hex(&digest)
}

/// Lower-case hexadecimal rendering of a byte sequence.
pub(crate) fn hex(bytes: &[u8]) -> (r: String)
    ensures
        r@ == hex_of(bytes@),
{
    let mut out = String::new();
    let mut i: usize = 0;
    while i < bytes.len()
        invariant
            i <= bytes@.len(),
            out@ == hex_of(bytes@.take(i as int)),
        decreases bytes@.len() - i,
    {
        let b = bytes[i];
        let hi: u8 = b / 16;
        let lo: u8 = b % 16;
        if hi < 10 {
            out.push((hi + 48) as char);
        } else {
            out.push((hi - 10 + 97) as char);
        }
        if lo < 10 {
            out.push((lo + 48) as char);
        } else {
            out.push((lo - 10 + 97) as char);
        }
        assert(bytes@.take(i + 1).drop_last() =~= bytes@.take(i as int));
        i += 1;
    }
    assert(bytes@.take(bytes@.len() as int) =~= bytes@);
    out
}

/// Label of the object atom: the canonical singular for a known code,
/// else the source spelling.
pub open spec fn object_atom_label(facts: FactsView) -> Seq<char> {
    match object_label_spec(facts.object_code) {
        Some(label) => label,
        None => utf8_lossy(facts.object_spelling),
    }
}

pub open spec fn core_atoms(facts: FactsView, object_was_unknown: bool) -> Seq<AtomView> {
    seq![
        AtomView { id: 0, kind: AtomKind::Event, label: "transfer"@, value: None },
        AtomView { id: 1, kind: AtomKind::Entity, label: utf8_lossy(facts.source), value: None },
        AtomView { id: 2, kind: AtomKind::Entity, label: utf8_lossy(facts.target), value: None },
        AtomView {
            id: 3,
            kind: if object_was_unknown {
                AtomKind::Unknown
            } else {
                AtomKind::Object
            },
            label: object_atom_label(facts),
            value: None,
        },
    ]
}

pub open spec fn assembled_atoms(facts: FactsView, object_was_unknown: bool) -> Seq<AtomView> {
    match facts.quantity {
        Some(q) => core_atoms(facts, object_was_unknown).push(
            AtomView { id: 4, kind: AtomKind::Quantity, label: decimal_int(q as int), value: Some(q) },
        ),
        None => core_atoms(facts, object_was_unknown),
    }
}

pub open spec fn core_relations() -> Seq<Relation> {
    seq![
        Relation { role: Role::Source, event: 0, target: 1 },
        Relation { role: Role::Target, event: 0, target: 2 },
        Relation { role: Role::Object, event: 0, target: 3 },
    ]
}

pub open spec fn assembled_relations(facts: FactsView) -> Seq<Relation> {
    match facts.quantity {
        Some(_) => core_relations().push(Relation { role: Role::Quantity, event: 0, target: 4 }),
        None => core_relations(),
    }
}

pub open spec fn assembled_unknowns(facts: FactsView, object_was_unknown: bool) -> Seq<Seq<char>> {
    if object_was_unknown {
        seq!["object:unknown:"@ + utf8_lossy(facts.object_spelling)]
    } else {
        seq![]
    }
}

pub open spec fn assembled_confidence(adapter: AdapterKind, object_was_unknown: bool) -> Confidence {
    if object_was_unknown {
        Confidence::Uncertain
    } else if adapter == AdapterKind::Text {
        Confidence::Parsed
    } else {
        Confidence::Direct
    }
}

/// The fragment laid out from canonical facts and provenance inputs.
pub open spec fn assembled(
    adapter: AdapterKind,
    interpreter: Seq<char>,
    raw: Seq<u8>,
    facts: FactsView,
    spans: Seq<SpanView>,
    object_was_unknown: bool,
) -> FragmentView {
    FragmentView {
        schema: FRAGMENT_SCHEMA_VERSION@,
        atoms: assembled_atoms(facts, object_was_unknown),
        relations: assembled_relations(facts),
        unknowns: assembled_unknowns(facts, object_was_unknown),
        provenance: ProvenanceView {
            adapter,
            signal_id: signal_id_spec(raw),
            interpreter,
            spans,
            confidence: assembled_confidence(adapter, object_was_unknown),
        },
    }
}

pub fn assemble(
    adapter: AdapterKind,
    interpreter: &str,
    raw: &[u8],
    facts: CanonicalFacts,
    spans: Vec<Span>,
    object_was_unknown: bool,
) -> (r: Ingested)
    ensures
        r.facts@ == facts@,
        r.fragment@ == assembled(
            adapter,
            interpreter@,
            raw@,
            facts@,
            spans@.map_values(|s: Span| s@),
            object_was_unknown,
        ),
        lossy_exact(r.facts@.source),
        lossy_exact(r.facts@.target),
        object_label_spec(r.facts@.object_code) is None ==> lossy_exact(r.facts@.object_spelling),
{
    let object_label = match object_label(facts.object_code) {
        Some(label) => String::from_str(label),
        None => lossy_string(facts.object_spelling.as_slice()),
    };
    let mut atoms: Vec<Atom> = Vec::new();
    atoms.push(Atom { id: 0, kind: AtomKind::Event, label: String::from_str("transfer"), value: None });
    atoms.push(
        Atom { id: 1, kind: AtomKind::Entity, label: lossy_string(facts.source.as_slice()), value: None },
    );
    atoms.push(
        Atom { id: 2, kind: AtomKind::Entity, label: lossy_string(facts.target.as_slice()), value: None },
    );
    atoms.push(
        Atom {
            id: 3,
            kind: if object_was_unknown {
                AtomKind::Unknown
            } else {
                AtomKind::Object
            },
            label: object_label,
            value: None,
        },
    );
    let mut relations: Vec<Relation> = Vec::new();
    relations.push(Relation { role: Role::Source, event: 0, target: 1 });
    relations.push(Relation { role: Role::Target, event: 0, target: 2 });
    relations.push(Relation { role: Role::Object, event: 0, target: 3 });
    match facts.quantity {
        Some(qty) => {
            atoms.push(
                Atom { id: 4, kind: AtomKind::Quantity, label: decimal_i64(qty), value: Some(qty) },
            );
            relations.push(Relation { role: Role::Quantity, event: 0, target: 4 });
        },
        None => {},
    }
    let mut unknowns: Vec<String> = Vec::new();
    if object_was_unknown {
        let mut tag = String::from_str("object:unknown:");
        let spelling = lossy_string(facts.object_spelling.as_slice());
        tag.append(spelling.as_str());
        unknowns.push(tag);
    }
    let confidence = match adapter {
        AdapterKind::Text => {
            if object_was_unknown {
                Confidence::Uncertain
            } else {
                Confidence::Parsed
            }
        },
        AdapterKind::Structured | AdapterKind::Native => {
            if object_was_unknown {
                Confidence::Uncertain
            } else {
                Confidence::Direct
            }
        },
    };
    let fragment = Fragment {
        schema: String::from_str(FRAGMENT_SCHEMA_VERSION),
        atoms,
        relations,
        unknowns,
        provenance: Provenance {
            adapter,
            signal_id: signal_id(raw),
            interpreter: String::from_str(interpreter),
            spans,
            confidence,
        },
    };
    let ghost fv = fragment@;
    assert(fv.atoms =~= assembled_atoms(facts@, object_was_unknown));
    assert(fv.relations =~= assembled_relations(facts@));
    assert(fv.unknowns =~= assembled_unknowns(facts@, object_was_unknown));
    Ingested { fragment, facts }
}

/// Semantic equality over canonical facts: equal codes (event, object,
/// quantity), byte-identical entity spellings, and — for unknown objects —
/// byte-identical object spellings.
pub open spec fn mncs_equal_spec(a: FactsView, b: FactsView) -> bool {
    &&& codes_equal_spec(
        a.event,
        a.object_code,
        a.quantity is Some,
        match a.quantity {
            Some(q) => q,
            None => 0,
        },
        b.event,
        b.object_code,
        b.quantity is Some,
        match b.quantity {
            Some(q) => q,
            None => 0,
        },
    )
    &&& a.source == b.source
    &&& a.target == b.target
    &&& (a.object_code == 0 ==> a.object_spelling == b.object_spelling)
}

/// Semantic equality executed over the canonical facts: closed-vocabulary
/// codes compare as codes, open-vocabulary spellings byte for byte.
/// Unknown-object spellings compare only when the object is unknown
/// (equal codes already imply equal known objects).
pub fn mncs_equal(
    rt: &LanguageRuntime,
    a: &CanonicalFacts,
    b: &CanonicalFacts,
) -> (r: Result<bool, IngestError>)
    ensures
        r == Ok::<bool, IngestError>(mncs_equal_spec(a@, b@)),
{
    let a_qty = match a.quantity {
        Some(q) => q,
        None => 0,
    };
    let b_qty = match b.quantity {
        Some(q) => q,
        None => 0,
    };
    if !rt.codes_equal(
        a.event,
        a.object_code,
        a.quantity.is_some(),
        a_qty,
        b.event,
        b.object_code,
        b.quantity.is_some(),
        b_qty,
    )? {
        return Ok(false);
    }
    if !rt.spell_equal(a.source.as_slice(), b.source.as_slice())? {
        return Ok(false);
    }
    if !rt.spell_equal(a.target.as_slice(), b.target.as_slice())? {
        return Ok(false);
    }
    if a.object_code == 0 && !rt.spell_equal(
        a.object_spelling.as_slice(),
        b.object_spelling.as_slice(),
    )? {
        return Ok(false);
    }
    Ok(true)
}

/// An assembled fragment manufactures no certainty: it is uncertain
/// exactly when it records an unknown, and it holds a quantity atom
/// exactly when the facts give a quantity, with that value.
pub proof fn lemma_no_manufactured_certainty(
    adapter: AdapterKind,
    interpreter: Seq<char>,
    raw: Seq<u8>,
    facts: FactsView,
    spans: Seq<SpanView>,
    object_was_unknown: bool,
)
    ensures
        ({
            let f = assembled(adapter, interpreter, raw, facts, spans, object_was_unknown);
            &&& (f.provenance.confidence == Confidence::Uncertain) <==> f.unknowns.len() > 0
            &&& (forall|i: int| 0 <= i < f.atoms.len() ==> #[trigger] f.atoms[i].kind
                != AtomKind::Quantity) <==> facts.quantity is None
            &&& forall|i: int|
                0 <= i < f.atoms.len() && #[trigger] f.atoms[i].kind == AtomKind::Quantity
                    ==> f.atoms[i].value == facts.quantity
        }),
{
    let f = assembled(adapter, interpreter, raw, facts, spans, object_was_unknown);
    if facts.quantity is Some {
        assert(f.atoms[4].kind == AtomKind::Quantity);
    }
}

/// Lossy decoding reads `bytes` exactly when they are valid UTF-8.
pub open spec fn lossy_exact(bytes: Seq<u8>) -> bool {
    valid_utf8(bytes) ==> utf8_lossy(bytes) == decode_utf8(bytes)
}

/// Bytes that are text and that lossy decoding reads exactly.
pub open spec fn decodes_exactly(bytes: Seq<u8>) -> bool {
    valid_utf8(bytes) && utf8_lossy(bytes) == decode_utf8(bytes)
}

/// Facts whose spellings are text that lossy decoding reads exactly (the
/// object spelling only matters for an unknown object).
pub open spec fn spellings_decode(f: FactsView) -> bool {
    &&& decodes_exactly(f.source)
    &&& decodes_exactly(f.target)
    &&& f.object_code == 0 ==> decodes_exactly(f.object_spelling)
}

/// Facts as the adapters produce them: a transfer, an object code of the
/// closed vocabulary (or unknown), and spellings that are text.
pub open spec fn comparable_facts(f: FactsView) -> bool {
    &&& f.event == EVENT_TRANSFER
    &&& 0 <= f.object_code <= 2
    &&& spellings_decode(f)
}

/// The fragment `assemble` lays out from `facts`, with the object flagged
/// unknown exactly when its code is 0.
pub open spec fn layout_of(
    adapter: AdapterKind,
    interpreter: Seq<char>,
    raw: Seq<u8>,
    facts: FactsView,
    spans: Seq<SpanView>,
) -> FragmentView {
    assembled(adapter, interpreter, raw, facts, spans, facts.object_code == 0)
}

/// An adapter outcome that [`lemma_outcomes_agree`] compares: the
/// fragment is its facts laid out, and the facts' spellings are text that
/// lossy decoding reads exactly.
pub open spec fn converging(fragment: FragmentView, facts: FactsView) -> bool {
    laid_out(fragment, facts) && spellings_decode(facts)
}

/// `fragment` is `facts` laid out by [`assemble`] (for some adapter,
/// interpreter, raw input and spans), with the object flagged unknown
/// exactly when its code is 0, and the facts are those of a transfer with
/// a closed-vocabulary or unknown object.
pub open spec fn laid_out(fragment: FragmentView, facts: FactsView) -> bool {
    &&& facts.event == EVENT_TRANSFER
    &&& 0 <= facts.object_code <= 2
    &&& exists|adapter: AdapterKind, interpreter: Seq<char>, raw: Seq<u8>, spans: Seq<SpanView>|
        fragment == #[trigger] layout_of(adapter, interpreter, raw, facts, spans)
}

proof fn lemma_decode_injective(a: Seq<u8>, b: Seq<u8>)
    requires
        decodes_exactly(a),
        decodes_exactly(b),
        utf8_lossy(a) == utf8_lossy(b),
    ensures
        a == b,
{
    decode_utf8_encode_utf8(a);
    decode_utf8_encode_utf8(b);
}

/// The two decision paths agree: the semantic keys of two assembled
/// fragments are equal exactly when semantic equality over their facts
/// holds (with the object flagged unknown exactly when its code is 0).
pub proof fn lemma_host_key_agrees_with_mncs_equality(
    a_adapter: AdapterKind,
    a_interpreter: Seq<char>,
    a_raw: Seq<u8>,
    a: FactsView,
    a_spans: Seq<SpanView>,
    b_adapter: AdapterKind,
    b_interpreter: Seq<char>,
    b_raw: Seq<u8>,
    b: FactsView,
    b_spans: Seq<SpanView>,
)
    requires
        comparable_facts(a),
        comparable_facts(b),
    ensures
        semantically_equal_spec(
            assembled(a_adapter, a_interpreter, a_raw, a, a_spans, a.object_code == 0),
            assembled(b_adapter, b_interpreter, b_raw, b, b_spans, b.object_code == 0),
        ) <==> mncs_equal_spec(a, b),
{
    let fa = assembled(a_adapter, a_interpreter, a_raw, a, a_spans, a.object_code == 0);
    let fb = assembled(b_adapter, b_interpreter, b_raw, b, b_spans, b.object_code == 0);
    if mncs_equal_spec(a, b) {
        assert(object_atom_label(a) == object_atom_label(b));
        assert(fa.atoms =~= fb.atoms);
        assert(fa.relations =~= fb.relations);
        assert(fa.unknowns =~= fb.unknowns);
    }
    if semantically_equal_spec(fa, fb) {
        lemma_equal_keys_equal_lines(fa, fb);
        let la = key_lines(fa);
        let lb = key_lines(fb);
        let qa: int = if a.quantity is Some { 1 } else { 0 };
        let qb: int = if b.quantity is Some { 1 } else { 0 };
        let ua: int = if a.object_code == 0 { 1 } else { 0 };
        let ub: int = if b.object_code == 0 { 1 } else { 0 };
        assert(la.len() == 7 + 2 * qa + ua);
        assert(lb.len() == 7 + 2 * qb + ub);
        assert(qa == qb && ua == ub);
        assert(la[1] == atom_body(fa.atoms[1]));
        assert(lb[1] == atom_body(fb.atoms[1]));
        lemma_atom_body_decodes(fa.atoms[1], fb.atoms[1]);
        lemma_decode_injective(a.source, b.source);
        assert(la[2] == atom_body(fa.atoms[2]));
        assert(lb[2] == atom_body(fb.atoms[2]));
        lemma_atom_body_decodes(fa.atoms[2], fb.atoms[2]);
        lemma_decode_injective(a.target, b.target);
        assert(la[3] == atom_body(fa.atoms[3]));
        assert(lb[3] == atom_body(fb.atoms[3]));
        lemma_atom_body_decodes(fa.atoms[3], fb.atoms[3]);
        if ua == 1 {
            lemma_decode_injective(a.object_spelling, b.object_spelling);
        } else {
            reveal_strlit("apple");
            reveal_strlit("orange");
            assert(a.object_code == b.object_code);
        }
        if qa == 1 {
            assert(la[4] == atom_body(fa.atoms[4]));
            assert(lb[4] == atom_body(fb.atoms[4]));
            lemma_atom_body_decodes(fa.atoms[4], fb.atoms[4]);
        }
    }
}

/// The two decision paths agree on every pair of ingest outcomes: for
/// converging outcomes (every successful ingest of the text, structured
/// and native adapters is one), equal semantic keys and semantic equality
/// of the facts coincide, so `mncs_equal` over two adapters' facts answers
/// exactly what semantic equality of their fragments answers.
pub proof fn lemma_outcomes_agree(fa: FragmentView, a: FactsView, fb: FragmentView, b: FactsView)
    requires
        converging(fa, a),
        converging(fb, b),
    ensures
        semantically_equal_spec(fa, fb) <==> mncs_equal_spec(a, b),
{
    let (a_adapter, a_interpreter, a_raw, a_spans) = choose|
        adapter: AdapterKind,
        interpreter: Seq<char>,
        raw: Seq<u8>,
        spans: Seq<SpanView>,
    | fa == #[trigger] layout_of(adapter, interpreter, raw, a, spans);
    let (b_adapter, b_interpreter, b_raw, b_spans) = choose|
        adapter: AdapterKind,
        interpreter: Seq<char>,
        raw: Seq<u8>,
        spans: Seq<SpanView>,
    | fb == #[trigger] layout_of(adapter, interpreter, raw, b, spans);
    lemma_host_key_agrees_with_mncs_equality(
        a_adapter,
        a_interpreter,
        a_raw,
        a,
        a_spans,
        b_adapter,
        b_interpreter,
        b_raw,
        b,
        b_spans,
    );
}

} // verus!
