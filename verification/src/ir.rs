//! Canonical semantic IR for the deterministic convergence slice.
//!
//! The model is deliberately small: entities, one event kind (`transfer`),
//! a closed object vocabulary, quantities, four relation roles, and explicit
//! unknowns. This module is the typed carrier plus deterministic layout
//! (ordering, serialization).
//!
//! Equality rule: two fragments are *semantically* equal when their schemas
//! agree and their [`Fragment::semantic_key`] strings are identical.
//! Provenance and atom ids are excluded from that key on purpose:
//! equivalent meaning from distinct sources must compare equal while
//! retaining distinct provenance.

use vstd::prelude::*;
use vstd::string::*;
use vstd::utf8::*;

use crate::text::{
    decimal, decimal_i64, decimal_int, decimal_u64, is_digit_char, lemma_decimal_digits,
    lemma_decimal_int_chars, lemma_decimal_injective, lemma_decimal_int_injective, string_bytes,
};

verus! {

/// Versioned schema identity. Bumped only on breaking canonical changes.
pub const FRAGMENT_SCHEMA_VERSION: &'static str = "mncs-ingest/fragment-v1";

/// Canonical event code for `transfer`.
pub const EVENT_TRANSFER: i64 = 1;

/// Canonical object codes.
pub const OBJECT_APPLE: i64 = 1;
pub const OBJECT_ORANGE: i64 = 2;
/// Marker for an object word outside the closed vocabulary.
pub const OBJECT_UNKNOWN: i64 = 0;

/// Transport bound: the text parser scans at most this many input bytes.
pub const MAX_TEXT_BYTES: usize = 64;
/// Transport bound: at most this many whitespace-separated words per input.
pub const MAX_WORDS: usize = 8;
/// Transport bound: entity/object spellings longer than this are rejected.
pub const MAX_SPELLING_BYTES: usize = 16;

#[derive(Debug, Clone, Copy, PartialEq, Eq, Structural)]
pub enum AdapterKind {
    Text,
    Structured,
    Native,
}

pub open spec fn adapter_name(kind: AdapterKind) -> Seq<char> {
    match kind {
        AdapterKind::Text => "text"@,
        AdapterKind::Structured => "structured"@,
        AdapterKind::Native => "native"@,
    }
}

impl AdapterKind {
    pub fn as_str(&self) -> (r: &'static str)
        ensures
            r@ == adapter_name(*self),
    {
        match self {
            AdapterKind::Text => "text",
            AdapterKind::Structured => "structured",
            AdapterKind::Native => "native",
        }
    }
}

#[derive(Debug, Clone, Copy, PartialEq, Eq, Structural)]
pub enum Confidence {
    /// Byte-exact structured or already-validated native input.
    Direct,
    /// Bounded-grammar text parse; structure was interpreted, not given.
    Parsed,
    /// Fragment is partial: at least one unknown is load-bearing.
    Uncertain,
}

#[derive(Debug, Clone, Copy, PartialEq, Eq, PartialOrd, Ord, Structural)]
pub enum AtomKind {
    Entity,
    Event,
    Object,
    Quantity,
    Unknown,
}

/// The name of an atom kind as it appears in the semantic key.
pub open spec fn kind_name(kind: AtomKind) -> Seq<char> {
    match kind {
        AtomKind::Entity => "Entity"@,
        AtomKind::Event => "Event"@,
        AtomKind::Object => "Object"@,
        AtomKind::Quantity => "Quantity"@,
        AtomKind::Unknown => "Unknown"@,
    }
}

fn kind_text(kind: AtomKind) -> (r: &'static str)
    ensures
        r@ == kind_name(kind),
{
    match kind {
        AtomKind::Entity => "Entity",
        AtomKind::Event => "Event",
        AtomKind::Object => "Object",
        AtomKind::Quantity => "Quantity",
        AtomKind::Unknown => "Unknown",
    }
}

#[derive(Debug, Clone, Copy, PartialEq, Eq, PartialOrd, Ord, Structural)]
pub enum Role {
    Source,
    Target,
    Object,
    Quantity,
}

pub open spec fn role_name(role: Role) -> Seq<char> {
    match role {
        Role::Source => "source"@,
        Role::Target => "target"@,
        Role::Object => "object"@,
        Role::Quantity => "quantity"@,
    }
}

impl Role {
    pub fn as_str(&self) -> (r: &'static str)
        ensures
            r@ == role_name(*self),
    {
        match self {
            Role::Source => "source",
            Role::Target => "target",
            Role::Object => "object",
            Role::Quantity => "quantity",
        }
    }
}

/// One typed semantic unit. `id` is a deterministic layout index, never a
/// stable cross-fragment identity.
#[derive(Debug, Clone, PartialEq, Eq)]
pub struct Atom {
    pub id: u64,
    pub kind: AtomKind,
    /// Canonical spelling: entities keep source spelling, known objects use
    /// the singular canonical form, quantities render decimally.
    pub label: String,
    /// Only meaningful for quantities. `None` vs `Some(0)` is load-bearing:
    /// a missing quantity and an explicit zero must not collapse.
    pub value: Option<i64>,
}

pub ghost struct AtomView {
    pub id: u64,
    pub kind: AtomKind,
    pub label: Seq<char>,
    pub value: Option<i64>,
}

impl View for Atom {
    type V = AtomView;

    open spec fn view(&self) -> AtomView {
        AtomView { id: self.id, kind: self.kind, label: self.label@, value: self.value }
    }
}

/// A directed role assignment from the frame event to a participant atom.
#[derive(Debug, Clone, Copy, PartialEq, Eq, Structural)]
pub struct Relation {
    pub role: Role,
    pub event: u64,
    pub target: u64,
}

/// A source span or structured field supporting one interpretation step.
#[derive(Debug, Clone, PartialEq, Eq)]
pub struct Span {
    /// E.g. `word:source`, `json:from`, `native:source`.
    pub field: String,
    pub start: Option<u64>,
    pub end: Option<u64>,
}

pub ghost struct SpanView {
    pub field: Seq<char>,
    pub start: Option<u64>,
    pub end: Option<u64>,
}

impl View for Span {
    type V = SpanView;

    open spec fn view(&self) -> SpanView {
        SpanView { field: self.field@, start: self.start, end: self.end }
    }
}

#[derive(Debug, Clone, PartialEq, Eq)]
pub struct Provenance {
    pub adapter: AdapterKind,
    /// Hex sha256 over the exact raw input bytes. Audit/replay key.
    pub signal_id: String,
    /// Which adapter interpretation produced this fragment.
    pub interpreter: String,
    pub spans: Vec<Span>,
    pub confidence: Confidence,
}

pub ghost struct ProvenanceView {
    pub adapter: AdapterKind,
    pub signal_id: Seq<char>,
    pub interpreter: Seq<char>,
    pub spans: Seq<SpanView>,
    pub confidence: Confidence,
}

impl View for Provenance {
    type V = ProvenanceView;

    open spec fn view(&self) -> ProvenanceView {
        ProvenanceView {
            adapter: self.adapter,
            signal_id: self.signal_id@,
            interpreter: self.interpreter@,
            spans: self.spans@.map_values(|s: Span| s@),
            confidence: self.confidence,
        }
    }
}

/// The canonical semantic fragment handed to downstream consumers.
#[derive(Debug, Clone, PartialEq, Eq)]
pub struct Fragment {
    pub schema: String,
    pub atoms: Vec<Atom>,
    pub relations: Vec<Relation>,
    /// Explicit unknowns, e.g. `object:unknown:parsnip`. Never empty when
    /// confidence is [`Confidence::Uncertain`].
    pub unknowns: Vec<String>,
    pub provenance: Provenance,
}

pub ghost struct FragmentView {
    pub schema: Seq<char>,
    pub atoms: Seq<AtomView>,
    pub relations: Seq<Relation>,
    pub unknowns: Seq<Seq<char>>,
    pub provenance: ProvenanceView,
}

impl View for Fragment {
    type V = FragmentView;

    open spec fn view(&self) -> FragmentView {
        FragmentView {
            schema: self.schema@,
            atoms: self.atoms@.map_values(|a: Atom| a@),
            relations: self.relations@,
            unknowns: self.unknowns@.map_values(|u: String| u@),
            provenance: self.provenance@,
        }
    }
}

/// The escape of one scalar: backslash, newline and space are spelled
/// out so that escaped labels contain no separator.
pub open spec fn escape_char(c: char) -> Seq<char> {
    if c == '\\' {
        seq!['\\', '\\']
    } else if c == '\n' {
        seq!['\\', 'n']
    } else if c == ' ' {
        seq!['\\', 's']
    } else {
        seq![c]
    }
}

pub open spec fn escape_spec(s: Seq<char>) -> Seq<char>
    decreases s.len(),
{
    if s.len() == 0 {
        seq![]
    } else {
        escape_spec(s.drop_last()) + escape_char(s.last())
    }
}

/// Quantity rendering in the key: the decimal value, or `-` when absent.
pub open spec fn value_text(value: Option<i64>) -> Seq<char> {
    match value {
        Some(v) => decimal_int(v as int),
        None => "-"@,
    }
}

/// One atom of the key: kind, escaped label, value.
pub open spec fn atom_body(atom: AtomView) -> Seq<char> {
    "atom "@ + kind_name(atom.kind) + " "@ + escape_spec(atom.label) + " "@ + value_text(atom.value)
}

pub open spec fn atom_line(atom: AtomView) -> Seq<char> {
    "\n"@ + atom_body(atom)
}

pub open spec fn atom_lines(atoms: Seq<AtomView>) -> Seq<char>
    decreases atoms.len(),
{
    if atoms.len() == 0 {
        seq![]
    } else {
        atom_lines(atoms.drop_last()) + atom_line(atoms.last())
    }
}

/// One relation of the key: role, event and target indices.
pub open spec fn relation_body(rel: Relation) -> Seq<char> {
    "rel "@ + role_name(rel.role) + " "@ + decimal(rel.event as nat) + " "@ + decimal(
        rel.target as nat,
    )
}

pub open spec fn relation_line(rel: Relation) -> Seq<char> {
    "\n"@ + relation_body(rel)
}

pub open spec fn relation_lines(rels: Seq<Relation>) -> Seq<char>
    decreases rels.len(),
{
    if rels.len() == 0 {
        seq![]
    } else {
        relation_lines(rels.drop_last()) + relation_line(rels.last())
    }
}

/// One unknown of the key, escaped.
pub open spec fn unknown_body(unknown: Seq<char>) -> Seq<char> {
    "unknown "@ + escape_spec(unknown)
}

pub open spec fn unknown_line(unknown: Seq<char>) -> Seq<char> {
    "\n"@ + unknown_body(unknown)
}

pub open spec fn unknown_lines(unknowns: Seq<Seq<char>>) -> Seq<char>
    decreases unknowns.len(),
{
    if unknowns.len() == 0 {
        seq![]
    } else {
        unknown_lines(unknowns.drop_last()) + unknown_line(unknowns.last())
    }
}

/// The deterministic semantic key of a fragment: a header, one line per
/// atom (kind, escaped label, value), one per relation and one per unknown.
pub open spec fn semantic_key_of(f: FragmentView) -> Seq<char> {
    "frag:v1"@ + atom_lines(f.atoms) + relation_lines(f.relations) + unknown_lines(f.unknowns)
}

/// Semantic equality: same schema and same semantic key.
pub open spec fn semantically_equal_spec(a: FragmentView, b: FragmentView) -> bool {
    a.schema == b.schema && semantic_key_of(a) == semantic_key_of(b)
}

/// Canonical text: schema line followed by the semantic key.
pub open spec fn canonical_text(f: FragmentView) -> Seq<char> {
    f.schema + "\n"@ + semantic_key_of(f)
}

/// Two fragments carry the same semantic content: schema, atom kinds,
/// labels and values, relations and unknowns agree (ids and provenance
/// may differ).
pub open spec fn same_content(a: FragmentView, b: FragmentView) -> bool {
    &&& a.schema == b.schema
    &&& a.atoms.len() == b.atoms.len()
    &&& forall|i: int|
        0 <= i < a.atoms.len() ==> {
            &&& #[trigger] a.atoms[i].kind == b.atoms[i].kind
            &&& a.atoms[i].label == b.atoms[i].label
            &&& a.atoms[i].value == b.atoms[i].value
        }
    &&& a.relations == b.relations
    &&& a.unknowns == b.unknowns
}

fn escape(value: &str) -> (r: String)
    ensures
        r@ == escape_spec(value@),
{
    broadcast use vstd::string::group_string_axioms;

    let mut out = String::new();
    for c in it: value.chars()
        invariant
            it.seq() == value@,
            out@ == escape_spec(value@.take(it.index() as int)),
    {
        assert(value@.take(it.index() + 1).drop_last() == value@.take(it.index() as int));
        if c == '\\' {
            out.push('\\');
            out.push('\\');
        } else if c == '\n' {
            out.push('\\');
            out.push('n');
        } else if c == ' ' {
            out.push('\\');
            out.push('s');
        } else {
            out.push(c);
        }
    }
    assert(value@.take(value@.len() as int) == value@);
    out
}

impl Fragment {
    /// Deterministic semantic key. Excludes provenance and atom ids by
    /// construction: ids are layout artifacts, provenance is identity.
    pub fn semantic_key(&self) -> (r: String)
        ensures
            r@ == semantic_key_of(self@),
    {
        let mut out = String::from_str("frag:v1");
        let mut i: usize = 0;
        while i < self.atoms.len()
            invariant
                i <= self.atoms@.len(),
                out@ == "frag:v1"@ + atom_lines(self@.atoms.take(i as int)),
            decreases self.atoms@.len() - i,
        {
            let atom = &self.atoms[i];
            let mut body = String::from_str("atom ");
            body.append(kind_text(atom.kind));
            body.append(" ");
            let escaped = escape(atom.label.as_str());
            body.append(escaped.as_str());
            body.append(" ");
            match atom.value {
                Some(v) => {
                    let rendered = decimal_i64(v);
                    body.append(rendered.as_str());
                },
                None => {
                    body.append("-");
                },
            }
            assert(body@ =~= atom_body(atom@));
            let ghost before = out@;
            out.append("\n");
            out.append(body.as_str());
            assert(out@ =~= before + atom_line(atom@));
            proof {
                let prefix = self@.atoms.take(i + 1);
                assert(prefix.drop_last() =~= self@.atoms.take(i as int));
                assert(prefix.last() == atom@);
            }
            assert(out@ =~= "frag:v1"@ + atom_lines(self@.atoms.take(i + 1)));
            i += 1;
        }
        assert(self@.atoms.take(self.atoms@.len() as int) =~= self@.atoms);
        let ghost atoms_part = out@;
        let mut j: usize = 0;
        while j < self.relations.len()
            invariant
                j <= self.relations@.len(),
                atoms_part == "frag:v1"@ + atom_lines(self@.atoms),
                out@ == atoms_part + relation_lines(self@.relations.take(j as int)),
            decreases self.relations@.len() - j,
        {
            let rel = self.relations[j];
            let mut body = String::from_str("rel ");
            body.append(rel.role.as_str());
            body.append(" ");
            let event = decimal_u64(rel.event);
            body.append(event.as_str());
            body.append(" ");
            let target = decimal_u64(rel.target);
            body.append(target.as_str());
            assert(body@ =~= relation_body(rel));
            let ghost before = out@;
            out.append("\n");
            out.append(body.as_str());
            assert(out@ =~= before + relation_line(rel));
            proof {
                let prefix = self@.relations.take(j + 1);
                assert(prefix.drop_last() =~= self@.relations.take(j as int));
            }
            assert(out@ =~= atoms_part + relation_lines(self@.relations.take(j + 1)));
            j += 1;
        }
        assert(self@.relations.take(self.relations@.len() as int) =~= self@.relations);
        let ghost rels_part = out@;
        let mut k: usize = 0;
        while k < self.unknowns.len()
            invariant
                k <= self.unknowns@.len(),
                rels_part == "frag:v1"@ + atom_lines(self@.atoms) + relation_lines(self@.relations),
                out@ == rels_part + unknown_lines(self@.unknowns.take(k as int)),
            decreases self.unknowns@.len() - k,
        {
            let mut body = String::from_str("unknown ");
            let escaped = escape(self.unknowns[k].as_str());
            body.append(escaped.as_str());
            assert(body@ =~= unknown_body(self.unknowns@[k as int]@));
            let ghost before = out@;
            out.append("\n");
            out.append(body.as_str());
            assert(out@ =~= before + unknown_line(self.unknowns@[k as int]@));
            proof {
                let prefix = self@.unknowns.take(k + 1);
                assert(prefix.drop_last() =~= self@.unknowns.take(k as int));
            }
            assert(out@ =~= rels_part + unknown_lines(self@.unknowns.take(k + 1)));
            k += 1;
        }
        assert(self@.unknowns.take(self.unknowns@.len() as int) =~= self@.unknowns);
        out
    }

    pub fn semantically_equal(&self, other: &Fragment) -> (r: bool)
        ensures
            r == semantically_equal_spec(self@, other@),
    {
        if self.schema != other.schema {
            return false;
        }
        let mine = self.semantic_key();
        let theirs = other.semantic_key();
        mine == theirs
    }

    /// Canonical bytes: schema line + semantic key. Deterministic across
    /// runs, processes, and adapters.
    pub fn canonical_bytes(&self) -> (r: Vec<u8>)
        ensures
            r@ == encode_utf8(canonical_text(self@)),
    {
        let mut text = String::from_str(self.schema.as_str());
        text.append("\n");
        let key = self.semantic_key();
        text.append(key.as_str());
        string_bytes(text.as_str())
    }
}

/// A field-for-field copy of a fragment.
pub(crate) fn copy_fragment(f: &Fragment) -> (r: Fragment)
    ensures
        r@ == f@,
{
    let mut atoms: Vec<Atom> = Vec::new();
    let mut i: usize = 0;
    while i < f.atoms.len()
        invariant
            i <= f.atoms@.len(),
            atoms@.len() == i,
            forall|q: int| 0 <= q < i ==> #[trigger] atoms@[q]@ == f.atoms@[q]@,
        decreases f.atoms@.len() - i,
    {
        let a = &f.atoms[i];
        let copy = Atom { id: a.id, kind: a.kind, label: a.label.clone(), value: a.value };
        atoms.push(copy);
        i += 1;
    }
    let mut relations: Vec<Relation> = Vec::new();
    let mut j: usize = 0;
    while j < f.relations.len()
        invariant
            j <= f.relations@.len(),
            relations@ =~= f.relations@.take(j as int),
        decreases f.relations@.len() - j,
    {
        relations.push(f.relations[j]);
        j += 1;
    }
    let mut unknowns: Vec<String> = Vec::new();
    let mut k: usize = 0;
    while k < f.unknowns.len()
        invariant
            k <= f.unknowns@.len(),
            unknowns@.len() == k,
            forall|q: int| 0 <= q < k ==> #[trigger] unknowns@[q]@ == f.unknowns@[q]@,
        decreases f.unknowns@.len() - k,
    {
        let copy = f.unknowns[k].clone();
        unknowns.push(copy);
        k += 1;
    }
    let mut spans: Vec<Span> = Vec::new();
    let mut m: usize = 0;
    while m < f.provenance.spans.len()
        invariant
            m <= f.provenance.spans@.len(),
            spans@.len() == m,
            forall|q: int| 0 <= q < m ==> #[trigger] spans@[q]@ == f.provenance.spans@[q]@,
        decreases f.provenance.spans@.len() - m,
    {
        let s = &f.provenance.spans[m];
        let copy = Span { field: s.field.clone(), start: s.start, end: s.end };
        spans.push(copy);
        m += 1;
    }
    assert(atoms@.map_values(|a: Atom| a@) =~= f.atoms@.map_values(|a: Atom| a@));
    assert(relations@ =~= f.relations@);
    assert(unknowns@.map_values(|u: String| u@) =~= f.unknowns@.map_values(|u: String| u@));
    assert(spans@.map_values(|s: Span| s@) =~= f.provenance.spans@.map_values(|s: Span| s@));
    Fragment {
        schema: f.schema.clone(),
        atoms,
        relations,
        unknowns,
        provenance: Provenance {
            adapter: f.provenance.adapter,
            signal_id: f.provenance.signal_id.clone(),
            interpreter: f.provenance.interpreter.clone(),
            spans,
            confidence: f.provenance.confidence,
        },
    }
}

// ----- decoding the semantic key ---------------------------------------

/// `s` holds no `c`.
pub open spec fn free_of(s: Seq<char>, c: char) -> bool {
    forall|i: int| 0 <= i < s.len() ==> s[i] != c
}

proof fn lemma_free_concat(a: Seq<char>, b: Seq<char>, c: char)
    requires
        free_of(a, c),
        free_of(b, c),
    ensures
        free_of(a + b, c),
{
    assert forall|i: int| 0 <= i < (a + b).len() implies (a + b)[i] != c by {
        if i < a.len() {
            assert((a + b)[i] == a[i]);
        } else {
            assert((a + b)[i] == b[i - a.len()]);
        }
    }
}

/// An escaped string holds no space and no newline, and is at least as
/// long as the string.
pub proof fn lemma_escape_free(s: Seq<char>)
    ensures
        free_of(escape_spec(s), ' '),
        free_of(escape_spec(s), '\n'),
        escape_spec(s).len() >= s.len(),
    decreases s.len(),
{
    if s.len() > 0 {
        lemma_escape_free(s.drop_last());
        let c = s.last();
        lemma_free_concat(escape_spec(s.drop_last()), escape_char(c), ' ');
        lemma_free_concat(escape_spec(s.drop_last()), escape_char(c), '\n');
    }
}

/// Escaping from the front.
proof fn lemma_escape_front(c: char, s: Seq<char>)
    ensures
        escape_spec(seq![c] + s) == escape_char(c) + escape_spec(s),
    decreases s.len(),
{
    let cs = seq![c] + s;
    if s.len() == 0 {
        assert(cs.drop_last() =~= Seq::<char>::empty());
        assert(escape_spec(Seq::<char>::empty()) == Seq::<char>::empty());
        assert(cs.last() == c);
        assert(escape_spec(cs) == escape_spec(cs.drop_last()) + escape_char(cs.last()));
        assert(escape_spec(cs) =~= escape_char(c));
    } else {
        assert(cs.drop_last() =~= seq![c] + s.drop_last());
        lemma_escape_front(c, s.drop_last());
        assert(escape_spec(cs) =~= escape_char(c) + escape_spec(s));
    }
}

/// Escaping is injective.
pub proof fn lemma_escape_injective(a: Seq<char>, b: Seq<char>)
    requires
        escape_spec(a) == escape_spec(b),
    ensures
        a == b,
    decreases a.len(),
{
    lemma_escape_free(a);
    lemma_escape_free(b);
    if a.len() > 0 && b.len() > 0 {
        let a0 = a[0];
        let b0 = b[0];
        let ar = a.drop_first();
        let br = b.drop_first();
        assert(a =~= seq![a0] + ar);
        assert(b =~= seq![b0] + br);
        lemma_escape_front(a0, ar);
        lemma_escape_front(b0, br);
        let e = escape_spec(a);
        let ea = escape_char(a0);
        let eb = escape_char(b0);
        assert(e[0] == ea[0]);
        assert(e[0] == eb[0]);
        if ea.len() == 2 {
            assert(e[1] == ea[1]);
        }
        if eb.len() == 2 {
            assert(e[1] == eb[1]);
        }
        assert(a0 == b0);
        assert(escape_spec(ar) =~= e.skip(ea.len() as int));
        assert(escape_spec(br) =~= e.skip(eb.len() as int));
        lemma_escape_injective(ar, br);
    } else if a.len() > 0 {
        assert(escape_spec(b) =~= seq![]);
    } else if b.len() > 0 {
        assert(escape_spec(a) =~= seq![]);
    } else {
        assert(a =~= b);
    }
}

/// Two runs that end in a separator followed by a separator-free tail
/// have the same tail and the same head.
pub proof fn lemma_split_at_last(p1: Seq<char>, l1: Seq<char>, p2: Seq<char>, l2: Seq<char>, sep: char)
    requires
        p1 + seq![sep] + l1 == p2 + seq![sep] + l2,
        free_of(l1, sep),
        free_of(l2, sep),
    ensures
        l1 == l2,
        p1 == p2,
{
    let h1 = p1 + seq![sep];
    let h2 = p2 + seq![sep];
    let x = h1 + l1;
    let y = h2 + l2;
    assert(h1.len() == p1.len() + 1);
    assert(h2.len() == p2.len() + 1);
    assert(x.len() == h1.len() + l1.len());
    assert(y.len() == h2.len() + l2.len());
    assert(x == y);
    if l1.len() < l2.len() {
        let i = p1.len() as int;
        assert(h1[i] == sep);
        assert(x[i] == h1[i]);
        assert(i >= h2.len());
        assert(y[i] == l2[i - h2.len()]);
    } else if l2.len() < l1.len() {
        let i = p2.len() as int;
        assert(h2[i] == sep);
        assert(y[i] == h2[i]);
        assert(i >= h1.len());
        assert(x[i] == l1[i - h1.len()]);
    } else {
        assert(l1 =~= x.skip(h1.len() as int));
        assert(l2 =~= y.skip(h2.len() as int));
        assert(p1 =~= x.take(p1.len() as int));
        assert(p2 =~= y.take(p2.len() as int));
    }
}

/// Lines joined, each after a newline.
pub open spec fn nl_join(lines: Seq<Seq<char>>) -> Seq<char>
    decreases lines.len(),
{
    if lines.len() == 0 {
        seq![]
    } else {
        nl_join(lines.drop_last()) + "\n"@ + lines.last()
    }
}

pub proof fn lemma_nl_join_append(x: Seq<Seq<char>>, y: Seq<Seq<char>>)
    ensures
        nl_join(x) + nl_join(y) == nl_join(x + y),
    decreases y.len(),
{
    if y.len() == 0 {
        assert(x + y =~= x);
        assert(nl_join(x) + nl_join(y) =~= nl_join(x));
    } else {
        assert((x + y).drop_last() =~= x + y.drop_last());
        lemma_nl_join_append(x, y.drop_last());
        assert(nl_join(x) + nl_join(y) =~= nl_join(x) + nl_join(y.drop_last()) + "\n"@ + y.last());
    }
}

/// Newline-free lines are recovered from their join.
pub proof fn lemma_nl_join_injective(x: Seq<Seq<char>>, y: Seq<Seq<char>>)
    requires
        nl_join(x) == nl_join(y),
        forall|i: int| 0 <= i < x.len() ==> free_of(#[trigger] x[i], '\n'),
        forall|i: int| 0 <= i < y.len() ==> free_of(#[trigger] y[i], '\n'),
    ensures
        x == y,
    decreases x.len(),
{
    reveal_strlit("\n");
    if x.len() > 0 && y.len() > 0 {
        assert(free_of(x.last(), '\n'));
        assert(free_of(y.last(), '\n'));
        assert(nl_join(x) == nl_join(x.drop_last()) + seq!['\n'] + x.last());
        assert(nl_join(y) == nl_join(y.drop_last()) + seq!['\n'] + y.last());
        lemma_split_at_last(nl_join(x.drop_last()), x.last(), nl_join(y.drop_last()), y.last(), '\n');
        lemma_nl_join_injective(x.drop_last(), y.drop_last());
        assert(x =~= x.drop_last().push(x.last()));
        assert(y =~= y.drop_last().push(y.last()));
    } else if x.len() > 0 {
        assert(nl_join(x).len() > 0);
    } else if y.len() > 0 {
        assert(nl_join(y).len() > 0);
    } else {
        assert(x =~= y);
    }
}

pub open spec fn atom_bodies(atoms: Seq<AtomView>) -> Seq<Seq<char>> {
    atoms.map_values(|a: AtomView| atom_body(a))
}

pub open spec fn relation_bodies(rels: Seq<Relation>) -> Seq<Seq<char>> {
    rels.map_values(|r: Relation| relation_body(r))
}

pub open spec fn unknown_bodies(unknowns: Seq<Seq<char>>) -> Seq<Seq<char>> {
    unknowns.map_values(|u: Seq<char>| unknown_body(u))
}

/// The lines of a fragment's key after its header: atoms, relations,
/// unknowns.
pub open spec fn key_lines(f: FragmentView) -> Seq<Seq<char>> {
    atom_bodies(f.atoms) + relation_bodies(f.relations) + unknown_bodies(f.unknowns)
}

proof fn lemma_atom_lines_join(atoms: Seq<AtomView>)
    ensures
        atom_lines(atoms) == nl_join(atom_bodies(atoms)),
    decreases atoms.len(),
{
    if atoms.len() > 0 {
        lemma_atom_lines_join(atoms.drop_last());
        assert(atom_bodies(atoms).drop_last() =~= atom_bodies(atoms.drop_last()));
        assert(atom_lines(atoms) =~= nl_join(atom_bodies(atoms)));
    }
}

proof fn lemma_relation_lines_join(rels: Seq<Relation>)
    ensures
        relation_lines(rels) == nl_join(relation_bodies(rels)),
    decreases rels.len(),
{
    if rels.len() > 0 {
        lemma_relation_lines_join(rels.drop_last());
        assert(relation_bodies(rels).drop_last() =~= relation_bodies(rels.drop_last()));
        assert(relation_lines(rels) =~= nl_join(relation_bodies(rels)));
    }
}

proof fn lemma_unknown_lines_join(unknowns: Seq<Seq<char>>)
    ensures
        unknown_lines(unknowns) == nl_join(unknown_bodies(unknowns)),
    decreases unknowns.len(),
{
    if unknowns.len() > 0 {
        lemma_unknown_lines_join(unknowns.drop_last());
        assert(unknown_bodies(unknowns).drop_last() =~= unknown_bodies(unknowns.drop_last()));
        assert(unknown_lines(unknowns) =~= nl_join(unknown_bodies(unknowns)));
    }
}

/// The key is its header followed by its lines.
pub proof fn lemma_key_is_lines(f: FragmentView)
    ensures
        semantic_key_of(f) == "frag:v1"@ + nl_join(key_lines(f)),
{
    lemma_atom_lines_join(f.atoms);
    lemma_relation_lines_join(f.relations);
    lemma_unknown_lines_join(f.unknowns);
    lemma_nl_join_append(atom_bodies(f.atoms), relation_bodies(f.relations));
    lemma_nl_join_append(
        atom_bodies(f.atoms) + relation_bodies(f.relations),
        unknown_bodies(f.unknowns),
    );
    assert(semantic_key_of(f) =~= "frag:v1"@ + nl_join(key_lines(f)));
}

proof fn lemma_decimal_free(n: nat)
    ensures
        free_of(decimal(n), '\n'),
        free_of(decimal(n), ' '),
{
    lemma_decimal_digits(n);
}

proof fn lemma_value_text_free(v: Option<i64>)
    ensures
        free_of(value_text(v), '\n'),
        free_of(value_text(v), ' '),
{
    reveal_strlit("-");
    match v {
        Some(q) => {
            lemma_decimal_int_chars(q as int);
        },
        None => {},
    }
}

proof fn lemma_kind_name_free(k: AtomKind)
    ensures
        free_of(kind_name(k), '\n'),
        free_of(kind_name(k), ' '),
{
    reveal_strlit("Entity");
    reveal_strlit("Event");
    reveal_strlit("Object");
    reveal_strlit("Quantity");
    reveal_strlit("Unknown");
}

/// Every line of a key holds no newline.
pub proof fn lemma_key_lines_free(f: FragmentView)
    ensures
        forall|i: int| 0 <= i < key_lines(f).len() ==> free_of(#[trigger] key_lines(f)[i], '\n'),
{
    reveal_strlit("atom ");
    reveal_strlit(" ");
    reveal_strlit("rel ");
    reveal_strlit("unknown ");
    reveal_strlit("source");
    reveal_strlit("target");
    reveal_strlit("object");
    reveal_strlit("quantity");
    let ab = atom_bodies(f.atoms);
    let rb = relation_bodies(f.relations);
    let ub = unknown_bodies(f.unknowns);
    assert forall|i: int| 0 <= i < ab.len() implies free_of(#[trigger] ab[i], '\n') by {
        let a = f.atoms[i];
        lemma_kind_name_free(a.kind);
        lemma_escape_free(a.label);
        lemma_value_text_free(a.value);
        lemma_free_concat("atom "@, kind_name(a.kind), '\n');
        lemma_free_concat("atom "@ + kind_name(a.kind), " "@, '\n');
        lemma_free_concat("atom "@ + kind_name(a.kind) + " "@, escape_spec(a.label), '\n');
        lemma_free_concat("atom "@ + kind_name(a.kind) + " "@ + escape_spec(a.label), " "@, '\n');
        lemma_free_concat(
            "atom "@ + kind_name(a.kind) + " "@ + escape_spec(a.label) + " "@,
            value_text(a.value),
            '\n',
        );
    }
    assert forall|i: int| 0 <= i < rb.len() implies free_of(#[trigger] rb[i], '\n') by {
        let r = f.relations[i];
        lemma_decimal_free(r.event as nat);
        lemma_decimal_free(r.target as nat);
        lemma_free_concat("rel "@, role_name(r.role), '\n');
        lemma_free_concat("rel "@ + role_name(r.role), " "@, '\n');
        lemma_free_concat("rel "@ + role_name(r.role) + " "@, decimal(r.event as nat), '\n');
        lemma_free_concat("rel "@ + role_name(r.role) + " "@ + decimal(r.event as nat), " "@, '\n');
        lemma_free_concat(
            "rel "@ + role_name(r.role) + " "@ + decimal(r.event as nat) + " "@,
            decimal(r.target as nat),
            '\n',
        );
    }
    assert forall|i: int| 0 <= i < ub.len() implies free_of(#[trigger] ub[i], '\n') by {
        lemma_escape_free(f.unknowns[i]);
        lemma_free_concat("unknown "@, escape_spec(f.unknowns[i]), '\n');
    }
    assert forall|i: int| 0 <= i < key_lines(f).len() implies free_of(#[trigger] key_lines(f)[i], '\n')
        by {
        if i < ab.len() {
            assert(key_lines(f)[i] == ab[i]);
        } else if i < ab.len() + rb.len() {
            assert(key_lines(f)[i] == rb[i - ab.len()]);
        } else {
            assert(key_lines(f)[i] == ub[i - ab.len() - rb.len()]);
        }
    }
}

/// Equal keys have equal lines.
pub proof fn lemma_equal_keys_equal_lines(a: FragmentView, b: FragmentView)
    requires
        semantic_key_of(a) == semantic_key_of(b),
    ensures
        key_lines(a) == key_lines(b),
{
    lemma_key_is_lines(a);
    lemma_key_is_lines(b);
    lemma_key_lines_free(a);
    lemma_key_lines_free(b);
    let h = "frag:v1"@;
    assert(nl_join(key_lines(a)) =~= semantic_key_of(a).skip(h.len() as int));
    assert(nl_join(key_lines(b)) =~= semantic_key_of(b).skip(h.len() as int));
    lemma_nl_join_injective(key_lines(a), key_lines(b));
}

/// The label of an atom line, given its kind: equal lines of the same
/// kind carry equal labels and values.
pub proof fn lemma_atom_body_decodes(a: AtomView, b: AtomView)
    requires
        atom_body(a) == atom_body(b),
        a.kind == b.kind,
    ensures
        a.label == b.label,
        a.value == b.value,
{
    reveal_strlit(" ");
    lemma_value_text_free(a.value);
    lemma_value_text_free(b.value);
    lemma_escape_free(a.label);
    lemma_escape_free(b.label);
    let pa = "atom "@ + kind_name(a.kind) + " "@ + escape_spec(a.label);
    let pb = "atom "@ + kind_name(b.kind) + " "@ + escape_spec(b.label);
    assert(atom_body(a) =~= pa + seq![' '] + value_text(a.value));
    assert(atom_body(b) =~= pb + seq![' '] + value_text(b.value));
    lemma_split_at_last(pa, value_text(a.value), pb, value_text(b.value), ' ');
    let h = "atom "@ + kind_name(a.kind) + " "@;
    assert(escape_spec(a.label) =~= pa.skip(h.len() as int));
    assert(escape_spec(b.label) =~= pb.skip(h.len() as int));
    lemma_escape_injective(a.label, b.label);
    match a.value {
        Some(x) => match b.value {
            Some(y) => {
                lemma_decimal_int_injective(x as int, y as int);
            },
            None => {
                reveal_strlit("-");
                lemma_decimal_int_chars(x as int);
                lemma_decimal_digits(if x < 0 { (-x) as nat } else { x as nat });
                assert(decimal_int(x as int).len() >= 1);
                if decimal_int(x as int).len() == 1 {
                    assert(decimal_int(x as int)[0] == '-');
                    if x < 0 {
                        assert(decimal_int(x as int).len() >= 2);
                    } else {
                        assert(is_digit_char(decimal_int(x as int)[0]));
                    }
                }
            },
        },
        None => match b.value {
            Some(y) => {
                reveal_strlit("-");
                lemma_decimal_int_chars(y as int);
                lemma_decimal_digits(if y < 0 { (-y) as nat } else { y as nat });
                if decimal_int(y as int).len() == 1 {
                    assert(decimal_int(y as int)[0] == '-');
                    if y < 0 {
                        assert(decimal_int(y as int).len() >= 2);
                    } else {
                        assert(is_digit_char(decimal_int(y as int)[0]));
                    }
                }
            },
            None => {},
        },
    }
}

/// Semantic equality never reads provenance or atom ids: fragments with
/// the same schema, atom kinds, labels and values, relations and unknowns
/// have the same semantic key and so compare semantically equal.
pub proof fn lemma_semantic_key_ignores_provenance_and_ids(a: FragmentView, b: FragmentView)
    requires
        same_content(a, b),
    ensures
        semantic_key_of(a) == semantic_key_of(b),
        semantically_equal_spec(a, b),
{
    lemma_atom_lines_ignore_ids(a.atoms, b.atoms);
}

proof fn lemma_atom_lines_ignore_ids(a: Seq<AtomView>, b: Seq<AtomView>)
    requires
        a.len() == b.len(),
        forall|i: int|
            0 <= i < a.len() ==> {
                &&& #[trigger] a[i].kind == b[i].kind
                &&& a[i].label == b[i].label
                &&& a[i].value == b[i].value
            },
    ensures
        atom_lines(a) == atom_lines(b),
    decreases a.len(),
{
    if a.len() > 0 {
        let n = a.len() - 1;
        assert(a[n].kind == b[n].kind);
        lemma_atom_lines_ignore_ids(a.drop_last(), b.drop_last());
    }
}

/// Semantic equality is an equivalence relation on fragments.
pub proof fn lemma_semantic_equality_is_equivalence(
    a: FragmentView,
    b: FragmentView,
    c: FragmentView,
)
    ensures
        semantically_equal_spec(a, a),
        semantically_equal_spec(a, b) ==> semantically_equal_spec(b, a),
        semantically_equal_spec(a, b) && semantically_equal_spec(b, c) ==> semantically_equal_spec(
            a,
            c,
        ),
{
}

/// Two fragments carry the same key content: atom kinds, labels and
/// values, relations and unknowns agree (schema, ids and provenance may
/// differ).
pub open spec fn same_key_content(a: FragmentView, b: FragmentView) -> bool {
    &&& a.atoms.len() == b.atoms.len()
    &&& forall|i: int|
        0 <= i < a.atoms.len() ==> {
            &&& #[trigger] a.atoms[i].kind == b.atoms[i].kind
            &&& a.atoms[i].label == b.atoms[i].label
            &&& a.atoms[i].value == b.atoms[i].value
        }
    &&& a.relations == b.relations
    &&& a.unknowns == b.unknowns
}

proof fn lemma_kind_name_injective(x: AtomKind, y: AtomKind)
    requires
        kind_name(x) == kind_name(y),
    ensures
        x == y,
{
    reveal_strlit("Entity");
    reveal_strlit("Event");
    reveal_strlit("Object");
    reveal_strlit("Quantity");
    reveal_strlit("Unknown");
    assert("Entity"@.len() == 6 && "Entity"@[0] == 'E');
    assert("Event"@.len() == 5 && "Event"@[0] == 'E');
    assert("Object"@.len() == 6 && "Object"@[0] == 'O');
    assert("Quantity"@.len() == 8 && "Quantity"@[0] == 'Q');
    assert("Unknown"@.len() == 7 && "Unknown"@[0] == 'U');
    if x != y {
        assert(kind_name(x).len() != kind_name(y).len() || kind_name(x)[0] != kind_name(y)[0]);
    }
}

proof fn lemma_role_name_injective(x: Role, y: Role)
    requires
        role_name(x) == role_name(y),
    ensures
        x == y,
{
    reveal_strlit("source");
    reveal_strlit("target");
    reveal_strlit("object");
    reveal_strlit("quantity");
    assert("source"@[0] == 's');
    assert("target"@[0] == 't');
    assert("object"@[0] == 'o');
    assert("quantity"@[0] == 'q');
    if x != y {
        assert(role_name(x)[0] != role_name(y)[0]);
    }
}

/// Equal atom lines carry equal kinds, labels and values.
proof fn lemma_atom_body_injective(a: AtomView, b: AtomView)
    requires
        atom_body(a) == atom_body(b),
    ensures
        a.kind == b.kind,
        a.label == b.label,
        a.value == b.value,
{
    reveal_strlit(" ");
    reveal_strlit("atom ");
    lemma_value_text_free(a.value);
    lemma_value_text_free(b.value);
    lemma_escape_free(a.label);
    lemma_escape_free(b.label);
    let ha = "atom "@ + kind_name(a.kind);
    let hb = "atom "@ + kind_name(b.kind);
    let pa = ha + " "@ + escape_spec(a.label);
    let pb = hb + " "@ + escape_spec(b.label);
    assert(atom_body(a) =~= pa + seq![' '] + value_text(a.value));
    assert(atom_body(b) =~= pb + seq![' '] + value_text(b.value));
    lemma_split_at_last(pa, value_text(a.value), pb, value_text(b.value), ' ');
    assert(pa =~= ha + seq![' '] + escape_spec(a.label));
    assert(pb =~= hb + seq![' '] + escape_spec(b.label));
    lemma_split_at_last(ha, escape_spec(a.label), hb, escape_spec(b.label), ' ');
    assert(kind_name(a.kind) =~= ha.skip(5));
    assert(kind_name(b.kind) =~= hb.skip(5));
    lemma_kind_name_injective(a.kind, b.kind);
    lemma_atom_body_decodes(a, b);
}

/// Equal relation lines carry equal relations.
proof fn lemma_relation_body_injective(a: Relation, b: Relation)
    requires
        relation_body(a) == relation_body(b),
    ensures
        a == b,
{
    reveal_strlit(" ");
    reveal_strlit("rel ");
    lemma_decimal_free(a.event as nat);
    lemma_decimal_free(b.event as nat);
    lemma_decimal_free(a.target as nat);
    lemma_decimal_free(b.target as nat);
    let ha = "rel "@ + role_name(a.role);
    let hb = "rel "@ + role_name(b.role);
    let pa = ha + " "@ + decimal(a.event as nat);
    let pb = hb + " "@ + decimal(b.event as nat);
    assert(relation_body(a) =~= pa + seq![' '] + decimal(a.target as nat));
    assert(relation_body(b) =~= pb + seq![' '] + decimal(b.target as nat));
    lemma_split_at_last(pa, decimal(a.target as nat), pb, decimal(b.target as nat), ' ');
    assert(pa =~= ha + seq![' '] + decimal(a.event as nat));
    assert(pb =~= hb + seq![' '] + decimal(b.event as nat));
    lemma_split_at_last(ha, decimal(a.event as nat), hb, decimal(b.event as nat), ' ');
    lemma_decimal_injective(a.target as nat, b.target as nat);
    lemma_decimal_injective(a.event as nat, b.event as nat);
    assert(role_name(a.role) =~= ha.skip(4));
    assert(role_name(b.role) =~= hb.skip(4));
    lemma_role_name_injective(a.role, b.role);
}

/// Equal unknown lines carry equal unknowns.
proof fn lemma_unknown_body_injective(a: Seq<char>, b: Seq<char>)
    requires
        unknown_body(a) == unknown_body(b),
    ensures
        a == b,
{
    reveal_strlit("unknown ");
    assert(escape_spec(a) =~= unknown_body(a).skip(8));
    assert(escape_spec(b) =~= unknown_body(b).skip(8));
    lemma_escape_injective(a, b);
}

/// The first character of each kind of key line: `a` for atoms, `r` for
/// relations, `u` for unknowns.
proof fn lemma_line_heads(f: FragmentView)
    ensures
        forall|i: int|
            0 <= i < f.atoms.len() ==> #[trigger] atom_bodies(f.atoms)[i].len() > 0
                && atom_bodies(f.atoms)[i][0] == 'a',
        forall|i: int|
            0 <= i < f.relations.len() ==> #[trigger] relation_bodies(f.relations)[i].len() > 0
                && relation_bodies(f.relations)[i][0] == 'r',
        forall|i: int|
            0 <= i < f.unknowns.len() ==> #[trigger] unknown_bodies(f.unknowns)[i].len() > 0
                && unknown_bodies(f.unknowns)[i][0] == 'u',
{
    reveal_strlit("atom ");
    reveal_strlit("rel ");
    reveal_strlit("unknown ");
    assert forall|i: int| 0 <= i < f.atoms.len() implies #[trigger] atom_bodies(f.atoms)[i].len()
        > 0 && atom_bodies(f.atoms)[i][0] == 'a' by {
        let a = f.atoms[i];
        assert(atom_body(a)[0] == ("atom "@)[0]);
    }
    assert forall|i: int| 0 <= i < f.relations.len() implies #[trigger] relation_bodies(
        f.relations,
    )[i].len() > 0 && relation_bodies(f.relations)[i][0] == 'r' by {
        let r = f.relations[i];
        assert(relation_body(r)[0] == ("rel "@)[0]);
    }
    assert forall|i: int| 0 <= i < f.unknowns.len() implies #[trigger] unknown_bodies(
        f.unknowns,
    )[i].len() > 0 && unknown_bodies(f.unknowns)[i][0] == 'u' by {
        let u = f.unknowns[i];
        assert(unknown_body(u)[0] == ("unknown "@)[0]);
    }
}

/// The semantic key is injective on key content: two fragments have the
/// same semantic key exactly when their atom kinds, labels and values,
/// their relations and their unknowns agree. Atom ids, schema and
/// provenance never affect the key, and label escaping keeps it
/// injective.
pub proof fn lemma_semantic_key_injective(a: FragmentView, b: FragmentView)
    ensures
        semantic_key_of(a) == semantic_key_of(b) <==> same_key_content(a, b),
{
    if same_key_content(a, b) {
        lemma_atom_lines_ignore_ids(a.atoms, b.atoms);
    }
    if semantic_key_of(a) == semantic_key_of(b) {
        lemma_equal_keys_equal_lines(a, b);
        lemma_line_heads(a);
        lemma_line_heads(b);
        let la = key_lines(a);
        let lb = key_lines(b);
        let na = a.atoms.len() as int;
        let nb = b.atoms.len() as int;
        let ra = a.relations.len() as int;
        let rb = b.relations.len() as int;
        assert(la.len() == na + ra + a.unknowns.len());
        assert(lb.len() == nb + rb + b.unknowns.len());
        // Atom counts agree: the first non-atom line of one would be an
        // atom line of the other.
        if na < nb {
            assert(lb[na] == atom_bodies(b.atoms)[na]);
            if na < na + ra {
                assert(la[na] == relation_bodies(a.relations)[0]);
            } else {
                assert(la[na] == unknown_bodies(a.unknowns)[0]);
            }
        }
        if nb < na {
            assert(la[nb] == atom_bodies(a.atoms)[nb]);
            if nb < nb + rb {
                assert(lb[nb] == relation_bodies(b.relations)[0]);
            } else {
                assert(lb[nb] == unknown_bodies(b.unknowns)[0]);
            }
        }
        assert(na == nb);
        if ra < rb {
            assert(lb[na + ra] == relation_bodies(b.relations)[ra]);
            assert(la[na + ra] == unknown_bodies(a.unknowns)[0]);
        }
        if rb < ra {
            assert(la[na + rb] == relation_bodies(a.relations)[rb]);
            assert(lb[na + rb] == unknown_bodies(b.unknowns)[0]);
        }
        assert(ra == rb);
        assert forall|i: int| 0 <= i < a.atoms.len() implies {
            &&& #[trigger] a.atoms[i].kind == b.atoms[i].kind
            &&& a.atoms[i].label == b.atoms[i].label
            &&& a.atoms[i].value == b.atoms[i].value
        } by {
            assert(la[i] == atom_body(a.atoms[i]));
            assert(lb[i] == atom_body(b.atoms[i]));
            lemma_atom_body_injective(a.atoms[i], b.atoms[i]);
        }
        assert forall|i: int| 0 <= i < ra implies a.relations[i] == b.relations[i] by {
            assert(la[na + i] == relation_body(a.relations[i]));
            assert(lb[na + i] == relation_body(b.relations[i]));
            lemma_relation_body_injective(a.relations[i], b.relations[i]);
        }
        assert(a.relations =~= b.relations);
        assert forall|i: int| 0 <= i < a.unknowns.len() implies a.unknowns[i] == b.unknowns[i] by {
            assert(la[na + ra + i] == unknown_body(a.unknowns[i]));
            assert(lb[na + ra + i] == unknown_body(b.unknowns[i]));
            lemma_unknown_body_injective(a.unknowns[i], b.unknowns[i]);
        }
        assert(a.unknowns =~= b.unknowns);
    }
}

/// In a join of non-empty, newline-free lines none of which starts with
/// `f`, every newline is followed by a character other than `f`.
proof fn lemma_nl_join_newline_heads(lines: Seq<Seq<char>>)
    requires
        forall|i: int|
            0 <= i < lines.len() ==> #[trigger] lines[i].len() > 0 && lines[i][0] != 'f'
                && free_of(lines[i], '\n'),
    ensures
        forall|j: int|
            0 <= j < nl_join(lines).len() && #[trigger] nl_join(lines)[j] == '\n' ==> j + 1
                < nl_join(lines).len() && nl_join(lines)[j + 1] != 'f',
    decreases lines.len(),
{
    reveal_strlit("\n");
    if lines.len() > 0 {
        let init = lines.drop_last();
        let last = lines.last();
        assert(last == lines[lines.len() - 1]);
        assert forall|i: int| 0 <= i < init.len() implies #[trigger] init[i].len() > 0 && init[i][0]
            != 'f' && free_of(init[i], '\n') by {
            assert(init[i] == lines[i]);
        }
        lemma_nl_join_newline_heads(init);
        let ji = nl_join(init);
        let whole = nl_join(lines);
        assert(whole == ji + "\n"@ + last);
        assert(whole =~= ji + seq!['\n'] + last);
        assert forall|j: int| 0 <= j < whole.len() && #[trigger] whole[j] == '\n' implies j + 1
            < whole.len() && whole[j + 1] != 'f' by {
            if j < ji.len() {
                assert(whole[j] == ji[j]);
                assert(ji[j] == '\n');
                if j + 1 < ji.len() {
                    assert(whole[j + 1] == ji[j + 1]);
                } else {
                    assert(false);
                }
            } else if j == ji.len() {
                assert(whole[j + 1] == last[0]);
            } else {
                assert(whole[j] == last[j - ji.len() - 1]);
            }
        }
    }
}

/// A semantic key begins with `f` and every newline in it is followed by
/// a line head (`a`, `r` or `u`), never by `f`.
proof fn lemma_key_newline_heads(f: FragmentView)
    ensures
        semantic_key_of(f).len() > 0,
        semantic_key_of(f)[0] == 'f',
        forall|j: int|
            0 <= j < semantic_key_of(f).len() && #[trigger] semantic_key_of(f)[j] == '\n' ==> j + 1
                < semantic_key_of(f).len() && semantic_key_of(f)[j + 1] != 'f',
{
    reveal_strlit("frag:v1");
    lemma_key_is_lines(f);
    lemma_key_lines_free(f);
    lemma_line_heads(f);
    let lines = key_lines(f);
    let ab = atom_bodies(f.atoms);
    let rb = relation_bodies(f.relations);
    let ub = unknown_bodies(f.unknowns);
    assert forall|i: int| 0 <= i < lines.len() implies #[trigger] lines[i].len() > 0 && lines[i][0]
        != 'f' && free_of(lines[i], '\n') by {
        if i < ab.len() {
            assert(lines[i] == ab[i]);
        } else if i < ab.len() + rb.len() {
            assert(lines[i] == rb[i - ab.len()]);
        } else {
            assert(lines[i] == ub[i - ab.len() - rb.len()]);
        }
    }
    lemma_nl_join_newline_heads(lines);
    let h = "frag:v1"@;
    let j = nl_join(lines);
    let key = semantic_key_of(f);
    assert(key == h + j);
    assert(h.len() == 7);
    assert(key[0] == h[0]);
    assert forall|k: int| 0 <= k < key.len() && #[trigger] key[k] == '\n' implies k + 1 < key.len()
        && key[k + 1] != 'f' by {
        if k < 7 {
            assert(key[k] == h[k]);
        } else {
            assert(key[k] == j[k - 7]);
            assert(key[k + 1] == j[k + 1 - 7]);
        }
    }
}

/// Canonical text identifies a fragment's semantics: two fragments have
/// the same canonical text exactly when they have the same schema and
/// the same semantic key (schemas may hold newlines; the key never
/// starts a line after its own header with `f`).
pub proof fn lemma_canonical_text_identifies(a: FragmentView, b: FragmentView)
    ensures
        canonical_text(a) == canonical_text(b) <==> semantically_equal_spec(a, b),
{
    reveal_strlit("\n");
    if canonical_text(a) == canonical_text(b) {
        let t = canonical_text(a);
        let sa = a.schema;
        let sb = b.schema;
        let ka = semantic_key_of(a);
        let kb = semantic_key_of(b);
        lemma_key_newline_heads(a);
        lemma_key_newline_heads(b);
        assert(t =~= sa + seq!['\n'] + ka);
        assert(canonical_text(b) =~= sb + seq!['\n'] + kb);
        if sa.len() < sb.len() {
            let p = sb.len() as int;
            assert(t[p] == '\n');
            assert(t[p + 1] == kb[0]);
            assert(t[p] == ka[p - sa.len() - 1]);
            assert(t[p + 1] == ka[p - sa.len()]);
        } else if sb.len() < sa.len() {
            let p = sa.len() as int;
            assert(t[p] == '\n');
            assert(t[p + 1] == ka[0]);
            assert(t[p] == kb[p - sb.len() - 1]);
            assert(t[p + 1] == kb[p - sb.len()]);
        } else {
            assert(sa =~= t.take(sa.len() as int));
            assert(sb =~= t.take(sb.len() as int));
            assert(ka =~= t.skip(sa.len() as int + 1));
            assert(kb =~= t.skip(sb.len() as int + 1));
        }
    }
}

/// Canonical bytes identify a fragment's semantics: two fragments have
/// equal canonical bytes exactly when they are semantically equal, and
/// the bytes are the UTF-8 encoding of the schema line followed by the
/// semantic key.
pub proof fn lemma_canonical_bytes_identify(a: FragmentView, b: FragmentView)
    ensures
        encode_utf8(canonical_text(a)) == encode_utf8(canonical_text(b)) <==> semantically_equal_spec(
            a,
            b,
        ),
        canonical_text(a) == a.schema + "\n"@ + semantic_key_of(a),
{
    lemma_canonical_text_identifies(a, b);
    encode_utf8_decode_utf8(canonical_text(a));
    encode_utf8_decode_utf8(canonical_text(b));
}

} // verus!
