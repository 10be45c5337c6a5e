# mncs_ingest

Ingestion and semantic normalisation for one bounded kind of observation
(a transfer of objects between two entities), with every decision stated as
a contract and proved with Verus.

Four representations of one transfer (active text, passive text, a JSON
event, native codes) converge to one canonical fragment; provenance stays
with each fragment and never enters its semantic identity. Three streaming
readers (CSV-lite records, binary telemetry frames, bounded JSON manifests)
read byte streams in windows, and what they yield does not depend on how
the stream was chunked.

## Layout

- `src/ir.rs`: the canonical fragment, its semantic key and canonical bytes;
  the key decodes back to its lines, which is what makes semantic equality
  agree with equality of the facts.
- `src/language.rs` and `src/language/`: the policy verdicts behind
  `LanguageRuntime`: vocabulary, validation, equality, ordering, the transfer
  grammar (`src/grammar.rs`), and the line, field, frame, scanner and pair
  steps of the streaming formats.
- `src/adapters/`: text, structured (JSON through `serde_json`) and native
  adapters behind one trait.
- `src/canonical.rs`: fragment assembly from canonical facts, signal ids
  (SHA-256 through `sha2`), and semantic equality over facts.
- `src/consumer.rs`, `src/envelope.rs`: the consumer handoff and sealed
  envelopes.
- `src/csv.rs`, `src/frames.rs`, `src/manifest.rs`: the streaming readers and
  the laws that chunking does not matter and that written records and
  encoded frames read back.
- `app/`: serialisable copies of the IR, a displayable error, and the writer
  of the transfer fixtures.
- `tests/`: the behaviour suites and concrete checks of the laws.
