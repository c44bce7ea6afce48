# chronacle

The core of a tabletop game master's assistant, verified with Verus: text
normalisation and chunking of source books, heading detection, the entity
model and its relationship graph, wikilinks, the assistant's prompts and
citations, the extraction prompts and batching, and the records of campaigns,
collections, sessions and settings.

- `src/` — the verified library. Every public function states its result in
  `ensures`; the laws of the library are public proof functions
  (`lemma_*`).
- `tests/` — tests of the library on concrete values.
- `app/` — the application around it: the database services, the model and
  embedding providers, the PDF backend, serde and error types. It makes the
  outside calls and hands the library plain values.
