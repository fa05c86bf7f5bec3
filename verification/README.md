# mentisdb

The core of MentisDB, a durable memory log for agents, written in Verus. Thoughts are
semantically typed records in an append-only, hash-chained log; agents and entity types
have registries of their own; chains are stored in a length-prefixed binary file and
listed in a directory registry.

## Layout

- `src/` — the library, verified by Verus.
  - `text`, `positions`: characters, trimming, searching, sorted position lists.
  - `kinds`: the closed vocabularies (thought types, roles, scopes, relation kinds,
    storage kinds) with their names and parsers.
  - `model`, `hashing`: thoughts, inputs, scores, timestamps; the canonical hash.
  - `registry`, `agents`: the agent and entity-type registries and their edits.
  - `chain`: the log itself — appending, integrity, invalidation, lookups.
  - `index`, `query`, `traversal`, `window`, `context`: filtered queries, indexed
    candidates, sequential traversal, time windows, reference closure and prompts.
  - `binfmt`, `naming`, `migration`, `chains`, `branch`, `writer`, `registry_sync`: record
    framing, storage file names, the migration driver and its decisions, the directory
    registry, branching, the group-commit decisions of the background writer, and when
    registry files are rewritten.
  - `markdown`, `markdown_laws`: the MEMORY.md export and reader, and the proof that a
    bullet the export writes reads back as written.
  - `llm`, `signing`: validation of model-extracted memories; the payload an agent signs.
- `app/` — ordinary Rust around the library: files, serde records, the writer thread,
  the clock, random ids and the chat endpoint.
- `tests/` — tests of the library through its public interface.

## Trust

Calls into `sha2`, `bincode`, `chrono` and a few `std` functions go through small
wrappers marked `#[verifier::external_body]`. Where the crate's source gives the result
in a few lines (chrono's calendar range, bincode's length prefix for strings) the
contract states it, or the library computes it itself and proves it; where it does not
(SHA-256, Unicode case and class tables) the contract names the result and states only
what the sources and documentation show. Everything else in `src/` is proved. The bytes
a thought's hash covers (`Thought::hash_body`, the canonical bincode encoding of its
fields) are made in `app/records.rs`, because they are a serde encoding of a library
type; the library checks every hash against those bytes but does not choose which
fields they cover.

## Not included

Ranked, vector and federated search, context bundles, summary candidates and the
vector sidecars score with floating point, and stay outside this crate. So does
near-duplicate detection on append (`dedup_threshold`): `MentisDb::prepare_append`
takes the thought a new one supersedes as an argument, and `app/` always passes
`None`, as no similarity scorer is part of the crate. Deferred flushing of derived
edges is not included either, and the binary file format is read and written by
`app/storage.rs` over the library's framing functions rather than through a public
storage-adapter type.
