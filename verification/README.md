# arc_labs

A local-first notebook over a folder of Markdown notes and JSONCanvas boards,
with a ledger of every change and a bridge for agents that can only propose.

`src/` is the library, checked by Verus: every public function states what it
returns in `requires`/`ensures`, and the library's promises are stated and
proved as `law_*` proof functions next to the code they are about.

- `path`, `error` — vault paths that cannot escape the vault, and errors that
  never name a host path.
- `fidelity`, `frontmatter`, `wikilink`, `render` — reading a note without
  losing how it was written, and what its links, embeds, tags and headings are.
- `canvas`, `canvas_file` — `.canvas` files, read and written back byte for
  byte when unchanged, key order and formatting kept when edited.
- `entry`, `calendar`, `ledger`, `proposals`, `hash` — the ledger: who
  changed what and when, with timestamps that sort as time does, exact
  restores by content hash, and proposals that never touch a file.
- `index`, `graph` — what the search index stores for each note, how typed
  text becomes a search query, and the link graph.
- `tree`, `vault`, `templates`, `draft`, `weave`, `listing` — the note tree,
  trash, templates and drafting one with a model, related links, and folder
  listings.
- `api`, `types`, `mcp` — what crosses to a shell or an agent; for agents,
  the whole JSON-RPC exchange except carrying out a tool call.
- `config`, `platform`, `doctor`, `setup`, `runs`, `sync`, `seam` —
  configuration, the machine check and its install plan, canvas runs and the
  registry a surface polls, when and with what a client syncs, and the model
  seams.

Calls into other crates (`blake3`, `comrak`, `similar`, `serde_json`, `which`, and a few
parts of `std`) sit behind small trusted wrappers whose contracts say only
what those crates document, or name the result where it takes pages to state.

`app/` is the program around the library: the disk, the SQLite index, the
clock, the network, the terminal and floating-point card geometry. It is
ordinary Rust and is not verified.

`tests/` runs the library on concrete values.
