# tabby_inference

Stop conditions for streaming code completion, and the language table they read, with
machine-checked contracts and proofs.

- `src/languages.rs`: languages (comment markers, stop words), the built-in language table,
  lookups by name and by file extension, and the checks that refuse a table where a name or
  an extension repeats.
- `src/decoding.rs`: the stop condition that watches generated text for stop words (kept
  reversed in a `trie_rs` trie) and for the end of a step list written in line comments; the
  factory that caches one stop trie per language in a `dashmap` map and adds what each
  generation style needs.
- `src/trie.rs`: what the library assumes of the `trie_rs` calls it makes.
- `src/laws.rs`: properties that span several functions.
- `app/`: the process-wide table, which reads the user's `config.toml` from disk.
