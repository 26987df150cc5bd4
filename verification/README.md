# resourcefs_sources

The adapter logic of the ResourceFS sources, written in Verus with its
behaviour stated as `requires`/`ensures` contracts and proved.

- `src/` is the verified library: GitHub wire checks and renderings, the
  pagination `Link` grammar, conditional fetch decisions, request headers,
  the creation-document frontmatter grammar, mutation classification, facts
  record validation, authenticated continuation cursors, Git object checks,
  HTTP retry and admission budgets, the reader-mode Markdown state machine,
  Workspace Root authority, and the workspace discovery budget and walk
  decisions. Calls into outside crates (`url`, `base64`, `aws-lc-rs`,
  `gix-object`, `gix-hash`, `httpdate`, `serde_json`, `sha2`, `getrandom`,
  `reqwest`'s header types) stand behind small trusted wrappers whose
  contracts name or state their results.
- `app/` is the unverified shell: serde decoding of GitHub JSON, the
  html5ever tokenizer sink, the collection page loop, and the JSON
  documents (facts and cursor envelopes) written through the library's
  bounded writer.
- `tests/` exercises the library on concrete values.
