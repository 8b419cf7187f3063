# mlc_cli

An unofficial command-line client for The MLC Public Search API (binary `mlc`),
with its logic written and proved in Verus.

- `src/` is the verified library: the JSON model of API documents (`json`),
  text operations (`text`), command arguments and the requests they become
  (`cli`), the API session, response judgement and token redaction
  (`client`), credential-source rules and the steps of `auth setup` (`config`), table rows for
  terminal output (`output`), checksum manifests (`checksums`) and the
  self-update decisions: what to download, and the executable to install from a
  checksum-verified archive
  (`update`).
- `app/` is the program around it: argument parsing with clap, HTTP with
  reqwest, files and their permissions, the environment, prompts, terminal
  output, and the conversion between `serde_json` values and the library's
  JSON model (parsing and pretty-printing JSON text).
- `tests/` exercises the library on concrete values.

Calls into outside crates that only compute on plain values (semver, sha2,
comfy-table, reqwest's status codes, and tar with flate2 for reading update
archives) stand in `src/` behind small trusted wrappers whose contracts say
what the crates' sources show. serde and serde_json work on the library's
types through derives, which `src/` cannot carry, so JSON text is parsed and
printed in `app/`.
