# local-stack-core

The verified core of Local Agent Stack, a local control plane for an Ollama
runtime and the DeepSeek Harness agent.

- `src/` is the library, written in Verus. Every function carries a contract,
  and the laws of the library are public proof functions (`law_*`): the
  lossless folding of trace records into logical operations, the slot queue
  of inference leases, replay ordering, trace edges, workflow branches,
  managed-runtime activation and rollback, stack start/stop plans,
  configuration and path rules.
- `app/` is the asynchronous shell around it: files, processes, HTTP, archive
  extraction and serde copies of the library's types. It asks the library
  what to do and reports what happened.
- `tests/` exercises the library on concrete values.

Outside crates are called from `src/` only through a few trusted wrappers
(`reqwest`'s URL parser, `semver`, `sha2`, `serde_json` parsing and printing,
and two `String` conversions), each with a contract stated over a named
result. Session lines, projections and `package.json` files are parsed in
`src/`; `app/` only reads and writes the bytes.
