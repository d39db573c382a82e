# giantd

A Map Remote proxy: requests that match a rule are sent to another host
(a local development server, say), and all others pass through unchanged.
Rules live in TOML profiles under `~/.giant-proxy/profiles/`.

## Layout

- `src/` is the library, written in Verus. Each public function carries a
  contract, and Verus proves the body against it. The proofs cover rule
  matching and URI rewriting, profile loading and validation, edits to the
  rule list, request routing (the first enabled rule that matches wins), PAC
  script generation, the bounded traffic log, the legacy and Proxyman
  importers, the mitmproxy export, the shell environment snippet, and the
  reading of network settings output.
  `glob_match` and `regex` are called through small trusted wrappers, and
  each wrapper's doc comment says what it assumes.
- `app/` is ordinary Rust. It holds the daemon (control API on a Unix
  socket, PAC server, the intercepting proxy built on hudsucker), the
  `giant-proxy` command line, file and process I/O, and the serde copies of
  the library's types. The binary runs as the command line when it is
  started under the name `giant-proxy`; under any other name it runs the
  daemon.
- `tests/` runs the library on concrete values.
