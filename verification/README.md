# lad_core

The verified core of a browser-automation toolkit for AI agents: it turns a
web page into a compact semantic view, decides what to do on it, and keeps
the agent away from unsafe places.

- `src/` is the library, written in Verus: every function carries a
  `requires` / `ensures` contract and Verus proves the code against it.
  Calls into outside crates (`url`, `regex`, `serde_json`, `sha2`,
  `getrandom`, `qrcode`, `jaq`) go through small trusted wrappers whose contracts
  name what the crate computes.
- `tests/` runs the library on concrete inputs.
- `app/` is ordinary Rust around the library: files, the environment, the
  clock, the local network, the terminal, and the floating-point selector
  scoring.

Main modules: `semantic` (page views and their prompt text), `observer`
(diffs), `selector`, `target` and `helpers` (finding elements and the
scripts that act on them), `playbook` (replay and learning), `runner` and
`decide` (the pilot loop's decisions), `extract` (query-driven filtering),
`netguard` and `sanitize` (navigation safety, redaction, prompt-injection
defenses), `session`, `network`, `oauth`, `watch`, `tools`, `relay`.
