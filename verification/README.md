# capsule-runtime

The rules a capsule runtime decides by, verified with Verus: which queued task runs next, how far
a task is trusted, what a peer's file handle authorises, what a guest may reach, which writes are
refused, how a plan's steps are scheduled, and how the capsule's door answers.

- `src/` is the library. Every function states what it returns, and every statement is proved.
  Calls into other crates stand behind small functions whose doc comments begin with `Trusted:`
  and say what is taken on trust.
- `tests/` runs the library on concrete values, with the other crates linked.
- `app/` is the ordinary Rust around it: files, sockets, processes and guests.

| module | what it decides |
| --- | --- |
| `origin`, `lanes` | provenance of a task, and the order tasks run in |
| `mac_token`, `peer_handoff` | sealed tokens, and files handed to one named peer |
| `door`, `identity` | a connection at the door, step by step |
| `outgoing`, `otel` | requests to peers, spans |
| `plan` | validation, conditions and scheduling of a plan |
| `network_policy`, `network_namespace`, `workdir` | what a guest may reach |
| `protected_paths`, `shell_script`, `tool_annotations` | writes into read-only subtrees |
| `reachability` | what a sealed capsule can still run |
| `limits`, `process_driver`, `inference_import` | guests and drivers |
| `inference_credential`, `murmur_home` | the credential in use, and the home's modes |
| `codec`, `json`, `record`, `paths`, `text`, `ids`, `errors`, `diagnostics`, `a2a` | what the others share |
