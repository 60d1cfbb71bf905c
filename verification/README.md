# ipc_authority

Decides which IPC commands of a desktop application a page may call, from a
resolved access control list, and proves with Verus what the decisions
guarantee.

- `src/label.rs`: glob patterns over window and webview labels.
- `src/remote.rs`: URLs and URL patterns.
- `src/acl.rs`: entries of an access control list and the tables that hold them.
- `src/authority.rs`: origins, the authority and its `resolve_access`.
- `src/strategies.rs`: what origins, command names and labels are drawn from, and
  the draws.
- `src/laws.rs`: what holds of every decision, as proof functions.
- `src/text.rs`: strings and characters.
- `tests/`: the same promises on random and on chosen calls.
- `app/`: the same strategies as `proptest` has them, and a run that holds the decisions
  against those of `tauri`.

Globs are matched by `glob`, URLs are parsed by `url`, URL patterns are tested
by `tauri-utils`, and random values are drawn by `proptest`. Each of these calls
stands behind a small function whose contract is trusted; its doc comment says
what is claimed of the outside crate.
