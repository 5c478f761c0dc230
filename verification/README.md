# zyvor_fabricd

The decision logic of the Zyvor fabric daemon's API, written in Verus and
verified: AI inference scheduling, placement, routing weights, autoscaling,
rollouts and revisions, API keys and rate limits, VIP allocation, model
jobs, login and external identity, container groups, images and host
capabilities.

Layout:

- `src/` is the library. Each module states its contracts over spec
  functions and views; public proof functions state the laws that relate
  several functions (for example `auth::lemma_refused_logins_count`,
  `ai::ipam::lemma_reserve_idempotent_no_reuse`,
  `ai::revisions::lemma_rolling_keeps_a_ready_replica`).
- Calls into outside crates (`sha2`, `subtle`, `serde_json`, `base64`,
  `rand`, `jsonwebtoken`) stand behind small trusted wrappers whose contracts say what those
  crates document.
- `app/` is the plain Rust around the library: reading settings and files,
  running `nvidia-smi`, the floating-point metrics, and the serde copies of
  the library's types.
- `tests/` runs the library on concrete values.
