# hyperion_vault

A replicated secrets vault. The library in `src/` holds the vault's logic, verified with Verus:

- `crypto`, `auth`, `types`, `rbac`, `rotation`, `ip_allowlist`: the security core. Secrets are
  sealed with XChaCha20-Poly1305 under a data key that a key wrapper protects; what is sealed is
  bound to the name and version of the secret.
- `store`: the stored records, the ordered tables they stand in, and `apply_command`, through which
  every change goes. `store::laws` states what the changes keep.
- `raft`: the log, the state machine and the decisions of a node of the cluster.
- `service`, `change`, `batch`, `payload`, `validate`, `manage`: the operations on secrets, roles
  and tokens, each cut where the key management service is asked.
- `guards`, `lockout`, `audit`: who is let in, and what is recorded of what they do.
- `config`, `startup`, `kms`, `cache`, `rewrap`, `sweep`, `workers`, `pg_apply`, `supervisor`:
  running a node.
- `laws`: what holds from one operation to the next, such as that a read gives back what was
  written.
- `text`, `order`, `cursor`, `clock`, `dto`, `error`, `api_error`: what the others build on.

What the library takes on trust stands beside the functions that use it, each with what it claims
of the function it calls: the AEAD, the digest, the encodings, the random source, the clock, and
the parser of address blocks.

`app/` is the service itself: the REST API, the file of a node, the calls to the key management
service and to other nodes. `app/extension.rs` is the rotation supervisor inside PostgreSQL, whose
schema is `extras/vault_bootstrap.sql`.
