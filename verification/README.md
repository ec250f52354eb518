# rcman

A settings manager for applications: settings stored by category and key,
validated against a schema, with secrets kept in a credential store
(OS keychain, an encrypted file or memory), profiles, hot reload, Markdown
documentation and `.rcman` backups.

The library under `src/` is written in Verus: each public function states
its behaviour in `requires`/`ensures` over a mathematical model of its
data, and Verus proves the code against it. Calls into outside crates
(serde_json, regex, sha2, base64, aes-gcm, argon2, rand, keyring-core)
stand behind small trusted wrappers whose contracts say what those crates
do.

- `src/settings.rs`, `src/operations.rs`, `src/secrets.rs`: the settings
  store, saving and resetting settings, moving secrets between the settings
  and the credential store.
- `src/credentials/`: backends and the credential manager with its
  fallbacks and profile-scoped keys.
- `src/profiles.rs`, `src/backup/`, `src/reload.rs`, `src/docs.rs`,
  `src/metadata.rs`, `src/validation.rs`, `src/accessors.rs`: profiles,
  backup planning and restore decisions, the hot-reload state machine,
  documentation, setting metadata, value checks and the rules of the schema
  derive.
- `app/`: the parts that touch files, archives, the environment and
  threads, in ordinary Rust on top of the library.
- `tests/`: tests of the library.
