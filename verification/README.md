# keyward

The decisions of an SSH agent proxy that can say what a signature was for,
verified with Verus, and the daemon around them.

- `src/wire.rs`: the encoding of the agent protocol, with the proof that what is
  written is read back.
- `src/agent/`: the proxy. `session` follows a connection, `identities` merges
  the keys of the upstream agents, `sign` takes a request to its answer,
  `approval` says how far one authentication reaches, `prompt` writes the line
  that the user consents to, `extension` keeps the host a session is bound to.
- `src/enclave.rs`: the key in the Secure Enclave: its public form, its
  signatures, and how a new one is made.
- `src/ui.rs`: the card that stands behind the system sheet.
- `src/event.rs`, `src/config.rs`, `src/cli.rs`, `src/paths.rs`: the log, the
  configuration, the command line and paths.
- `src/crypto.rs`: fingerprints; SHA-256 and base64 come from `sha2` and
  `base64`.
- `app/`: the `keywardd` program: sockets, threads, files, the calls into the
  enclave and the JSON forms of the library's types.

Times are integers in nanoseconds throughout the library. The configuration file
gives `touch_id_reuse_secs` in seconds, and `agent_program`, if it is there, is
the program name of the coding agent that the card tells from a plain `node`.
