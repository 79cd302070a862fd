# codex_plus_core

Verified logic of a managed gateway for the Codex engine, written in Verus.

In managed mode the engine sends its traffic to a local proxy. Hosts on a fixed list go
through a SOCKS5 upstream, every other host is reached directly, and a host that belongs
on the upstream is never reached in another way, even if the upstream is down.

- `src/` is the library. It performs no input or output: it decides what to dial, answer,
  write or log, and each decision is a function with a proved contract. Laws that relate
  several functions stand beside them as `law_*` proof functions.
- `app/` acts on those decisions: sockets, files, the credential store of the system and
  the command line of `codex-plus-credential`.
- `tests/` runs the library on concrete values.

Texts are modelled as sequences of characters (`text`, `number`). What is believed without
proof is marked `external_body`, `assume_specification` or `uninterp`, each with a comment
that says what is claimed: a few functions of the standard library, and the calls into
`toml_edit` by which `config.toml` is edited (`managed_config`).
