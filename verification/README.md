# narco

Private chat for two people. No accounts, no server, no history.

Both people enter the same secret. It becomes a Tor address, they meet there,
and everything they say is end-to-end encrypted.

The library in `src/` is written in Rust and verified with Verus: what each
function does is stated in its contract, and proved.

| Module | What it holds |
| --- | --- |
| `code`, `kdf` | room codes, and everything derived from them |
| `pake`, `session` | the SPAKE2 handshake and the ratcheted transport |
| `frame`, `message`, `wire_format` | what goes over the wire, and what it means |
| `onion`, `identity` | the address both people meet at |
| `wire`, `transport`, `daemon`, `status` | what is decided while connecting, and what is said to Tor |
| `chat`, `files`, `ui` | the conversation |
| `relay` | the rules of the optional relay |
| `crypto`, `encoding`, `secret`, `text`, `bytes`, `scan` | what the rest is built from |

Statements about the library as a whole are the proof functions whose names
begin with `law_`.

Cryptography, Unicode normalization, randomness and Tor's key types come from
the crates that implement them. Each is called through one small function whose
doc comment says what is claimed of it.

`tests/` holds the tests. `app/` holds the programs around the library: the
desktop app and the relay, with their sockets, processes, clocks and windows.
