# Conic Terracotta

A Terracotta-compatible LAN relay for Minecraft behind a C interface: rooms
identified by codes such as `U/XXXX-XXXX-XXXX-XXXX`, an EasyTier overlay
network per room, and the scaffolding protocol by which a guest finds the
host's game and follows its player list.

## Layout

- `src/` is the library, verified with Verus: room codes, the session state
  machine and its version tokens, the bounded event queue, the handling of
  commands, the scaffolding protocol (frames and request handlers), the
  overlay's command lines, peer list and port-forward retries, the decisions
  of the host and guest flows (the guest's connection steps among them), the
  LAN scan, and the checks of the C interface.
- `app/` holds what carries those decisions out: the exported C functions,
  the runtime thread, sockets, the overlay process, and the files the
  library reads and writes.
- `tests/` exercise the library on concrete values.

The library's contracts speak of plain values (sequences, integers, and
views of its types); calls into `serde_json`, `hex`, `rand_core` and a few
std functions stand behind small trusted wrappers whose doc comments say
what each claims.
