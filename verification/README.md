# LinkMesh

A mesh network across NAT: devices join a mesh by a one-time code, get a certificate and a
virtual address, find each other through a signaling server and talk directly where hole
punching works, else through a relay. The data plane is end-to-end encrypted, rotates its
keys, and delivers packets in order and once.

What client and server decide is in `src/`, verified with Verus: each function
states what it returns or changes, and the properties that span functions are stated as
proof functions beside them.

- `bytes`, `seqs`, `text`, `table`, `net`: big-endian numbers, filtering, text, a map with a
  stable order, addresses.
- `outside`: what is taken from the operating system and other crates (random bytes,
  SHA-256, base64), with what is relied on.
- `alias`, `cert`, `protocol`: names, certificates and revocation lists, message bodies.
- `log`, `control`, `cli`, `help`, `bench`: the log, the control channel, the command line
  and the measuring tools.
- `client`: tunnel frames (`tunnel`), ordered delivery (`reliable`), sessions with peers
  (`peer`), the data plane (`outbox`, `upkeep`, `discovery`, `paths`), connections to servers
  (`connection`), names (`aliases`, `dns`), configuration (`config`) and commands (`commands`,
  `joining`, `report`, `control`).
- `server`: configuration (`config`), the mesh and its members (`mesh`, `join`), sessions
  (`sessions`), routes (`routes`), limits (`guard`), relaying (`relay`), signaling
  (`signaling`) and commands (`control`, `commands`).

`tests/` runs the library. `app/` holds the programs around it: sockets, files, the virtual
network interface, timers, and the Android bridge. The cipher suite, the signatures and the
wire format come from the crate `linkmesh_shared`; `app/shared.rs` is the only file that
names it.

    linkmesh client --help
    linkmesh server --help
