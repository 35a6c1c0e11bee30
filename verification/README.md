# rayfish

The decisions behind a mesh VPN's node: how it configures the host's DNS, its TUN device and
routes, limits inbound control messages, finds its logs, and updates itself. Each decision is a
function from plain values to plain values, with a contract that Verus proves; the laws that
span several functions are public proof functions beside them.

- `src/dns` reads, renders and undoes `/etc/resolv.conf`, keeps the search lists, and chooses
  the backend that routes `.ray`.
- `src/tun` settles the MTU, plans routes and link changes, and writes the PowerShell scripts for
  Windows.
- `src/ratelimit.rs` is a token bucket with strikes.
- `src/update` picks a release, decides whether to take it, and says what happened.
- `src/logdir.rs` says where the daemon logs.
- `src/command.rs` tells how a program that was run ended; `src/platform.rs` names the systems.
- `src/text.rs`, `src/digits.rs` and `src/addr.rs` are the texts, numbers and addresses
  underneath.
- `tests` runs the library; `app` is the edge that reads files, runs programs and asks servers.

What is believed rather than proved is marked where it stands: the contracts of the functions of
`smol_str`, `bytes`, `dirs` and the standard library that the library calls.
