# bit_tunnel

A light network tunnel. Local programs speak SOCKS5 to the client; the client carries their
connections over a few encrypted streams to the server; the server connects to the destinations.

`src/` is the verified library: the frames of the two streams and their readers, the SOCKS5
dialogue, the tables of entries and what a tunnel does about each message, the life of an entry on
both sides, the sharing of connections among tunnels, and the command line settings. Each function
that the programs call takes what happened and returns what to do next.

`app/` is the two programs: sockets, channels, timers, the log. The cipher, the log file and the
values of the protocol's constants come from the workspace crate `common`.

## Client

Required: `-s` server address. Optional: `-m` number of tunnels (2), `-l` listen address
(127.0.0.1:1080), `--log` log path (/var/log/bit-tunnel/client.log), `-k` key (123456).

## Server

Required: `-l` listen address. Optional: `--log` log path (/var/log/bit-tunnel/server.log), `-k`
key (123456).
