# phantun-client-mac

The client side of Phantun on macOS: it takes UDP datagrams from local clients
and carries them to a server over connections that look like TCP.

`src/` is a library without input or output, verified with Verus:

- `wire`, `frame`, `capture`: link-layer frames, captured records, and the
  packets of the server in them
- `sender`: packets on their way to a raw socket
- `bpf`, `route`, `firewall`, `device`: opening a packet device, step by step,
  and undoing what a failure left behind
- `forwarder`: clients, their connections, and when these begin and end
- `config`, `cli`, `startup`: the configuration file, the command line, and the
  addresses that follow from them
- `net`, `text`, `error`, `process`: the plain values that the others share

`app/` is the program: it opens files, sockets and devices, runs commands and
tasks, and asks the library what to do next. `tests/` runs the library.
