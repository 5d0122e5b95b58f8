# portpal

Portpal keeps SSH port forwards running. A configuration file
(`~/.config/portpal/portpal.toml`) names each tunnel; a daemon starts the
`ssh` processes, watches that each process lives and that its local port
answers, restarts failed tunnels after their reconnect delay, and serves
requests on a Unix socket (`~/.config/portpal/portpal.sock`); the `portpal`
command line lists, inspects, refreshes, stops and reloads the tunnels.

Layout:

- `src/` — the library, verified with Verus:
  - `text.rs`: whitespace and trimming, substring search, decimal numbers,
    line splitting and string order, each with its specification;
  - `config.rs`: the configuration, its validation rules and the sample file;
  - `connection.rs`: one tunnel's supervision as a state machine over what
    the daemon observes of its process, with its laws;
  - `state.rs`: the daemon's connections in name order, the requests'
    operations and reloading, with their laws;
  - `ipc.rs`, `daemon.rs`: the socket messages, request planning and responses;
  - `cli.rs`, `ssh.rs`, `paths.rs`: reading `ps`/`lsof` output, every report's
    text, the `ssh` command line and the file locations.
- `app/` — the program around it: argument parsing, TOML and JSON, the
  socket, the `ssh` processes, clocks and probes.
- `tests/` — tests of the library.
