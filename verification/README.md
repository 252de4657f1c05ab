# prune

The SoupRune mod manager: a command line that inspects a SoupRune
workspace, plans and runs the Android build and deploy, and serves an HTTP
API to the Android client.

- `src/` is the verified library: workspace paths, mod manifests and the
  dependency load order, the Android build plan and its shell rendering,
  and the server's bookkeeping (authorization, snapshots, event log, build
  jobs, and which files the projects bundle holds under which names).
- `app/` is the program around it: argument parsing, reading TOML files,
  running commands, the HTTP server, walking the projects directory and
  writing the zip bundle.
- `tests/` exercises the library on concrete inputs.
