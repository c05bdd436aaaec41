# ros2probe

Host-level observability for ROS 2: the probe reads DDS traffic off the wire, draws the ROS
graph from it, watches and records topics, and answers a command-line tool.

- `src/` is the core, in Verus: every function states what it returns or changes, and is proved
  to do so. It holds the parsing and reassembly of packets (`capture`), the reading of discovery
  data (`discovery`), the picture of the graph and the command server (`command`), the sessions
  and commands of the running probe (`runtime`), the logic of recordings (`recorder`) and of the
  command-line tool (`cli`). Proof functions named `law_…` state what holds across functions.
- `tests/` runs the core on concrete values.
- `app/` is ordinary Rust around the core: sockets, files, threads, the terminal, floating-point
  figures and the wire format.

Three outside crates are called from the core: `bytes` for shared buffers, `base64` for payloads
as text, and `chrono` for the time stamp in the name of a recording. `payload.rs`,
`base64_text.rs`, `text_from_utf8` in `text.rs` and `local_time_text` in `runtime/bag.rs` say what
is taken on trust.
