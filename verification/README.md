# proc-lens

A Linux process inspector that explains what a process is, who launched it,
which application or project it belongs to, and what it consumes. It reads
`/proc`, groups processes into tasks (a ROS 2 launch, a systemd service, a
container, an application), maps ROS 2 nodes to the processes that host them,
and shows it all as text, as a JSON runtime report, or in a terminal
dashboard.

## Layout

- `src/` is the library, verified with Verus. Every decision the tool makes
  is there with its contract: the `/proc` parsers, the classifier and its
  evidence, the assembly of a process or thread sample from what was read
  (which entries count, their identities, the CPU counter movements paired
  with the previous sample), the process tree and parent chains, provenance
  and project labels, task grouping and totals, the GPU sample merge, the
  ROS 2 output parsers and node mapping, the text views (listing, process
  report, task table and report), the dashboard's key handling, list order
  and selection, and the runtime report's selection of processes and
  threads. The laws the library keeps are public proof functions in the
  `laws` modules (`classifier`, `collector`, `task`, `gpu`, `ui`,
  `ros2_probe`), in `inspect_laws.rs`, `listing_laws.rs`, `owner_laws.rs`,
  `process/tree_laws.rs` and in `process/tree.rs`.
- `app/` is the program around it: the command line, reading the files of
  `/proc` and the file system, NVML and the `ros2` command, the floating-point figures (CPU
  percentages and their smoothing, load averages), serde, and drawing with
  ratatui.
- `tests/` runs the library on concrete values.

## Use

- `proc-lens snapshot` prints the processes, busiest first; `--json` gives
  the runtime report instead.
- `proc-lens inspect <PID>` explains one process and its provenance.
- `proc-lens tasks` prints the tasks (a ROS 2 launch, a service, a
  container, an application, a lone process), busiest first, then largest,
  then by task ID; `proc-lens task <TASK_ID>` explains one task and its
  members.
- `proc-lens` alone opens the dashboard. `a` switches between the process
  view and the task view. In the task view, search also matches member
  names, commands and project labels; `p` sorts by task ID; `t` (tree mode)
  does nothing; the selection stays on its task ID while rows move.
