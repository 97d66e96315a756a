# ssh-guard

A guard for SSH forced commands: a TOML configuration lists the commands that users may
run (rules with subcommand trees, allowed flags and argument templates), and every
command is matched against it, recorded in an audit log, and carried out only when a
rule allows it.

Layout:

- `src/` is the library, written in Verus. `engine/` parses argument templates and
  matches commands against the rules; `actions.rs` plans what a matched rule does;
  `perform.rs` holds the decisions taken while carrying a plan out; `guard.rs` decides
  a session; `merge.rs` learns rules from example commands; `config/` holds the
  configuration, profiles and their resolution for a user; `audit.rs` builds audit
  events; `binaries.rs` validates a configuration's binaries.
- `app/` is the program around it: the command line, reading and writing TOML, the
  environment, syslog, the file system and child processes.
- `tests/` exercises the library.
