# rsp

A manager for SSH local port forwards. Rules (a name, a local port, a remote
host from `~/.ssh/config` and a remote port) are kept in `~/.rsp.json`; the
`rsp` program starts and stops the `ssh` clients that hold them, shows their
state on the command line or in a desktop window, and keeps the rules file in
line with what actually runs.

## Layout

- `src/` is the library, written in Verus and verified. It holds the rule
  table and its edits, the reading of what `lsof`, `ps` and the ssh client
  configuration print, the start and stop procedures as state machines that
  are handed each outcome and answer with the next action, the messages and
  prompts of the subcommands, and the state of the desktop window.
  Public proof functions (`lemma_*`) state the properties that hold across
  calls: what a stop or start run leaves in the table when it saves, that a
  failed run stays failed, that refreshing twice changes nothing more, that a
  rule loaded into the form and saved unchanged comes back as it was, and
  others.
- `app/` is the program around the library: argument parsing, terminal
  prompts, the rules file, running the external commands that the state
  machines ask for, and drawing the window.
- `tests/` runs the library on concrete inputs.
