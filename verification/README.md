# rmux-server (verified core)

The decision logic of the rmux server, written in Verus with its contracts
proved:

- `mouse`, `mouse_laws`: decoding mouse reports from clients and encoding them
  for panes (legacy, UTF-8 and SGR forms), with round-trip laws.
- `waits`, `sdk_waits`: finding a byte needle across output chunks with a
  bounded tail, and the registry of SDK waits (one-shot ids, early
  cancellation, connection teardown).
- `shutdown`: when a queued shutdown may go ahead.
- `session_leases`: owner leases of app-owned sessions (tokens, renewal,
  release, expiry in name order).
- `source_files`, `tmux_compat`, `tmux_compat_laws`: configuration file
  discovery, `source-file` inputs, and the filter that brings plain option
  settings and key unbindings over from a tmux configuration.
- `config_parse`, `layout_parse`, `queue_parse`, `pane_parse`,
  `session_parse`, `env_parse`, `list_parse`, `display_parse`: the command
  lines of the scripting commands (`set-option`, `show-options`,
  `resize-pane`, `new-window`, `source-file`, `select-pane`, `split-window`,
  `new-session`, `set-environment`, `capture-pane`, `display-message`, the
  `list-*` commands and others), read token by token into plain values.
  Each parser takes a closure that checks a target word where it is given
  (its error comes back as `ParseError::Target`); the target is then returned
  as written, for the caller to look up. Queued `new-window` and `source-file`
  lines hold words and command blocks. `session_parse` also decides what an
  extended `new-session` request does (refuse, join the existing session, or
  create one).
- `option_scope`, `targets`, `keys`, `host_name`,
  `listener`, `shell_text`, `text`, `mode`: smaller rules and helpers.

`app/` holds what touches the operating system: the environment, files,
globbing, and socket cleanup. `tests/` exercises the library on concrete
values.
