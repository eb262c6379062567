# warp_ssh

The logic behind a list of SSH hosts, verified with Verus.

- `text`, `order`, `numbers`, `pattern`: characters, the order of strings, decimal
  numbers, and the wildcard patterns of `ssh_config(5)`.
- `directives`, `aliases`, `details`: the statements of configuration files, the
  aliases they name, and one record per host.
- `include_walk`, `include_tree`: following `Include` lines. The walk asks for what it
  needs and is given answers; the tree says what a whole walk amounts to.
- `paths`: which files hold configuration.
- `host_list`, `metadata`, `edit_dialog`, `settings_page`: the hosts that are shown,
  what the user keeps about them, and how it is edited.
- `journal`, `managed`, `reconnect`: the events of a session, its life, and when to
  try to reconnect.

`src/` is the verified library. `app/` does the file access around it and holds the
types that are serialized.
