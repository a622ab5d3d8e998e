# git-redundancy

`gr` keeps a fleet of local working repos backed up to bare "home" remotes:
it shows the state of every repo at a glance and pushes the easy, committed
work home. It never auto-commits, never force-pushes and never touches a
diverged branch.

## Layout

- `src/` — the library, verified with Verus. The tool's decisions live here
  with contracts: parsing `git` output, classifying a branch
  against a remote, what `push` and `sync` do with each classification, the
  home inventory and its join with the local repos, the status table and
  JSON, the provisioning steps of `create`, the onboarding walk, path
  discovery, audit records and time formatting. The laws the tool promises
  (a push is only attempted when it cannot overwrite remote history, a
  fast-forward needs a clean tree, a dry run records nothing, every real
  action is audited, …) are public proof functions beside the code they
  speak of.
- `app/` — the `gr` binary: argument parsing, reading the config file, running
  `git` and `ssh` (the fetches, reads and pushes the library plans), the
  terminal prompts and appending to the audit log. It hands the library plain
  values and acts on what comes back.
- `tests/` — tests of the library on concrete values.

## Server hooks

With a `[backup]` server configured, `gr create` installs a `post-receive`
hook on the primary home and a `pre-receive` guard on the backup home. Their
bodies are read from `hooks/post-receive` and `hooks/pre-receive` next to the
configuration file (`~/.config/git-redundancy/hooks/`).
