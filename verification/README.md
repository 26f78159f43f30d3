# nodepilot

A Node.js version manager: it lists the releases of the Node.js index,
installs them under `~/.nodepilot/versions`, switches the
`~/.nodepilot/current` link between them, binds project directories to
versions, runs their dev servers, and puts `~/.nodepilot/current/bin` on the
`PATH` of new shells.

- `src/` is the library, written and proved with Verus: escape-sequence
  stripping, version parsing and the update check, the version list, its
  enrichment and where it comes from (index or cache), download URLs,
  reading release archives (through `tar`, `flate2` and `zip`) and planning
  where each entry goes, activation and deletion plans, project bindings,
  the dev-server registry and log buffers, process trees, git branch
  parsing, and the shell-config, PowerShell-profile and user-`PATH` edits of
  the environment setup and the order of its steps. Its laws (for instance
  that unbinding undoes a binding, that restoring a disabled shell config
  gives it back, that removing the setup's lines undoes an injection, and
  that no archive entry is placed outside its version's directory) are
  public proof functions.
- `tests/` runs the library on concrete values.
- `app/` is the program around it: networking, writing the planned archive
  entries to disk, the file system, processes, the registry and the tray
  icon image.
