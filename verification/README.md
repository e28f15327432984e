# EasyAlias library

EasyAlias manages shell aliases and "automations" (named sequences of shell
commands and pauses) on macOS, Linux and Windows. This crate holds the
rules of the tool, verified with Verus; `app/` is the command-line program
around it that reads and writes files and talks to the shell.

## Layout

- `src/` – the verified library, one module per concern:
  - aliases: `alias_entry`, `alias_store`, `trash`, `order`, `shell_alias`,
    `managed_block`, `shell_import`, `home_import`, `tui_platform`;
  - Windows command files: `cmd_scripts`, `command_import`;
  - automations: `automation`, `automation_store`, `automation_edit`,
    `runner`, `run_view`, `timed`, `schedule`, `clock`, `settings`;
  - terminal views and keys: `list_view`, `listing`, `backup_view`,
    `text_input`, `tui_keys`, `tui_forms`;
  - shared text helpers: `text`, `message`, `paths`.
- `tests/` – tests that run the library with the real outside crates.
- `app/` – the `easyalias` command: file and process I/O, serde records,
  systemd jobs and the sunrise/sunset computation (floating point).

Calls into outside code (chrono and a few std functions that vstd does not
specify) stand behind small trusted wrappers whose contracts say what the
outside source shows; everything else is proved.
