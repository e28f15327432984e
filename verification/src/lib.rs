//! EasyAlias: terminal shortcuts, automations and their schedules, as a
//! verified library. Parsers, renderers and validators of the desktop and
//! terminal editions live here; file and process handling lives in `app/`.

pub mod text;
pub mod shell_alias;
pub mod message;
pub mod alias_entry;
pub mod managed_block;
pub mod trash;
pub mod automation;
pub mod timed;
pub mod settings;
pub mod paths;
pub mod order;
pub mod automation_store;
pub mod schedule;
pub mod shell_import;
pub mod tui_platform;
pub mod clock;
pub mod cmd_scripts;
pub mod listing;
pub mod text_input;
pub mod alias_store;
pub mod runner;
pub mod tui_keys;
pub mod tui_forms;
pub mod run_view;
pub mod list_view;
pub mod backup_view;
pub mod automation_edit;
pub mod command_import;
pub mod home_import;
