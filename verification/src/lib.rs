//! An in-application command console: tokenizer, command registry, alias and
//! subcommand resolution, typed argument coercion, history and autocomplete.

pub mod ascii_art;
pub mod autocomplete;
pub mod builtin_commands;
pub mod coercion;
pub mod command_entry;
pub mod command_entry_highlighter;
pub mod command_history;
pub mod commands;
pub mod console_options;
pub mod execution;
pub mod history_gui;
pub mod lifecycle;
pub mod numbers;
pub mod registry;
pub mod resolver;
pub mod text;
pub mod tiny_console;
pub mod tokenizer;
pub mod usage;
pub mod util;
