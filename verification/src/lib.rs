//! The verified core of the HUME modal editor: text and undo history, buffers and
//! panes, key dispatch, the command registry, completion, search and syntax
//! bookkeeping. Terminal, file and clipboard access live in the application around it.
#![allow(unused_imports)]

pub mod strings;
pub mod text;
pub mod selection;
pub mod message_log;
pub mod changeset;
pub mod history;
pub mod paths;
pub mod name_map;
pub mod slots;
pub mod buffer;
pub mod buffer_store;
pub mod pane_state;
pub mod ops;
pub mod keys;
pub mod minibuf;
pub mod keymap;
pub mod registers;
pub mod register_ops;
pub mod command;
pub mod registry;
pub mod editor_commands;
pub mod dispatch;
pub mod grapheme;
pub mod auto_pairs;
pub mod messages;
pub mod focus;
pub mod modes;
pub mod search;
pub mod search_commands;
pub mod pattern_modes;
pub mod state;
pub mod editing;
pub mod insert_mode;
pub mod paste;
pub mod paste_session;
pub mod paste_sweep;
pub mod command_line;
pub mod execute;
pub mod navigate;
pub mod typed_buffers;
pub mod typed_files;
pub mod typed_misc;
pub mod keymap_names;
pub mod scripting;
pub mod scripting_init;
pub mod host;
pub mod side_effects;
pub mod completion;
pub mod scroll;
pub mod mouse;
pub mod syntax;
pub mod parse_worker;
pub mod syntax_glue;
pub mod panes;
pub mod startup;
