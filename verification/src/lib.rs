//! Verified core of a text-mode development environment.

pub mod build_report;
pub mod callstack_window;
pub mod commands;
pub mod debugger;
pub mod desktop;
pub mod draw;
pub mod geometry;
pub mod gutter;
pub mod ide;
pub mod ide_editor;
pub mod ide_file_editor;
pub mod layout;
pub mod lldb;
pub mod menus;
pub mod metadata;
pub mod number;
pub mod output;
pub mod output_panel;
pub mod paths;
pub mod prompts;
pub mod set_mask;
pub mod text;
pub mod trace_log;
pub mod tracking;
pub mod value_editor;
pub mod variable;
pub mod watch_window;
