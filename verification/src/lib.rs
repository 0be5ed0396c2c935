//! Session persistence for a terminal emulator.
pub mod application;
pub mod application_laws;
pub mod attach;
pub mod cli;
pub mod cli_laws;
pub mod client_laws;
pub mod close;
pub mod config;
pub mod confirm;
pub mod context;
pub mod context_laws;
pub mod daemon;
pub mod daemon_laws;
pub mod desk;
pub mod dispatch;
pub mod events;
pub mod graphics;
pub mod graphics_laws;
pub mod grid;
pub mod grid_column_laws;
pub mod grid_grow;
pub mod grid_image_laws;
pub mod grid_laws;
pub mod grid_line_laws;
pub mod grid_shrink;
pub mod images;
pub mod input;
pub mod input_laws;
pub mod json;
pub mod kept;
pub mod kept_laws;
pub mod launch;
pub mod matching;
pub mod modes;
pub mod modes_laws;
pub mod opening;
pub mod pane;
pub mod pane_laws;
pub mod process_laws;
pub mod procfs;
pub mod protocol;
pub mod reaction_laws;
pub mod rebuild;
pub mod rebuild_laws;
pub mod remote;
pub mod ring;
pub mod saved;
pub mod session;
pub mod session_laws;
pub mod table;
pub mod tabs;
pub mod text;
pub mod trigger_action_laws;
pub mod triggers;
pub mod triggers_laws;
pub mod words;
