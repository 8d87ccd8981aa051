pub mod buffer_contents;
pub mod change;
pub mod chars;
pub mod text;
pub mod buffer;
pub mod movement;
pub mod cursor;
pub mod buffer_laws;
pub mod input;
pub mod layout;
pub mod window_order;
pub mod window;
pub mod region;
pub mod command;
pub mod key_map;
pub mod messages;
pub mod logger;
pub mod state;
pub mod commands;
pub mod git;
pub mod run;
pub mod listing;
pub mod finish;
pub mod draw;
pub mod debug_renderer;
pub mod config;
