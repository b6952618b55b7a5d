pub mod audio;
pub mod command;
pub mod document;
pub mod error;
pub mod focus;
pub mod fullscreen;
pub mod layout;
pub mod monitor;
pub mod pattern;
pub mod restore;
pub mod store;
pub mod sys;
pub mod text;
pub mod toggle;
pub mod tree;
