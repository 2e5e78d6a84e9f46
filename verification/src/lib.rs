//! Verified core of a terminal desktop viewer: image placement geometry, the
//! Kitty graphics escape stream, tile diffing, key translation for the inner
//! X display, persistent-session state files and audio routing decisions.

pub mod text;
pub mod session;
pub mod layout;
pub mod kitty;
pub mod diff;
pub mod input;
pub mod renderer;
pub mod capture;
pub mod audio;
pub mod config;
pub mod display;
