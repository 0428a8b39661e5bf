//! Hotkey bindings for a music player: the configuration record grammar,
//! the table of local bindings, the host's action registry, and the
//! session engine that keeps global shortcuts registered with a desktop
//! shortcut service.

pub mod commands;
pub mod host;
pub mod record;
pub mod session;
pub mod text;
pub mod title;
