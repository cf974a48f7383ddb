//! The state behind the terminal user interface. Drawing and the event loop are
//! the binary's; this module holds the application state machine they drive.

pub mod app;
pub mod text;
pub mod theme;
