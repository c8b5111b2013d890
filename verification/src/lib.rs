//! The verified core of a debug adapter for Cyberpunk 2077 scripts.
//!
//! The library decides: where execution stops, what a request of the client is answered, which
//! breakpoints are set, and how values are shown. Reading the memory of the game, the socket and
//! the threads is the business of the plugin around it, which hands plain values in and takes
//! plain values back.
pub mod control;
pub mod event;
pub mod frame;
pub mod hooks;
pub mod laws;
pub mod mapping;
pub mod pages;
pub mod path;
pub mod protocol;
pub mod session;
pub mod source;
pub mod state;
pub mod table;
pub mod text;
pub mod value;
pub mod variables;
