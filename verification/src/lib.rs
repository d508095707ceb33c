//! A read-only, in-memory key-value store and the rules of the server around it.
//!
//! A dataset is one packed arena of bytes plus a list of windows into it. It comes
//! from CSV text ([`store::csv_loader`]) or from a compiled image of the same two
//! parts ([`store::compiled`]), and both ways end in one [`store::Store`].

pub mod bench;
pub mod calls;
pub mod cli;
pub mod config;
pub mod metrics;
pub mod path;
pub mod server;
pub mod store;
pub mod text;
