//! Decisions of a small workspace manager: one root directory under the
//! user's home, named subdirectories below it, and a shell opened inside.
//!
//! The library never touches the filesystem. A command becomes a
//! [`session::Session`], which hands the caller one filesystem or shell step
//! at a time and decides, from what the caller reports back, whether to go
//! on, stop with a report, or stop with an error.
pub mod model;
pub mod paths;
pub mod session;
