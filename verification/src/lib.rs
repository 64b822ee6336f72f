//! Which directory a versioned cache database uses, and which databases of other versions are kept
//! next to it.
//!
//! The decisions never touch a file: [`session::handle_db_versioning`] starts a session, which asks
//! for file operations and takes in what came of them. [`laws`] states what holds of every session,
//! whatever the file system answers.

pub mod age;
pub mod laws;
pub mod names;
pub mod recency;
pub mod selection;
pub mod session;
