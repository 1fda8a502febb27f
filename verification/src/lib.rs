//! A verified core for a small filesystem utility: parsing its command
//! line, validating octal permission modes, filtering directory entries by
//! extension and name, and the file operations and the depth-first listing
//! themselves, specified over an in-memory model of the filesystem. Every
//! operation's contract says exactly what becomes of the model's path map,
//! and the listing's contract pins every output line.

pub mod command;
pub mod errors;
pub mod filter;
pub mod laws;
pub mod model;
pub mod mode;
pub mod paths;
pub mod strutil;
pub mod walk;
