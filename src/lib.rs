//! Storage and session core of a BASIC runtime: a mount table over pluggable drives, reader
//! access lists, and the decisions behind the cloud login, logout, signup and share commands.
//!
//! Talking to the console and to the remote service is left to the caller: the command types
//! take the outcomes of those exchanges as arguments and return the lines to print.

pub mod acls;
pub mod drive;
pub mod error;
pub mod files;
pub mod fonts;
pub mod order;
pub mod session;
pub mod share;
pub mod signup;
pub mod storage;
pub mod text;
