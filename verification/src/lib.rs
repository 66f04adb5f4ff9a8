//! The logic of a static file server.
//!
//! The server reads a request line, finds the file that it asks for under a root directory, and
//! sends it. This library decides what to do; the program around it does the work with files,
//! sockets and threads, and hands back what came of it.
//!
//! - [`connection`] is a connection as a machine that takes events and gives actions, and
//!   [`connection_laws`] is what holds of all of its runs;
//! - [`request`] reads request lines and locates targets, [`paths`] is about Unix paths;
//! - [`response`] makes the heads of responses and the pages for errors;
//! - [`stream`] sends a file in chunks;
//! - [`config`] is the configuration and the command line, and [`config_laws`] is what holds of every
//!   command line;
//! - [`log`] and [`messages`] make what is written to the log;
//! - [`pool`] is about the workers that serve connections;
//! - [`text`] and [`split`] are about words, numbers and pieces of sequences;
//! - [`outside`] holds what is taken on trust from other crates and from std.
pub mod config;
pub mod config_laws;
pub mod connection;
pub mod connection_laws;
pub mod log;
pub mod messages;
pub mod outside;
pub mod paths;
pub mod pool;
pub mod request;
pub mod response;
pub mod split;
pub mod stream;
pub mod text;
