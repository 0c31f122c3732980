//! Core of a terminal mail user agent: maildir filename/flag handling, an
//! IMAP command session, a conversation threading engine, a sieve filter
//! parser, and the MIME attachment model, each with a verified contract.

pub mod attachment_types;
pub mod backend;
pub mod conf;
pub mod error;
pub mod imap;
pub mod maildir;
pub mod sieve;
pub mod sieve_lex;
pub mod sieve_print;
pub mod threads;
pub mod types;
pub mod utilities;
pub mod wcwidth;
