//! mdbook-lang: an mdBook preprocessor that turns fenced code blocks of
//! several programming languages into playgrounds, the installer that
//! registers it in a book, and the decisions of the build server that runs
//! the playgrounds' code.

pub mod text;
pub mod config;
pub mod lang;
pub mod install;
pub mod server;
