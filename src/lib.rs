//! Notification lifecycle log: transcript lexing, event correlation,
//! merge-aggregation of logged facts and retention of the log.

pub mod text;
pub mod record;
pub mod aggregate;
pub mod retention;
pub mod laws;
pub mod dismiss;
pub mod lexer;
pub mod correlator;
pub mod decode;
pub mod config;
pub mod cli;
pub mod view;
