//! A lint library that flags functions in Solidity sources which read the
//! same member of a shared storage struct more than once.
//!
//! Source text is parsed and searched by the `slang_solidity` engine behind a
//! small trusted boundary ([`engine`]); everything the lint decides from the
//! resulting matches — canonical member names, enclosing functions, duplicate
//! tracking — is verified code with exact contracts ([`tracker`], [`pipeline`]).

pub mod engine;
pub mod config;
pub mod laws;
pub mod pipeline;
pub mod records;
pub mod tracker;
