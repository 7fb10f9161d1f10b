//! redirection.io redirect engine as an http-wasm plugin for Sozune: **local
//! matching**, no agent.
//!
//! The guest matches each request against rules that its config carries
//! ([`guest`], [`host`], [`request`], [`ruleset`], [`random`]). A sync process
//! beside it pulls the rules from redirection.io, translates them and writes
//! that config ([`sync`], [`translate`]).

pub mod guest;
pub mod host;
pub mod json;
pub mod random;
pub mod request;
pub mod ruleset;
pub mod sync;
pub mod text;
pub mod translate;
