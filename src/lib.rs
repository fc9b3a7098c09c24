//! A verified core for sharing local files over an ad-hoc HTTP endpoint.
//!
//! - `manifest`: turns a selection read from disk into the list of shared
//!   files, each under a fresh opaque id.
//! - `address`: the URLs a share is reachable at, and the one to show first.
//! - `serve`: what the server answers: id lookup, download headers, the
//!   index page.
//! - `session`: the descriptor of a share, and the slot that holds at most
//!   one running share.
//! - `hosts`, `env`: parsers for the hosts file and for shell profiles.
//! - `netinfo`, `search`: address classification, proxy endpoints, and the
//!   request-side rules of a file search.
//! - `text`, `clock`: character helpers and the wall clock.
use vstd::prelude::*;

pub mod text;
pub mod address;
pub mod manifest;
pub mod serve;
pub mod session;
pub mod hosts;
pub mod env;
pub mod clock;
pub mod netinfo;
pub mod search;

verus! {

} // verus!
