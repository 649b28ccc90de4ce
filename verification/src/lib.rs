//! A request-matching engine for a multi-site HTTP server: wildcard-domain
//! matching, host-set matching, location (glob / regular-expression /
//! prefix / suffix) matching and IP allow/deny matching, together with the
//! plain request and response types the surrounding server hands around.
//!
//! Every matcher is an immutable value after construction, and every
//! matching function's result is pinned by its contract as a function of
//! the compiled patterns and the candidate alone.

pub mod addr;
pub mod host;
pub mod ip;
pub mod location;
pub mod request;
pub mod response;
pub mod text;
pub mod wildcard;
