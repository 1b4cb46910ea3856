//! Rule engine of a local header-rewriting proxy: the profile model, the
//! compiled ruleset and what it plans for a request, the parsers used to
//! detect a system proxy, and the decisions the proxy and its control panel
//! make around them.

pub mod ca;
pub mod config;
pub mod headers;
pub mod inspect;
pub mod launch;
pub mod pattern;
pub mod proxydetect;
pub mod rules;
pub mod text;
pub mod upstream;

pub use rules::{
    compile, default_state, is_valid_header_name, AppState, Compiled, Filter, Header,
    HeaderAction, HeaderOp, Plan, Profile, Redirect,
};
