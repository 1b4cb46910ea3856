//! Settings of the control panel.

use vstd::prelude::*;

verus! {

/// What the control panel serves and where it keeps its files.
#[derive(Debug, Clone)]
pub struct Config {
    /// Port of the local proxy.
    pub proxy_port: u16,
    /// Port of the control panel.
    pub ui_port: u16,
    /// The certificate pin browsers are launched with.
    pub spki: String,
    /// Path of the authority's certificate (PEM).
    pub ca_path: String,
    /// Path of the saved state.
    pub state_path: String,
    /// Directory of the launched browser's profile.
    pub profile_dir: String,
}

} // verus!
