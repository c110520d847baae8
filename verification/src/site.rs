//! The fixed layout of a site: where its documents lie, where its pages go
//! and where they are served. None of it can be configured.

use vstd::prelude::*;
use crate::text::joined;

verus! {

/// The directory that is searched for documents.
pub const SOURCE_DIR: &'static str = "content";

/// The directory that the pages are written to and served from.
pub const DESTINATION_DIR: &'static str = "public";

/// The address that the server binds: the loopback interface.
pub const LOOPBACK: [u8; 4] = [127, 0, 0, 1];

/// The port that the server binds.
pub const PORT: u16 = 3001;

/// The log filter that applies when none is set from outside: the program
/// itself, under the name of its crate, and the HTTP middleware both log at
/// level `debug`.
pub open spec fn log_filter_for(crate_name: Seq<char>) -> Seq<char> {
    crate_name + "=debug,tower_http=debug"@
}

/// Builds the default log filter for a program whose crate has this name.
pub fn default_log_filter(crate_name: &str) -> (filter: String)
    ensures
        filter@ == log_filter_for(crate_name@),
{
    joined(crate_name, "=debug,tower_http=debug")
}

} // verus!
