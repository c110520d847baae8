//! The mode selector: which of the two jobs a run is asked to do.

use vstd::prelude::*;
use crate::text::same_text;

verus! {

/// What a run does.
#[derive(Clone, Copy, Debug, PartialEq, Eq, Structural)]
pub enum Mode {
    /// Render the documents of the source directory into the destination directory.
    Generate,
    /// Serve the destination directory over HTTP.
    Serve,
}

/// The mode that a selector names: `generate` and `serve` name one each, and
/// no other text names any.
pub open spec fn mode_named(selector: Seq<char>) -> Option<Mode> {
    if selector == "generate"@ {
        Some(Mode::Generate)
    } else if selector == "serve"@ {
        Some(Mode::Serve)
    } else {
        None
    }
}

impl Mode {
    /// Reads a selector. The match is exact: no trimming, no folding of case.
    /// A selector that names no mode gives `None`, on which the caller does
    /// nothing at all.
    pub fn parse(selector: &str) -> (mode: Option<Mode>)
        ensures
            mode == mode_named(selector@),
    {
        if same_text(selector, "generate") {
            Some(Mode::Generate)
        } else if same_text(selector, "serve") {
            Some(Mode::Serve)
        } else {
            None
        }
    }
}

} // verus!
