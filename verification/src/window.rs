//! Window-facing consumer decisions.
//!
//! The host's window-title routine is detoured so the caller can rename
//! the window. The decision — the configured title when one is set, else
//! the host's stock title — is verified here; the replacement hands the
//! chosen text on when it delegates to the displaced routine, and the
//! platform call around it stays outside the library.

use vstd::prelude::*;

verus! {

/// The stock title the host gives its window when none is configured.
pub open spec fn spec_stock_title() -> Seq<char> {
    "World of Warcraft"@
}

/// The title the window-title replacement passes through: the
/// configured one when set, else the host's stock title.
pub fn window_title(configured: Option<String>) -> (t: String)
    ensures
        match configured {
            Some(s) => t@ == s@,
            None => t@ == spec_stock_title(),
        },
{
    match configured {
        Some(s) => s,
        None => "World of Warcraft".to_owned(),
    }
}

} // verus!
