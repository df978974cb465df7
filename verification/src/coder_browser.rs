//! The preview pane's commands: what the window around the coder screen is
//! asked to do with the page beside it.
use vstd::prelude::*;

verus! {

/// What the one-click button in the empty pane opens: the common dev-server
/// port.
pub const DEFAULT_URL: &'static str = "http://localhost:3000";

/// What the pane should do. Every command ends with the page in a known
/// place, so a resize and a navigation are the same path.
#[derive(Debug, PartialEq, Eq)]
pub enum Cmd {
    /// Create if needed, position, show.
    Show,
    /// Keep the page alive, off the screen.
    Hide,
    Load(String),
    Back,
    Forward,
    Reload,
}

} // verus!
