//! Display and source modes, and the names under which they are written.

use vstd::prelude::*;
use crate::text::same_text;

verus! {

/// How an item's value is shown: as literal text, or as the path of an image.
#[derive(Debug, Clone, Copy, PartialEq, Eq, Structural)]
pub enum DisplayMode {
    Text,
    Picture,
}

/// How a category's entries become items.
#[derive(Debug, Clone, Copy, PartialEq, Eq, Structural)]
pub enum SourceMode {
    /// Each entry is a (title, value) pair.
    Config,
    /// Each entry's value is a shell command whose output lines become items.
    Command,
    /// Each entry is a (list command, preview template) pair.
    Dynamic,
}

impl Default for DisplayMode {
    fn default() -> (r: Self)
        ensures
            r == DisplayMode::Text,
    {
        DisplayMode::Text
    }
}

impl Default for SourceMode {
    fn default() -> (r: Self)
        ensures
            r == SourceMode::Config,
    {
        SourceMode::Config
    }
}

/// The display mode that a lower-case name stands for, if any.
pub open spec fn display_named(s: Seq<char>) -> Option<DisplayMode> {
    if s == "picture"@ {
        Some(DisplayMode::Picture)
    } else if s == "text"@ {
        Some(DisplayMode::Text)
    } else {
        None
    }
}

/// The source mode that a lower-case name stands for, if any.
pub open spec fn source_named(s: Seq<char>) -> Option<SourceMode> {
    if s == "config"@ {
        Some(SourceMode::Config)
    } else if s == "command"@ {
        Some(SourceMode::Command)
    } else if s == "dynamic"@ {
        Some(SourceMode::Dynamic)
    } else {
        None
    }
}

/// Reads a display mode name (`"picture"` or `"text"`, case-sensitive).
pub fn display_from_name(s: &str) -> (r: Option<DisplayMode>)
    ensures
        r == display_named(s@),
{
    if same_text(s, "picture") {
        Some(DisplayMode::Picture)
    } else if same_text(s, "text") {
        Some(DisplayMode::Text)
    } else {
        None
    }
}

/// Reads a source mode name (`"config"`, `"command"` or `"dynamic"`, case-sensitive).
pub fn source_from_name(s: &str) -> (r: Option<SourceMode>)
    ensures
        r == source_named(s@),
{
    if same_text(s, "config") {
        Some(SourceMode::Config)
    } else if same_text(s, "command") {
        Some(SourceMode::Command)
    } else if same_text(s, "dynamic") {
        Some(SourceMode::Dynamic)
    } else {
        None
    }
}

} // verus!
