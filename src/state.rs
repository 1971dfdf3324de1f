//! Small values shared with the front end: window geometry and selection outcomes.

use vstd::prelude::*;
use crate::item::Item;

verus! {

/// Remembered window geometry.
#[derive(Debug, Clone, Copy, PartialEq, Eq, Structural)]
pub struct WindowState {
    pub width: i32,
    pub height: i32,
    pub maximized: bool,
}

impl Default for WindowState {
    /// 1200 by 800, not maximized.
    fn default() -> (r: Self)
        ensures
            r == (WindowState { width: 1200, height: 800, maximized: false }),
    {
        WindowState { width: 1200, height: 800, maximized: false }
    }
}

/// The shortest time between two preview updates, in milliseconds.
pub const PREVIEW_UPDATE_THROTTLE_MS: u64 = 50;

/// Whether a preview update at `now` is let through after one at `last`
/// (`0` when there was none): the first update always is, later ones once the
/// throttle interval has passed (a clock that went back counts as no time).
pub open spec fn update_admitted(last: u64, now: u64) -> bool {
    last == 0 || (now >= last && now - last >= PREVIEW_UPDATE_THROTTLE_MS)
}

/// Throttles preview updates; holds the time of the last admitted one.
pub struct PreviewManager {
    pub last_update_ms: u64,
}

impl PreviewManager {
    pub fn new() -> (r: Self)
        ensures
            r.last_update_ms == 0,
    {
        PreviewManager { last_update_ms: 0 }
    }

    /// Decides whether to update the preview at `now_ms`, and remembers the
    /// time when it does.
    pub fn admit_update(&mut self, now_ms: u64) -> (r: bool)
        ensures
            r == update_admitted(old(self).last_update_ms, now_ms),
            final(self).last_update_ms == if r {
                now_ms
            } else {
                old(self).last_update_ms
            },
    {
        let last = self.last_update_ms;
        let elapsed: u64 = if now_ms >= last {
            now_ms - last
        } else {
            0
        };
        if last != 0 && elapsed < PREVIEW_UPDATE_THROTTLE_MS {
            return false;
        }
        self.last_update_ms = now_ms;
        true
    }
}

/// What a selection attempt produced.
pub enum SelectionResult {
    Selected(Item),
    NoSelection,
    Error(String),
}

} // verus!
