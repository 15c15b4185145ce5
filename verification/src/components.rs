//! Hit-object components: the timed cues a player must hit.

use vstd::prelude::*;

verus! {

/// Every time on the song timeline that the library reasons about stays in
/// this range (about thirty years in milliseconds), so that sums and
/// differences of a handful of them fit in an `i64`.
pub open spec fn time_in_range(t: int) -> bool {
    -1_000_000_000_000_000 <= t <= 1_000_000_000_000_000
}

/// A single taiko note: its lane colour, its scheduled time on the song
/// timeline in milliseconds, and whether it is a big (two-key) note.
#[derive(Clone, Copy, PartialEq, Eq, Structural, Debug)]
pub struct HitObject {
    pub red: bool,
    pub time: i64,
    pub big: bool,
}

impl HitObject {
    /// The note's scheduled time is far from the `i64` limits.
    pub open spec fn wf(self) -> bool {
        time_in_range(self.time as int)
    }
}

/// A mania-mode note; the lane is `512 / <first data column>`.
pub struct ManiaHitObject {
    pub lane: i32,
}

/// A taiko note without a scheduled time.
pub struct TaikoHitObject {
    pub red: bool,
    pub big: bool,
}

} // verus!
