//! Shared game resources: the loaded beatmap, the queue of upcoming notes,
//! and the per-note outcome log.

use vstd::prelude::*;

use std::collections::VecDeque;

use crate::components::{time_in_range, HitObject};

verus! {

/// A loaded beatmap: its display name, the path of its audio track, its
/// notes in ascending scheduled order, and the hit window radius in
/// milliseconds.
#[derive(Clone)]
pub struct BeatMap {
    pub name: Vec<u8>,
    pub songpath: Vec<u8>,
    pub objects: Vec<HitObject>,
    pub maxhitoffset: i64,
}

impl BeatMap {
    /// The hit window is non-negative and every time in the map is far from
    /// the `i64` limits.
    pub open spec fn wf(self) -> bool {
        &&& 0 <= self.maxhitoffset
        &&& time_in_range(self.maxhitoffset as int)
        &&& forall|i: int| 0 <= i < self.objects@.len() ==> (#[trigger] self.objects@[i]).wf()
    }
}

impl Default for BeatMap {
    /// An empty beatmap with no notes and a zero-width hit window.
    fn default() -> (r: Self)
        ensures
            r.name@ == Seq::<u8>::empty(),
            r.songpath@ == Seq::<u8>::empty(),
            r.objects@ == Seq::<HitObject>::empty(),
            r.maxhitoffset == 0,
            r.wf(),
    {
        BeatMap { name: Vec::new(), songpath: Vec::new(), objects: Vec::new(), maxhitoffset: 0 }
    }
}

/// The outcome classification of a judged note.
pub enum HitResult {
    Perfect,
    Good,
    Miss,
}

impl Default for HitResult {
    /// A note that was never hit counts as a miss.
    fn default() -> (r: Self)
        ensures
            r is Miss,
    {
        HitResult::Miss
    }
}

/// The upcoming notes in chronological order; the head is the next note
/// that can be resolved.
pub struct HitObjectQueue {
    pub queue: VecDeque<HitObject>,
}

impl HitObjectQueue {
    /// Every queued note has an in-range time.
    pub open spec fn wf(self) -> bool {
        forall|i: int| 0 <= i < self.queue@.len() ==> (#[trigger] self.queue@[i]).wf()
    }

    /// An empty queue.
    pub fn new() -> (r: HitObjectQueue)
        ensures
            r.queue@ == Seq::<HitObject>::empty(),
            r.wf(),
    {
        HitObjectQueue { queue: VecDeque::new() }
    }

    /// The queue of a freshly loaded beatmap: all of its notes, in the
    /// order the map lists them.
    pub fn from_beatmap(beatmap: &BeatMap) -> (r: HitObjectQueue)
        ensures
            r.queue@ == beatmap.objects@,
            beatmap.wf() ==> r.wf(),
    {
        let mut queue: VecDeque<HitObject> = VecDeque::new();
        let mut i: usize = 0;
        while i < beatmap.objects.len()
            invariant
                i <= beatmap.objects@.len(),
                queue@ == beatmap.objects@.take(i as int),
            decreases beatmap.objects@.len() - i,
        {
            queue.push_back(beatmap.objects[i]);
            i = i + 1;
            proof {
                assert(queue@ =~= beatmap.objects@.take(i as int));
            }
        }
        proof {
            assert(beatmap.objects@.take(beatmap.objects@.len() as int) =~= beatmap.objects@);
        }
        HitObjectQueue { queue }
    }
}

impl Default for HitObjectQueue {
    /// The default queue is empty.
    fn default() -> (r: Self)
        ensures
            r.queue@ == Seq::<HitObject>::empty(),
            r.wf(),
    {
        HitObjectQueue { queue: VecDeque::new() }
    }
}

/// Append-only log of per-note outcomes: the signed timing offset of a
/// successful hit, or `None` for a miss or a wrongly keyed hit.
pub struct HitOffsets {
    pub offsets: Vec<Option<i64>>,
}

impl Default for HitOffsets {
    /// The log starts empty.
    fn default() -> (r: Self)
        ensures
            r.offsets@ == Seq::<Option<i64>>::empty(),
    {
        HitOffsets { offsets: Vec::new() }
    }
}

/// Per-user settings: a signed correction in milliseconds added to the
/// timeline clock.
pub struct UserSettings {
    pub offset: i64,
}

impl Default for UserSettings {
    /// No correction.
    fn default() -> (r: Self)
        ensures
            r.offset == 0,
    {
        UserSettings { offset: 0 }
    }
}

} // verus!
