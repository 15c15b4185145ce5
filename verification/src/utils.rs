//! Hit judgment and small helpers shared by the game states.

use vstd::prelude::*;

use crate::components::{time_in_range, HitObject};
use crate::resources::BeatMap;

verus! {

/// Which removal pass an entity belongs to when a state is torn down.
#[derive(PartialEq, Eq, Structural)]
pub enum RemovalLayer {
    SongSelect,
    Gameplay,
}

/// Classifies a set of pressed keys: `z` and `x` are the red-lane keys,
/// `two` and `three` the blue-lane keys. Returns `(red, dual)`: whether a
/// red key is down, and whether both keys of one lane are down at once.
pub fn get_key_press_type(z: bool, x: bool, two: bool, three: bool) -> (r: (bool, bool))
    ensures
        r.0 == (z || x),
        r.1 == ((z && x) || (two && three)),
{
    let dual = (z && x) || (two && three);
    let red = z || x;
    (red, dual)
}

/// `number` lies within `margin` of `target`.
pub open spec fn value_near_spec(number: int, target: int, margin: int) -> bool {
    target - margin <= number <= target + margin
}

/// Whether `number` lies within `margin` of `target`.
pub fn value_near(number: i64, target: i64, margin: i64) -> (r: bool)
    requires
        time_in_range(target as int),
        time_in_range(margin as int),
    ensures
        r == value_near_spec(number as int, target as int, margin as int),
{
    target - margin <= number && number <= target + margin
}

/// A timeline instant derived from the wall clock and the user offset: the
/// sum of a few in-range times, so a little wider than `time_in_range`.
pub open spec fn timeline_in_range(t: int) -> bool {
    -4_000_000_000_000_000 <= t <= 4_000_000_000_000_000
}

/// What `check_hit` returns: the signed timing offset when the note was
/// within the hit window (`None` otherwise), and whether the right keys
/// were used for the note's colour and size.
pub open spec fn spec_check_hit(
    maxhitoffset: int,
    hit: HitObject,
    time: int,
    redpressed: bool,
    dual: bool,
) -> (Option<i64>, bool) {
    if value_near_spec(time, hit.time as int, maxhitoffset) {
        (Some((time - hit.time) as i64), (hit.red == redpressed) && (hit.big == dual))
    } else {
        (None, false)
    }
}

/// Judges one input event against one note.
/// Found no note to hit: `(None, false)`.
/// Found a note to hit, used the wrong keys: `(Some(offset), false)`.
/// Found a note to hit, used the right keys: `(Some(offset), true)`.
pub fn check_hit(
    beatmap: &BeatMap,
    hit: &HitObject,
    time: i64,
    redpressed: bool,
    dual: bool,
) -> (r: (Option<i64>, bool))
    requires
        beatmap.wf(),
        hit.wf(),
        timeline_in_range(time as int),
    ensures
        r == spec_check_hit(beatmap.maxhitoffset as int, *hit, time as int, redpressed, dual),
{
    if value_near(time, hit.time, beatmap.maxhitoffset) {
        if (hit.red && redpressed) || (!hit.red && !redpressed) {
            if (hit.big && dual) || (!hit.big && !dual) {
                return (Some(time - hit.time), true);
            } else {
                return (Some(time - hit.time), false);
            }
        }
        return (Some(time - hit.time), false);
    }
    (None, false)
}

/// Whether two byte strings hold the same bytes.
pub fn bytes_eq(a: &Vec<u8>, b: &Vec<u8>) -> (r: bool)
    ensures
        r == (a@ == b@),
{
    if a.len() != b.len() {
        return false;
    }
    let mut i: usize = 0;
    while i < a.len()
        invariant
            a@.len() == b@.len(),
            i <= a@.len(),
            forall|j: int| 0 <= j < i ==> a@[j] == b@[j],
        decreases a@.len() - i,
    {
        if a[i] != b[i] {
            return false;
        }
        i = i + 1;
    }
    proof {
        assert(a@ =~= b@);
    }
    true
}

/// The suffix of file paths that hold a beatmap difficulty.
pub open spec fn osu_suffix() -> Seq<u8> {
    seq![46u8, 111u8, 115u8, 117u8]
}

/// Whether a file path names a beatmap difficulty, that is, ends in ".osu".
pub fn is_osu_path(path: &Vec<u8>) -> (r: bool)
    ensures
        r == (path@.len() >= 4 && path@.skip(path@.len() - 4) == osu_suffix()),
{
    let n = path.len();
    if n < 4 {
        return false;
    }
    let r = path[n - 4] == 46 && path[n - 3] == 111 && path[n - 2] == 115 && path[n - 1] == 117;
    proof {
        if r {
            assert(path@.skip(path@.len() - 4) =~= osu_suffix());
        } else {
            assert(path@.skip(path@.len() - 4)[0] == path@[path@.len() - 4]);
            assert(path@.skip(path@.len() - 4)[1] == path@[path@.len() - 3]);
            assert(path@.skip(path@.len() - 4)[2] == path@[path@.len() - 2]);
            assert(path@.skip(path@.len() - 4)[3] == path@[path@.len() - 1]);
        }
    }
    r
}

/// Finds the first loaded beatmap whose audio path is `songpath`, as when
/// the player clicks a song-select button.
pub fn find_beatmap(maps: &Vec<BeatMap>, songpath: &Vec<u8>) -> (r: Option<usize>)
    ensures
        match r {
            Some(i) => {
                &&& 0 <= i < maps@.len()
                &&& maps@[i as int].songpath@ == songpath@
                &&& forall|j: int| 0 <= j < i ==> maps@[j].songpath@ != songpath@
            },
            None => forall|j: int|
                0 <= j < maps@.len() ==> (#[trigger] maps@[j]).songpath@ != songpath@,
        },
{
    let mut i: usize = 0;
    while i < maps.len()
        invariant
            i <= maps@.len(),
            forall|j: int| 0 <= j < i ==> (#[trigger] maps@[j]).songpath@ != songpath@,
        decreases maps@.len() - i,
    {
        if bytes_eq(&maps[i].songpath, songpath) {
            return Some(i);
        }
        i = i + 1;
    }
    None
}

/// Converts a time read from a beatmap file (milliseconds as `i32`) to a
/// time on the song timeline.
pub fn osu_to_real_time(time: i32) -> (r: i64)
    ensures
        r == time as int,
        time_in_range(r as int),
{
    time as i64
}

} // verus!
