//! The per-frame game step: reading key events, dropping notes whose hit
//! window has passed, and judging the head note against the input.

use vstd::prelude::*;

use crate::components::{time_in_range, HitObject};
use crate::resources::{BeatMap, HitObjectQueue, HitOffsets, UserSettings};
use crate::utils::{check_hit, get_key_press_type, spec_check_hit, timeline_in_range};

verus! {

/// A key event the game reacts to: the four hit keys, and the two keys
/// that adjust the user's timing offset.
#[derive(Clone, Copy, PartialEq, Eq, Structural, Debug)]
pub enum GameKey {
    Z,
    X,
    N,
    M,
    OffsetUp,
    OffsetDown,
}

/// Which of the game keys were pressed during one frame.
#[derive(Clone, Copy, PartialEq, Eq, Structural, Debug)]
pub struct KeyFlags {
    pub r1: bool,
    pub r2: bool,
    pub b1: bool,
    pub b2: bool,
    pub offset_up: bool,
    pub offset_down: bool,
}

/// Folds one frame's key events into per-key flags.
pub fn collect_key_flags(keys: &Vec<GameKey>) -> (f: KeyFlags)
    ensures
        f.r1 == keys@.contains(GameKey::Z),
        f.r2 == keys@.contains(GameKey::X),
        f.b1 == keys@.contains(GameKey::N),
        f.b2 == keys@.contains(GameKey::M),
        f.offset_up == keys@.contains(GameKey::OffsetUp),
        f.offset_down == keys@.contains(GameKey::OffsetDown),
{
    let mut f = KeyFlags {
        r1: false,
        r2: false,
        b1: false,
        b2: false,
        offset_up: false,
        offset_down: false,
    };
    let mut i: usize = 0;
    while i < keys.len()
        invariant
            i <= keys@.len(),
            f.r1 <==> exists|j: int| 0 <= j < i && keys@[j] == GameKey::Z,
            f.r2 <==> exists|j: int| 0 <= j < i && keys@[j] == GameKey::X,
            f.b1 <==> exists|j: int| 0 <= j < i && keys@[j] == GameKey::N,
            f.b2 <==> exists|j: int| 0 <= j < i && keys@[j] == GameKey::M,
            f.offset_up <==> exists|j: int| 0 <= j < i && keys@[j] == GameKey::OffsetUp,
            f.offset_down <==> exists|j: int| 0 <= j < i && keys@[j] == GameKey::OffsetDown,
        decreases keys@.len() - i,
    {
        match keys[i] {
            GameKey::Z => f.r1 = true,
            GameKey::X => f.r2 = true,
            GameKey::N => f.b1 = true,
            GameKey::M => f.b2 = true,
            GameKey::OffsetUp => f.offset_up = true,
            GameKey::OffsetDown => f.offset_down = true,
        }
        i = i + 1;
    }
    f
}

/// How many notes at the front of the queue are overdue at time `now`:
/// the length of the longest prefix whose notes' windows have fully
/// passed (`time + maxhitoffset < now`).
pub open spec fn missed_count(q: Seq<HitObject>, maxhitoffset: int, now: int) -> int
    decreases q.len(),
{
    if q.len() > 0 && q[0].time + maxhitoffset < now {
        1 + missed_count(q.skip(1), maxhitoffset, now)
    } else {
        0
    }
}

/// `missed_count` names a prefix: it is in bounds, every note in the
/// prefix is overdue, and the first note past it (if any) is not.
pub proof fn lemma_missed_count(q: Seq<HitObject>, maxhitoffset: int, now: int)
    ensures
        0 <= missed_count(q, maxhitoffset, now) <= q.len(),
        forall|i: int|
            0 <= i < missed_count(q, maxhitoffset, now)
                ==> (#[trigger] q[i]).time + maxhitoffset < now,
        missed_count(q, maxhitoffset, now) < q.len()
            ==> !(q[missed_count(q, maxhitoffset, now)].time + maxhitoffset < now),
    decreases q.len(),
{
    if q.len() > 0 && q[0].time + maxhitoffset < now {
        lemma_missed_count(q.skip(1), maxhitoffset, now);
        let k = missed_count(q, maxhitoffset, now);
        assert forall|i: int| 0 <= i < k implies (#[trigger] q[i]).time + maxhitoffset < now by {
            if i >= 1 {
                assert(q.skip(1)[i - 1] == q[i]);
            }
        }
        if k < q.len() {
            assert(q.skip(1)[k - 1] == q[k]);
        }
    }
}

/// Misses and hits are exclusive: a note whose window has passed — the
/// condition on which `drop_missed` removes it — can no longer be matched
/// by any input at the same instant, whatever keys are pressed.
pub proof fn lemma_overdue_note_is_unhittable(
    maxhitoffset: int,
    hit: HitObject,
    time: int,
    redpressed: bool,
    dual: bool,
)
    requires
        0 <= maxhitoffset,
        hit.time + maxhitoffset < time,
    ensures
        spec_check_hit(maxhitoffset, hit, time, redpressed, dual) == (None::<i64>, false),
{
}

/// Removes the overdue notes at the front of the queue, logging a miss for
/// each; returns their scheduled times. Stops at the first note whose
/// window is still open, which stays at the head.
pub fn drop_missed(
    hitqueue: &mut HitObjectQueue,
    hitoffsets: &mut HitOffsets,
    maxhitoffset: i64,
    cur_time: i64,
) -> (dropped: Vec<i64>)
    requires
        old(hitqueue).wf(),
        time_in_range(maxhitoffset as int),
        timeline_in_range(cur_time as int),
    ensures
        ({
            let k = missed_count(old(hitqueue).queue@, maxhitoffset as int, cur_time as int);
            &&& final(hitqueue).queue@ == old(hitqueue).queue@.skip(k)
            &&& final(hitoffsets).offsets@ == old(hitoffsets).offsets@
                + Seq::new(k as nat, |i: int| None::<i64>)
            &&& dropped@ == Seq::new(k as nat, |i: int| old(hitqueue).queue@[i].time)
        }),
        final(hitqueue).wf(),
        // Every dropped note was overdue, and the remaining head (if any) is not.
        forall|i: int|
            0 <= i < dropped@.len()
                ==> (#[trigger] old(hitqueue).queue@[i]).time + maxhitoffset < cur_time,
        final(hitqueue).queue@.len() > 0
            ==> !(final(hitqueue).queue@[0].time + maxhitoffset < cur_time),
{
    let ghost q0 = hitqueue.queue@;
    let ghost off0 = hitoffsets.offsets@;
    let ghost k = missed_count(q0, maxhitoffset as int, cur_time as int);
    proof {
        lemma_missed_count(q0, maxhitoffset as int, cur_time as int);
        assert(q0.skip(0) =~= q0);
    }
    let mut dropped: Vec<i64> = Vec::new();
    let n = hitqueue.queue.len();
    let mut i: usize = 0;
    loop
        invariant
            q0 == old(hitqueue).queue@,
            old(hitqueue).wf(),
            time_in_range(maxhitoffset as int),
            q0.len() == n,
            0 <= i <= k <= q0.len(),
            k == missed_count(q0, maxhitoffset as int, cur_time as int),
            k == i + missed_count(q0.skip(i as int), maxhitoffset as int, cur_time as int),
            hitqueue.queue@ == q0.skip(i as int),
            hitoffsets.offsets@ == off0 + Seq::new(i as nat, |j: int| None::<i64>),
            dropped@ == Seq::new(i as nat, |j: int| q0[j].time),
        ensures
            i == k,
            hitqueue.queue@ == q0.skip(k),
            hitoffsets.offsets@ == off0 + Seq::new(k as nat, |j: int| None::<i64>),
            dropped@ == Seq::new(k as nat, |j: int| q0[j].time),
        decreases q0.len() - i,
    {
        proof {
            lemma_missed_count(q0.skip(i as int), maxhitoffset as int, cur_time as int);
        }
        let head = match hitqueue.queue.pop_front() {
            Some(head) => head,
            None => {
                proof {
                    assert(q0.skip(i as int).len() == 0);
                }
                break ;
            },
        };
        assert(head == q0.skip(i as int)[0]);
        proof {
            assert(q0.skip(i as int)[0] == q0[i as int]);
            assert(q0[i as int].wf());
        }
        if head.time + maxhitoffset < cur_time {
            hitoffsets.offsets.push(None);
            dropped.push(head.time);
            proof {
                assert(missed_count(q0.skip(i as int), maxhitoffset as int, cur_time as int) == 1
                    + missed_count(q0.skip(i as int).skip(1), maxhitoffset as int, cur_time as int));
                assert(hitqueue.queue@ =~= q0.skip(i as int).skip(1));
                assert(q0.skip(i as int).skip(1) =~= q0.skip(i as int + 1));
                assert(q0.skip(i as int)[0] == q0[i as int]);
                assert(hitoffsets.offsets@ =~= off0 + Seq::new(
                    (i + 1) as nat,
                    |j: int| None::<i64>,
                ));
                assert(dropped@ =~= Seq::new((i + 1) as nat, |j: int| q0[j].time));
            }
            i = i + 1;
        } else {
            // The head's window is still open: put it back and stop.
            hitqueue.queue.push_front(head);
            proof {
                assert(hitqueue.queue@ =~= q0.skip(i as int));
                assert(missed_count(q0.skip(i as int), maxhitoffset as int, cur_time as int) == 0);
            }
            break ;
        }
    }
    proof {
        lemma_missed_count(q0.skip(k), maxhitoffset as int, cur_time as int);
        assert(forall|j: int| 0 <= j < q0.skip(k).len() ==> q0.skip(k)[j] == q0[j + k]);
    }
    dropped
}

/// What one frame of the game step decides: the timeline instant the frame
/// judged against, the scheduled times of every note resolved this frame
/// (missed or hit) whose visual entity must go, and which hit sounds to
/// play.
pub struct StepOutput {
    pub cur_time: i64,
    pub dropped_times: Vec<i64>,
    pub play_normal: bool,
    pub play_clap: bool,
    pub play_finish: bool,
}

/// Judges one frame's input against the head note. When the head note is
/// within the hit window it is resolved: removed from the queue, its
/// outcome logged (`Some(offset)` for a correctly keyed hit, `None`
/// otherwise), and its scheduled time returned. When there is no note to
/// hit, nothing changes. At most one note is resolved.
pub fn apply_input(
    beatmap: &BeatMap,
    hitqueue: &mut HitObjectQueue,
    hitoffsets: &mut HitOffsets,
    cur_time: i64,
    red: bool,
    dual: bool,
) -> (resolved: Option<i64>)
    requires
        beatmap.wf(),
        old(hitqueue).wf(),
        timeline_in_range(cur_time as int),
    ensures
        final(hitqueue).wf(),
        old(hitqueue).queue@.len() == 0 ==> {
            &&& final(hitqueue).queue@ == old(hitqueue).queue@
            &&& final(hitoffsets).offsets@ == old(hitoffsets).offsets@
            &&& resolved is None
        },
        old(hitqueue).queue@.len() > 0 ==> ({
            let head = old(hitqueue).queue@[0];
            let (off, clicked) = spec_check_hit(
                beatmap.maxhitoffset as int,
                head,
                cur_time as int,
                red,
                dual,
            );
            if off is Some {
                &&& final(hitqueue).queue@ == old(hitqueue).queue@.skip(1)
                &&& final(hitoffsets).offsets@ == old(hitoffsets).offsets@.push(
                    if clicked {
                        off
                    } else {
                        None
                    },
                )
                &&& resolved == Some(head.time)
            } else {
                &&& final(hitqueue).queue@ == old(hitqueue).queue@
                &&& final(hitoffsets).offsets@ == old(hitoffsets).offsets@
                &&& resolved is None
            }
        }),
{
    let ghost q0 = hitqueue.queue@;
    let head = match hitqueue.queue.pop_front() {
        Some(head) => head,
        None => {
            return None;
        },
    };
    assert(head == q0[0]);
    let (offset, clicked) = check_hit(beatmap, &head, cur_time, red, dual);
    match offset {
        Some(offset) => {
            if clicked {
                hitoffsets.offsets.push(Some(offset));
            } else {
                hitoffsets.offsets.push(None);
            }
            Some(head.time)
        },
        None => {
            // Pressed, but no note was in reach: put the head back.
            hitqueue.queue.push_front(head);
            proof {
                assert(hitqueue.queue@ =~= q0);
            }
            None
        },
    }
}

/// The per-frame game system, reduced to its decisions. `start_time` is
/// the wall-clock instant (milliseconds) at which the song started; it is
/// captured from the first frame's clock reading.
pub struct GameSystem {
    pub start_time: i64,
}

impl GameSystem {
    /// One frame: capture the start time if not yet set, compute the
    /// timeline instant, apply the offset keys to the user settings, drop
    /// the notes whose windows have passed, and judge the hit keys against
    /// the head note. Returns the frame's timeline instant, the scheduled
    /// times of the notes resolved this frame, and the hit sounds to play.
    pub fn run(
        &mut self,
        beatmap: &BeatMap,
        hitqueue: &mut HitObjectQueue,
        hitoffsets: &mut HitOffsets,
        user_settings: &mut UserSettings,
        absolute_time: i64,
        keys: &Vec<GameKey>,
    ) -> (out: StepOutput)
        requires
            beatmap.wf(),
            old(hitqueue).wf(),
            time_in_range(old(self).start_time as int),
            time_in_range(absolute_time as int),
            time_in_range(old(user_settings).offset as int),
        ensures
            final(hitqueue).wf(),
            time_in_range(final(self).start_time as int),
            // The queue is consumed from the front only: what remains is a
            // suffix of what was there, in the same order.
            exists|j: int|
                0 <= j <= old(hitqueue).queue@.len() && final(hitqueue).queue@ == old(
                    hitqueue,
                ).queue@.skip(j),
            // The outcome log is append-only.
            old(hitoffsets).offsets@.is_prefix_of(final(hitoffsets).offsets@),
            ({
                let start = if old(self).start_time <= 0 {
                    absolute_time as int
                } else {
                    old(self).start_time as int
                };
                let cur = absolute_time - start + old(user_settings).offset;
                let r1 = keys@.contains(GameKey::Z);
                let r2 = keys@.contains(GameKey::X);
                let b1 = keys@.contains(GameKey::N);
                let b2 = keys@.contains(GameKey::M);
                let any = r1 || r2 || b1 || b2;
                let red = r1 || r2;
                let dual = (r1 && r2) || (b1 && b2);
                let k = missed_count(old(hitqueue).queue@, beatmap.maxhitoffset as int, cur);
                let q1 = old(hitqueue).queue@.skip(k);
                let miss_offsets = old(hitoffsets).offsets@ + Seq::new(
                    k as nat,
                    |i: int| None::<i64>,
                );
                let miss_dropped = Seq::new(k as nat, |i: int| old(hitqueue).queue@[i].time);
                &&& final(self).start_time == start
                &&& final(user_settings).offset == if keys@.contains(GameKey::OffsetUp) {
                    old(user_settings).offset + 5
                } else if keys@.contains(GameKey::OffsetDown) {
                    old(user_settings).offset - 5
                } else {
                    old(user_settings).offset as int
                }
                &&& out.cur_time == cur
                &&& out.play_normal == (any && red)
                &&& out.play_clap == (any && !red)
                &&& out.play_finish == (any && dual)
                &&& if any && q1.len() > 0 && spec_check_hit(
                    beatmap.maxhitoffset as int,
                    q1[0],
                    cur,
                    red,
                    dual,
                ).0 is Some {
                    let (off, clicked) = spec_check_hit(
                        beatmap.maxhitoffset as int,
                        q1[0],
                        cur,
                        red,
                        dual,
                    );
                    &&& final(hitqueue).queue@ == q1.skip(1)
                    &&& final(hitoffsets).offsets@ == miss_offsets.push(
                        if clicked {
                            off
                        } else {
                            None
                        },
                    )
                    &&& out.dropped_times@ == miss_dropped.push(q1[0].time)
                } else {
                    &&& final(hitqueue).queue@ == q1
                    &&& final(hitoffsets).offsets@ == miss_offsets
                    &&& out.dropped_times@ == miss_dropped
                }
            }),
    {
        let ghost q0 = hitqueue.queue@;
        let ghost off0 = hitoffsets.offsets@;
        if self.start_time <= 0 {
            self.start_time = absolute_time;
        }
        let cur_time = absolute_time - self.start_time + user_settings.offset;
        let f = collect_key_flags(keys);
        if f.offset_up {
            user_settings.offset = user_settings.offset + 5;
        } else if f.offset_down {
            user_settings.offset = user_settings.offset - 5;
        }
        let ghost k = missed_count(q0, beatmap.maxhitoffset as int, cur_time as int);
        let mut dropped_times = drop_missed(hitqueue, hitoffsets, beatmap.maxhitoffset, cur_time);
        let mut play_normal = false;
        let mut play_clap = false;
        let mut play_finish = false;
        proof {
            lemma_missed_count(q0, beatmap.maxhitoffset as int, cur_time as int);
        }
        if f.r1 || f.r2 || f.b1 || f.b2 {
            let (red, dual) = get_key_press_type(f.r1, f.r2, f.b1, f.b2);
            play_normal = red;
            play_clap = !red;
            play_finish = dual;
            if let Some(time) = apply_input(beatmap, hitqueue, hitoffsets, cur_time, red, dual) {
                dropped_times.push(time);
                proof {
                    assert(dropped_times@ =~= Seq::new(k as nat, |i: int| q0[i].time).push(
                        q0.skip(k)[0].time,
                    ));
                    assert(q0.skip(k).skip(1) =~= q0.skip(k + 1));
                }
            }
        }
        proof {
            assert(q0.skip(k).len() == 0 ==> q0.skip(k) =~= q0.skip(q0.len() as int));
            assert(off0.is_prefix_of(hitoffsets.offsets@));
        }
        StepOutput { cur_time, dropped_times, play_normal, play_clap, play_finish }
    }
}

} // verus!
