use vstd::prelude::*;

use crate::data_types::TimeSignature;

verus! {

/// The systems of a score, from section `i` on: runs of sections laid out
/// together, each as its time signature and its sections `start..end`. The
/// current system started at `start` with time signature `time` and voice
/// set `voices`. A section other than the first of the current system
/// starts a new one where it sets another time signature or has another
/// voice set; the new system takes the time signature it sets, if any, and
/// its voice set.
pub open spec fn systems_from(
    times: Seq<Option<TimeSignature>>,
    voice_sets: Seq<usize>,
    i: int,
    start: int,
    time: TimeSignature,
    voices: usize,
) -> Seq<(TimeSignature, usize, usize)>
    decreases times.len() - i,
{
    if i < 0 || i >= times.len() || i >= voice_sets.len() {
        if start < times.len() {
            seq![(time, start as usize, times.len() as usize)]
        } else {
            Seq::empty()
        }
    } else {
        let time_changed = times[i] matches Some(t) && t != time;
        if (time_changed || voice_sets[i] != voices) && i > start {
            let next_time = match times[i] {
                Some(t) => t,
                None => time,
            };
            seq![(time, start as usize, i as usize)] + systems_from(times, voice_sets, i + 1, i, next_time, voice_sets[i])
        } else {
            systems_from(times, voice_sets, i + 1, start, time, voices)
        }
    }
}

/// The systems of a score whose sections set the time signatures `times`
/// and have the voice sets `voice_sets` (given by an id each), starting in
/// the time signature `time`.
pub open spec fn spec_systems(
    times: Seq<Option<TimeSignature>>,
    voice_sets: Seq<usize>,
    time: TimeSignature,
) -> Seq<(TimeSignature, usize, usize)> {
    if times.len() == 0 {
        Seq::empty()
    } else {
        systems_from(times, voice_sets, 0, 0, time, voice_sets[0])
    }
}

/// Section `j` fits a system in the time signature `time` that starts at
/// section `start`: it sets no other time signature, and has the voice set
/// of the system's first section.
pub open spec fn fits_system(
    times: Seq<Option<TimeSignature>>,
    voice_sets: Seq<usize>,
    time: TimeSignature,
    start: int,
    j: int,
) -> bool {
    &&& times[j] matches Some(t) ==> t == time
    &&& voice_sets[j] == voice_sets[start]
}

/// Section `e` cannot go on the system in the time signature `time` that
/// starts at section `start`: it sets another time signature (top or
/// bottom), or has another voice set.
pub open spec fn breaks_system(
    times: Seq<Option<TimeSignature>>,
    voice_sets: Seq<usize>,
    time: TimeSignature,
    start: int,
    e: int,
) -> bool {
    ||| times[e] matches Some(t) && (t.top != time.top || t.bottom != time.bottom)
    ||| voice_sets[e] != voice_sets[start]
}

/// A system ends where section `sys.2` breaks it, and the next system takes
/// the time signature that section sets, or keeps the one before.
pub open spec fn next_system_ok(
    times: Seq<Option<TimeSignature>>,
    voice_sets: Seq<usize>,
    sys: (TimeSignature, usize, usize),
    next: (TimeSignature, usize, usize),
) -> bool {
    &&& breaks_system(times, voice_sets, sys.0, sys.1 as int, sys.2 as int)
    &&& next.0 == match times[sys.2 as int] {
        Some(t) => t,
        None => sys.0,
    }
}

proof fn lemma_systems_from_shape(
    times: Seq<Option<TimeSignature>>,
    voice_sets: Seq<usize>,
    i: int,
    start: int,
    time: TimeSignature,
    voices: usize,
)
    requires
        times.len() == voice_sets.len(),
        times.len() <= usize::MAX,
        0 <= start <= i <= times.len(),
        start < times.len(),
        voices == voice_sets[start],
        forall|j: int| start < j < i ==> fits_system(times, voice_sets, time, start, j),
    ensures
        ({
            let r = systems_from(times, voice_sets, i, start, time, voices);
            &&& r.len() > 0
            &&& r[0].0 == time
            &&& r[0].1 == start
            &&& forall|k: int, j: int|
                0 <= k < r.len() && r[k].1 < j < r[k].2 ==> #[trigger] fits_system(
                    times,
                    voice_sets,
                    r[k].0,
                    r[k].1 as int,
                    j,
                )
            &&& forall|k: int| 0 <= k < r.len() - 1 ==> #[trigger] next_system_ok(times, voice_sets, r[k], r[k + 1])
        }),
    decreases times.len() - i,
{
    let r = systems_from(times, voice_sets, i, start, time, voices);
    if i < times.len() {
        let time_changed = times[i] matches Some(t) && t != time;
        if (time_changed || voice_sets[i] != voices) && i > start {
            let next_time = match times[i] {
                Some(t) => t,
                None => time,
            };
            lemma_systems_from_shape(times, voice_sets, i + 1, i, next_time, voice_sets[i]);
            let rest = systems_from(times, voice_sets, i + 1, i, next_time, voice_sets[i]);
            assert(r == seq![(time, start as usize, i as usize)] + rest);
            assert(r[0] == (time, start as usize, i as usize));
            assert(r[1] == rest[0]);
            if time_changed {
                let t = times[i]->0;
                assert(t != time);
                assert(t.top != time.top || t.bottom != time.bottom);
            }
            assert(breaks_system(times, voice_sets, time, start, i));
            assert(next_system_ok(times, voice_sets, r[0], r[1]));
            assert forall|k: int, j: int|
                0 <= k < r.len() && r[k].1 < j < r[k].2 implies #[trigger] fits_system(
                times,
                voice_sets,
                r[k].0,
                r[k].1 as int,
                j,
            ) by {
                if k > 0 {
                    assert(r[k] == rest[k - 1]);
                }
            }
            assert forall|k: int| 0 <= k < r.len() - 1 implies #[trigger] next_system_ok(times, voice_sets, r[k], r[k + 1]) by {
                if k > 0 {
                    assert(r[k] == rest[k - 1]);
                    assert(r[k + 1] == rest[k]);
                    assert(next_system_ok(times, voice_sets, rest[k - 1], rest[k - 1 + 1]));
                } else {
                    assert(r[1] == rest[0]);
                }
            }
        } else {
            assert forall|j: int| start < j < i + 1 implies fits_system(times, voice_sets, time, start, j) by {
                if j == i {
                    assert(!time_changed);
                }
            }
            lemma_systems_from_shape(times, voice_sets, i + 1, start, time, voices);
        }
    }
}

/// How sections group into systems: the first system is in the starting
/// time signature; inside a system every section sets no time signature but
/// the system's and has the voice set of the system's first section; and a
/// system ends exactly where a section sets another time signature (top or
/// bottom) or has another voice set, the next system taking the time
/// signature that section sets, or keeping the one before.
pub proof fn lemma_systems_break_at_changes(
    times: Seq<Option<TimeSignature>>,
    voice_sets: Seq<usize>,
    time: TimeSignature,
)
    requires
        times.len() == voice_sets.len(),
        times.len() <= usize::MAX,
    ensures
        ({
            let r = spec_systems(times, voice_sets, time);
            &&& times.len() > 0 ==> r[0].0 == time
            &&& forall|k: int, j: int|
                0 <= k < r.len() && r[k].1 < j < r[k].2 ==> #[trigger] fits_system(
                    times,
                    voice_sets,
                    r[k].0,
                    r[k].1 as int,
                    j,
                )
            &&& forall|k: int| 0 <= k < r.len() - 1 ==> #[trigger] next_system_ok(times, voice_sets, r[k], r[k + 1])
        }),
{
    if times.len() > 0 {
        lemma_systems_from_shape(times, voice_sets, 0, 0, time, voice_sets[0]);
    }
}

/// The systems from section `i` on tile `start..n`, in order, each
/// non-empty.
proof fn lemma_systems_tile(
    times: Seq<Option<TimeSignature>>,
    voice_sets: Seq<usize>,
    i: int,
    start: int,
    time: TimeSignature,
    voices: usize,
)
    requires
        times.len() == voice_sets.len(),
        times.len() <= usize::MAX,
        0 <= start <= i <= times.len(),
        start < times.len(),
    ensures
        ({
            let r = systems_from(times, voice_sets, i, start, time, voices);
            &&& r.len() > 0
            &&& r[0].1 == start
            &&& r.last().2 == times.len()
            &&& forall|k: int| 0 <= k < r.len() ==> (#[trigger] r[k]).1 < r[k].2
            &&& forall|k: int| 0 <= k < r.len() - 1 ==> (#[trigger] r[k]).2 == r[k + 1].1
        }),
    decreases times.len() - i,
{
    if i < times.len() {
        let time_changed = times[i] matches Some(t) && t != time;
        if (time_changed || voice_sets[i] != voices) && i > start {
            let next_time = match times[i] {
                Some(t) => t,
                None => time,
            };
            lemma_systems_tile(times, voice_sets, i + 1, i, next_time, voice_sets[i]);
            let rest = systems_from(times, voice_sets, i + 1, i, next_time, voice_sets[i]);
            let r = systems_from(times, voice_sets, i, start, time, voices);
            assert(r == seq![(time, start as usize, i as usize)] + rest);
            assert forall|k: int| 0 <= k < r.len() - 1 implies (#[trigger] r[k]).2 == r[k + 1].1 by {
                if k > 0 {
                    assert(r[k] == rest[k - 1]);
                    assert(r[k + 1] == rest[k]);
                }
            }
            assert forall|k: int| 0 <= k < r.len() implies (#[trigger] r[k]).1 < r[k].2 by {
                if k > 0 {
                    assert(r[k] == rest[k - 1]);
                }
            }
        } else {
            lemma_systems_tile(times, voice_sets, i + 1, start, time, voices);
        }
    }
}

/// The systems of a score: runs of sections laid out together, each with
/// its time signature and its sections `start..end`. `times` are the time
/// signatures the sections set, `voice_sets` the ids of their voice sets,
/// and `time` the time signature the score starts in. The runs tile all the
/// sections, in order.
#[verifier::rlimit(40)]
pub fn collect_systems(
    times: &[Option<TimeSignature>],
    voice_sets: &[usize],
    time: TimeSignature,
) -> (r: Vec<(TimeSignature, usize, usize)>)
    requires
        times@.len() == voice_sets@.len(),
    ensures
        r@ == spec_systems(times@, voice_sets@, time),
        times@.len() == 0 ==> r@.len() == 0,
        times@.len() > 0 ==> {
            &&& r@.len() > 0
            &&& r@[0].1 == 0
            &&& r@.last().2 == times@.len()
            &&& forall|k: int| 0 <= k < r@.len() ==> (#[trigger] r@[k]).1 < r@[k].2
            &&& forall|k: int| 0 <= k < r@.len() - 1 ==> (#[trigger] r@[k]).2 == r@[k + 1].1
            &&& r@[0].0 == time
            &&& forall|k: int, j: int|
                0 <= k < r@.len() && r@[k].1 < j < r@[k].2 ==> #[trigger] fits_system(
                    times@,
                    voice_sets@,
                    r@[k].0,
                    r@[k].1 as int,
                    j,
                )
            &&& forall|k: int| 0 <= k < r@.len() - 1 ==> #[trigger] next_system_ok(times@, voice_sets@, r@[k], r@[k + 1])
        },
{
    let n = times.len();
    let mut result: Vec<(TimeSignature, usize, usize)> = Vec::new();
    if n == 0 {
        return result;
    }
    let mut current_time = time;
    let mut current_voices = voice_sets[0];
    let mut chunk_start: usize = 0;
    let mut index: usize = 0;
    while index < n
        invariant
            n == times@.len(),
            n == voice_sets@.len(),
            n > 0,
            chunk_start <= index <= n,
            chunk_start < n,
            result@ + systems_from(times@, voice_sets@, index as int, chunk_start as int, current_time, current_voices)
                == systems_from(times@, voice_sets@, 0, 0, time, voice_sets@[0]),
        decreases n - index,
    {
        let time_changed = match times[index] {
            Some(t) => t != current_time,
            None => false,
        };
        let voices_changed = voice_sets[index] != current_voices;
        if (time_changed || voices_changed) && index > chunk_start {
            let ghost before = result@;
            result.push((current_time, chunk_start, index));
            proof {
                let rest = systems_from(times@, voice_sets@, index as int + 1, index as int, match times@[index as int] {
                    Some(t) => t,
                    None => current_time,
                }, voice_sets@[index as int]);
                assert(before + (seq![(current_time, chunk_start, index)] + rest) =~= result@ + rest);
            }
            chunk_start = index;
            current_voices = voice_sets[index];
            if let Some(t) = times[index] {
                current_time = t;
            }
        }
        index = index + 1;
    }
    result.push((current_time, chunk_start, n));
    proof {
        lemma_systems_tile(times@, voice_sets@, 0, 0, time, voice_sets@[0]);
        lemma_systems_break_at_changes(times@, voice_sets@, time);
        assert(result@ == spec_systems(times@, voice_sets@, time));
    }
    result
}

} // verus!
