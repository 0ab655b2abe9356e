//! Enumeration of a representation's media segments: the number and the
//! start time of each, from an explicit timeline or from a fixed segment
//! duration.
use vstd::prelude::*;
use crate::model::{Seconds, Segment, SegmentTimeline};

verus! {

/// The number and the start time, in timescale units, of one segment.
#[derive(Clone, Copy, Debug)]
pub struct SegmentPosition {
    pub number: u64,
    pub time: u64,
}

/// A segment's number and start time as mathematical integers.
pub ghost struct Position {
    pub number: int,
    pub time: int,
}

impl View for SegmentPosition {
    type V = Position;

    open spec fn view(&self) -> Position {
        Position { number: self.number as int, time: self.time as int }
    }
}

pub open spec fn positions(v: Seq<SegmentPosition>) -> Seq<Position> {
    v.map_values(|p: SegmentPosition| p@)
}

/// `count` segments of duration `d` one after the other: the first has the
/// given number and time, each further one the next number and a time
/// later by `d`.
pub open spec fn occurrences(number: int, time: int, d: int, count: int) -> Seq<Position> {
    Seq::new(count as nat, |k: int| Position { number: number + k, time: time + k * d })
}

/// Where a timeline entry begins: at its own start time where it has one,
/// else at the cursor, the end of the entry before it.
pub open spec fn entry_start(s: Segment, cursor: int) -> int {
    match s.t {
        Some(t) => t as int,
        None => cursor,
    }
}

/// Where a timeline entry ends: after its first occurrence and its `r`
/// repetitions.
pub open spec fn entry_end(s: Segment, cursor: int) -> int {
    entry_start(s, cursor) + (s.r + 1) * s.d
}

/// The segments of a timeline whose first entry gets `number` and, without
/// a start time of its own, begins at `time`.
pub open spec fn timeline_positions(segments: Seq<Segment>, number: int, time: int) -> Seq<
    Position,
>
    decreases segments.len(),
{
    if segments.len() == 0 {
        Seq::empty()
    } else {
        let s = segments[0];
        occurrences(number, entry_start(s, time), s.d as int, s.r + 1) + timeline_positions(
            segments.drop_first(),
            number + s.r + 1,
            entry_end(s, time),
        )
    }
}

/// Whether the number and the time after every entry of the timeline stay
/// within 64 bits.
pub open spec fn timeline_fits(segments: Seq<Segment>, number: int, time: int) -> bool
    decreases segments.len(),
{
    segments.len() == 0 || {
        let s = segments[0];
        &&& entry_end(s, time) <= u64::MAX
        &&& number + s.r + 1 <= u64::MAX
        &&& timeline_fits(segments.drop_first(), number + s.r + 1, entry_end(s, time))
    }
}

/// Whether no entry of the timeline begins before the entry before it ends.
pub open spec fn timeline_ordered(segments: Seq<Segment>, time: int) -> bool
    decreases segments.len(),
{
    segments.len() == 0 || {
        let s = segments[0];
        &&& time <= entry_start(s, time)
        &&& timeline_ordered(segments.drop_first(), entry_end(s, time))
    }
}

proof fn lemma_occurrences_push(number: int, time: int, d: int, count: int)
    requires
        count >= 0,
    ensures
        occurrences(number, time, d, count + 1) == occurrences(number, time, d, count).push(
            Position { number: number + count, time: time + count * d },
        ),
{
    assert(occurrences(number, time, d, count + 1) =~= occurrences(number, time, d, count).push(
        Position { number: number + count, time: time + count * d },
    ));
}

/// Appends `count` segments of duration `d` to `out`, the first with the
/// given number and time.
fn push_occurrences(out: &mut Vec<SegmentPosition>, number: u64, time: u64, d: u64, count: u128)
    requires
        1 <= count <= u64::MAX + 1,
        time + (count - 1) * d <= u64::MAX,
        number + (count - 1) <= u64::MAX,
    ensures
        positions(final(out)@) == positions(old(out)@) + occurrences(
            number as int,
            time as int,
            d as int,
            count as int,
        ),
{
    let ghost before = positions(out@);
    let mut k: u128 = 0;
    let mut cur_number: u64 = number;
    let mut cur_time: u64 = time;
    proof {
        assert(before + occurrences(number as int, time as int, d as int, 0) =~= before);
        assert(0 * d == 0) by (nonlinear_arith);
    }
    while k < count
        invariant
            k <= count,
            1 <= count <= u64::MAX + 1,
            time + (count - 1) * d <= u64::MAX,
            number + (count - 1) <= u64::MAX,
            k < count ==> cur_number == number + k && cur_time == time + k * d,
            positions(out@) == before + occurrences(number as int, time as int, d as int, k as int),
        decreases count - k,
    {
        let ghost prev = out@;
        out.push(SegmentPosition { number: cur_number, time: cur_time });
        proof {
            assert(positions(out@) =~= positions(prev).push(
                Position { number: number + k, time: time + k * d },
            ));
            lemma_occurrences_push(number as int, time as int, d as int, k as int);
            assert(positions(out@) =~= before + occurrences(
                number as int,
                time as int,
                d as int,
                k + 1,
            ));
        }
        k += 1;
        if k < count {
            proof {
                assert(k * d == (k - 1) * d + d) by (nonlinear_arith);
                assert(k * d <= (count - 1) * d) by (nonlinear_arith)
                    requires
                        k <= count - 1,
                        d >= 0,
                ;
            }
            cur_number += 1;
            cur_time += d;
        }
    }
}

/// Enumerates the segments of an explicit timeline. The first gets
/// `start_number` and each further one the next number. An entry begins at
/// its own start time, or where the entry before it ended (the first at 0),
/// and occurs once and then `r` times more, each occurrence later by `d`.
/// Returns `None` where a number or a time would leave 64 bits.
pub fn timeline_segments(timeline: &SegmentTimeline, start_number: u64) -> (r: Option<
    Vec<SegmentPosition>,
>)
    ensures
        r is Some <==> timeline_fits(timeline.segments@, start_number as int, 0),
        r matches Some(v) ==> positions(v@) == timeline_positions(
            timeline.segments@,
            start_number as int,
            0,
        ),
{
    let mut out: Vec<SegmentPosition> = Vec::new();
    let mut number: u64 = start_number;
    let mut time: u64 = 0;
    let mut i: usize = 0;
    let ghost all = timeline.segments@;
    let ghost total = timeline_positions(all, start_number as int, 0);
    proof {
        assert(all.skip(0) =~= all);
        assert(positions(out@) + total =~= total);
    }
    while i < timeline.segments.len()
        invariant
            i <= all.len(),
            all == timeline.segments@,
            total == timeline_positions(all, start_number as int, 0),
            positions(out@) + timeline_positions(all.skip(i as int), number as int, time as int)
                == total,
            timeline_fits(all.skip(i as int), number as int, time as int) == timeline_fits(
                all,
                start_number as int,
                0,
            ),
        decreases all.len() - i,
    {
        let s = timeline.segments[i];
        let first: u64 = match s.t {
            Some(t) => t,
            None => time,
        };
        let count: u128 = s.r as u128 + 1;
        proof {
            assert(all.skip(i as int)[0] == s);
            assert(all.skip(i as int).drop_first() =~= all.skip(i + 1));
            assert(count * s.d <= 0x1_0000_0000_0000_0000 * 0xffff_ffff_ffff_ffff)
                by (nonlinear_arith)
                requires
                    0 <= count <= 0x1_0000_0000_0000_0000,
                    0 <= s.d <= 0xffff_ffff_ffff_ffff,
            ;
            assert((count - 1) * s.d <= count * s.d) by (nonlinear_arith)
                requires
                    count >= 1,
                    s.d >= 0,
            ;
        }
        let end_time: u128 = first as u128 + count * (s.d as u128);
        let end_number: u128 = number as u128 + count;
        if end_time > u64::MAX as u128 || end_number > u64::MAX as u128 {
            return None;
        }
        let ghost before = positions(out@);
        push_occurrences(&mut out, number, first, s.d, count);
        proof {
            let rest = timeline_positions(all.skip(i + 1), end_number as int, end_time as int);
            let here = occurrences(number as int, first as int, s.d as int, count as int);
            assert(positions(out@) + rest =~= before + (here + rest));
        }
        number = end_number as u64;
        time = end_time as u64;
        i += 1;
    }
    proof {
        assert(positions(out@) + Seq::<Position>::empty() =~= positions(out@));
    }
    Some(out)
}

/// The segments of a timeline are numbered one after the other from the
/// first number on, whatever their times.
pub proof fn lemma_timeline_numbers_consecutive(segments: Seq<Segment>, number: int, time: int)
    ensures
        forall|k: int|
            0 <= k < timeline_positions(segments, number, time).len() ==> (
            #[trigger] timeline_positions(segments, number, time)[k]).number == number + k,
    decreases segments.len(),
{
    if segments.len() > 0 {
        let s = segments[0];
        let here = occurrences(number, entry_start(s, time), s.d as int, s.r + 1);
        let rest = timeline_positions(segments.drop_first(), number + s.r + 1, entry_end(s, time));
        lemma_timeline_numbers_consecutive(
            segments.drop_first(),
            number + s.r + 1,
            entry_end(s, time),
        );
        let all = timeline_positions(segments, number, time);
        assert(all == here + rest);
        assert forall|k: int| 0 <= k < all.len() implies (#[trigger] all[k]).number == number
            + k by {
            if k >= here.len() {
                assert(all[k] == rest[k - here.len()]);
            }
        }
    }
}

/// Where no entry of a timeline begins before the entry before it ends, no
/// segment begins before the cursor, and none before the segment before it.
pub proof fn lemma_timeline_times_ordered(segments: Seq<Segment>, number: int, time: int)
    requires
        timeline_ordered(segments, time),
    ensures
        forall|k: int|
            0 <= k < timeline_positions(segments, number, time).len() ==> time <= (
            #[trigger] timeline_positions(segments, number, time)[k]).time,
        forall|k: int|
            0 < k < timeline_positions(segments, number, time).len() ==> timeline_positions(
                segments,
                number,
                time,
            )[k - 1].time <= (#[trigger] timeline_positions(segments, number, time)[k]).time,
    decreases segments.len(),
{
    if segments.len() > 0 {
        let s = segments[0];
        let first = entry_start(s, time);
        let d = s.d as int;
        let here = occurrences(number, first, d, s.r + 1);
        let rest = timeline_positions(segments.drop_first(), number + s.r + 1, entry_end(s, time));
        lemma_timeline_times_ordered(segments.drop_first(), number + s.r + 1, entry_end(s, time));
        let all = timeline_positions(segments, number, time);
        assert(all == here + rest);
        assert((s.r + 1) * d == s.r * d + d) by (nonlinear_arith);
        assert forall|k: int| 0 <= k < all.len() implies time <= (#[trigger] all[k]).time by {
            if k >= here.len() {
                assert(all[k] == rest[k - here.len()]);
                assert((s.r + 1) * d >= 0) by (nonlinear_arith)
                    requires
                        s.r + 1 >= 0,
                        d >= 0,
                ;
            } else {
                assert(k * d >= 0) by (nonlinear_arith)
                    requires
                        k >= 0,
                        d >= 0,
                ;
            }
        }
        assert forall|k: int| 0 < k < all.len() implies all[k - 1].time <= (#[trigger] all[k]).time by {
            if k > here.len() {
                assert(all[k] == rest[k - here.len()]);
                assert(all[k - 1] == rest[k - 1 - here.len()]);
            } else if k == here.len() {
                assert(all[k] == rest[0]);
                assert(all[k - 1] == here[s.r as int]);
            } else {
                assert(all[k] == here[k]);
                assert(all[k - 1] == here[k - 1]);
                assert((k - 1) * d <= k * d) by (nonlinear_arith)
                    requires
                        d >= 0,
                ;
            }
        }
    }
}

/// The least whole number of seconds that is not below `total`.
pub open spec fn seconds_needed(total: Seconds) -> int {
    if total.nanos > 0 {
        total.whole + 1
    } else {
        total.whole as int
    }
}

/// How many segments of `d` units, at `timescale` units a second, it takes
/// until the whole seconds elapsed reach `need`, the first segment counted
/// in any case.
pub open spec fn steps_to_reach(d: int, timescale: int, need: int) -> int {
    if need * timescale <= d {
        1
    } else {
        (need * timescale + d - 1) / d
    }
}

/// Whether the segment count follows from the durations: a total duration
/// is known, and a segment duration and a timescale above zero.
pub open spec fn count_is_bounded(duration: Option<u64>, timescale: u64, total: Option<Seconds>) -> bool {
    total is Some && duration is Some && duration->0 > 0 && timescale > 0
}

/// How many segments a representation without a timeline has: as many as
/// it takes to reach the total duration, and one where that count is not
/// bounded.
pub open spec fn implicit_count(duration: Option<u64>, timescale: u64, total: Option<Seconds>) -> int {
    if count_is_bounded(duration, timescale, total) {
        steps_to_reach(duration->0 as int, timescale as int, seconds_needed(total->0))
    } else {
        1
    }
}

/// The segments of a representation without a timeline: numbered from
/// `start_number`, the first at time 0 and each further one later by the
/// segment duration.
pub open spec fn implicit_positions(
    start_number: u64,
    duration: Option<u64>,
    timescale: u64,
    total: Option<Seconds>,
) -> Seq<Position> {
    occurrences(
        start_number as int,
        0,
        match duration {
            Some(d) => d as int,
            None => 0,
        },
        implicit_count(duration, timescale, total),
    )
}

/// Whether the number and the time after the last segment stay within 64
/// bits; a single segment of unbounded count always does.
pub open spec fn implicit_fits(
    start_number: u64,
    duration: Option<u64>,
    timescale: u64,
    total: Option<Seconds>,
) -> bool {
    count_is_bounded(duration, timescale, total) ==> {
        let count = implicit_count(duration, timescale, total);
        &&& count * duration->0 <= u64::MAX
        &&& start_number + count <= u64::MAX
    }
}

/// `steps_to_reach` is the least count, from one on, whose segments cover
/// the seconds needed.
pub proof fn lemma_steps_to_reach(d: int, timescale: int, need: int)
    requires
        d > 0,
        timescale > 0,
        need >= 0,
    ensures
        steps_to_reach(d, timescale, need) >= 1,
        steps_to_reach(d, timescale, need) * d >= need * timescale,
        steps_to_reach(d, timescale, need) == 1 || (steps_to_reach(d, timescale, need) - 1) * d
            < need * timescale,
{
    let x = need * timescale;
    if x > d {
        let c = (x + d - 1) / d;
        assert(c * d <= x + d - 1 < c * d + d) by (nonlinear_arith)
            requires
                c == (x + d - 1) / d,
                d > 0,
        ;
        assert((c - 1) * d == c * d - d) by (nonlinear_arith);
        assert(c >= 1) by (nonlinear_arith)
            requires
                x + d - 1 < c * d + d,
                x > d,
                d > 0,
        ;
    } else {
        assert(1 * d == d) by (nonlinear_arith);
    }
}

/// Whether `elapsed` whole seconds reach `total`.
pub fn reaches(elapsed: u64, total: Seconds) -> (r: bool)
    ensures
        r == (elapsed >= seconds_needed(total)),
{
    elapsed > total.whole || (elapsed == total.whole && total.nanos == 0)
}

/// Enumerates the segments of a representation without a timeline. With a
/// total duration, a segment duration and a timescale above zero, segments
/// follow one another until the whole seconds elapsed reach the total;
/// otherwise there is one segment. Returns `None` where a number or a time
/// would leave 64 bits.
pub fn implicit_segments(
    start_number: u64,
    duration: Option<u64>,
    timescale: u64,
    total: Option<Seconds>,
) -> (r: Option<Vec<SegmentPosition>>)
    ensures
        r is Some <==> implicit_fits(start_number, duration, timescale, total),
        r matches Some(v) ==> positions(v@) == implicit_positions(
            start_number,
            duration,
            timescale,
            total,
        ),
{
    let mut out: Vec<SegmentPosition> = Vec::new();
    let bounded: Option<(u64, Seconds)> = match (duration, total) {
        (Some(d), Some(t)) => if d > 0 && timescale > 0 {
            Some((d, t))
        } else {
            None
        },
        _ => None,
    };
    match bounded {
        None => {
            let d: u64 = match duration {
                Some(d) => d,
                None => 0,
            };
            proof {
                assert(0 * d == 0) by (nonlinear_arith);
            }
            push_occurrences(&mut out, start_number, 0, d, 1);
            proof {
                assert(positions(out@) =~= occurrences(start_number as int, 0, d as int, 1));
            }
            Some(out)
        },
        Some((d, t)) => {
            let ghost need = seconds_needed(t);
            let ghost count = steps_to_reach(d as int, timescale as int, need);
            let mut number: u64 = start_number;
            let mut time: u64 = 0;
            let ghost mut k: int = 0;
            proof {
                lemma_steps_to_reach(d as int, timescale as int, need);
                assert(0 * d == 0) by (nonlinear_arith);
                assert(positions(out@) =~= occurrences(start_number as int, 0, d as int, 0));
            }
            loop
                invariant_except_break
                    0 <= k < count,
                    number == start_number + k,
                    time == k * d,
                    positions(out@) == occurrences(start_number as int, 0, d as int, k),
                invariant
                    d > 0,
                    timescale > 0,
                    need == seconds_needed(t),
                    count == steps_to_reach(d as int, timescale as int, need),
                    count >= 1,
                    count * d >= need * timescale,
                    count == 1 || (count - 1) * d < need * timescale,
                    duration == Some(d),
                    total == Some(t),
                ensures
                    positions(out@) == occurrences(start_number as int, 0, d as int, count),
                    implicit_fits(start_number, duration, timescale, total),
                decreases u64::MAX - time,
            {
                let ghost prev = out@;
                out.push(SegmentPosition { number, time });
                proof {
                    assert(positions(out@) =~= positions(prev).push(
                        Position { number: start_number + k, time: 0 + k * d },
                    ));
                    lemma_occurrences_push(start_number as int, 0, d as int, k);
                    assert((k + 1) * d == k * d + d) by (nonlinear_arith);
                    assert((k + 1) * d <= count * d) by (nonlinear_arith)
                        requires
                            k + 1 <= count,
                            d > 0,
                    ;
                }
                if number == u64::MAX || time > u64::MAX - d {
                    return None;
                }
                number += 1;
                time += d;
                let elapsed: u64 = time / timescale;
                proof {
                    k = k + 1;
                    assert((elapsed >= need) <==> (time >= need * timescale)) by (nonlinear_arith)
                        requires
                            elapsed == time as int / timescale as int,
                            timescale > 0,
                            time >= 0,
                    ;
                    if time >= need * timescale {
                        if k < count {
                            assert(k * d <= (count - 1) * d) by (nonlinear_arith)
                                requires
                                    k <= count - 1,
                                    d > 0,
                            ;
                        }
                    } else {
                        if k >= count {
                            assert(false);
                        }
                    }
                }
                if reaches(elapsed, t) {
                    break;
                }
            }
            Some(out)
        },
    }
}

} // verus!
