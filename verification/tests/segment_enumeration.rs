use mpd_harvest::model::{Seconds, Segment, SegmentTimeline};
use mpd_harvest::segments::{implicit_segments, reaches, timeline_segments, SegmentPosition};

fn pairs(v: Option<Vec<SegmentPosition>>) -> Option<Vec<(u64, u64)>> {
    v.map(|v| v.iter().map(|p| (p.number, p.time)).collect())
}

fn entry(t: Option<u64>, d: u64, r: u64) -> Segment {
    Segment { t, n: None, d, r }
}

#[test]
fn timeline_with_inherited_start() {
    let timeline = SegmentTimeline {
        segments: vec![entry(Some(10399888), 20480000, 0), entry(None, 20480000, 0)],
    };
    assert_eq!(pairs(timeline_segments(&timeline, 1)), Some(vec![(1, 10399888), (2, 30879888)]));
}

#[test]
fn timeline_repeats_advance_number_and_time() {
    let timeline = SegmentTimeline { segments: vec![entry(None, 10, 2), entry(Some(100), 5, 1)] };
    assert_eq!(
        pairs(timeline_segments(&timeline, 7)),
        Some(vec![(7, 0), (8, 10), (9, 20), (10, 100), (11, 105)])
    );
}

#[test]
fn timeline_numbers_are_consecutive_and_times_do_not_fall() {
    let timeline = SegmentTimeline {
        segments: vec![entry(Some(3), 4, 3), entry(None, 0, 2), entry(Some(50), 1, 0)],
    };
    let found = timeline_segments(&timeline, 20).unwrap();
    assert_eq!(found.len(), 8);
    for k in 0..found.len() {
        assert_eq!(found[k].number, 20 + k as u64);
        if k > 0 {
            assert!(found[k - 1].time <= found[k].time);
        }
    }
}

#[test]
fn timeline_start_before_the_cursor_is_taken_as_written() {
    let timeline = SegmentTimeline { segments: vec![entry(Some(100), 10, 0), entry(Some(5), 10, 0)] };
    assert_eq!(pairs(timeline_segments(&timeline, 1)), Some(vec![(1, 100), (2, 5)]));
}

#[test]
fn empty_timeline_has_no_segments() {
    let timeline = SegmentTimeline { segments: Vec::new() };
    assert_eq!(pairs(timeline_segments(&timeline, 1)), Some(Vec::new()));
}

#[test]
fn timeline_that_leaves_64_bits_fails() {
    let timeline = SegmentTimeline { segments: vec![entry(Some(u64::MAX), 1, 0)] };
    assert!(timeline_segments(&timeline, 1).is_none());
    let timeline = SegmentTimeline { segments: vec![entry(None, 1, 0)] };
    assert!(timeline_segments(&timeline, u64::MAX).is_none());
    let timeline = SegmentTimeline { segments: vec![entry(None, u64::MAX, u64::MAX)] };
    assert!(timeline_segments(&timeline, 0).is_none());
    let timeline = SegmentTimeline { segments: vec![entry(Some(u64::MAX - 1), 1, 0)] };
    assert_eq!(pairs(timeline_segments(&timeline, 1)), Some(vec![(1, u64::MAX - 1)]));
}

#[test]
fn implicit_segments_cover_the_total_duration() {
    let total = Some(Seconds { whole: 60, nanos: 0 });
    let found = implicit_segments(1, Some(120000), 60000, total).unwrap();
    assert_eq!(found.len(), 30);
    assert_eq!((found[0].number, found[0].time), (1, 0));
    assert_eq!((found[1].number, found[1].time), (2, 120000));
    assert_eq!((found[29].number, found[29].time), (30, 29 * 120000));
}

#[test]
fn implicit_segments_round_the_last_one_up() {
    let total = Some(Seconds { whole: 5, nanos: 0 });
    assert_eq!(implicit_segments(1, Some(2), 1, total).unwrap().len(), 3);
    let total = Some(Seconds { whole: 4, nanos: 1 });
    assert_eq!(implicit_segments(1, Some(2), 1, total).unwrap().len(), 3);
    let total = Some(Seconds { whole: 4, nanos: 0 });
    assert_eq!(implicit_segments(1, Some(2), 1, total).unwrap().len(), 2);
    let total = Some(Seconds { whole: 0, nanos: 0 });
    assert_eq!(implicit_segments(1, Some(2), 1, total).unwrap().len(), 1);
    let total = Some(Seconds { whole: 1, nanos: 0 });
    assert_eq!(implicit_segments(1, Some(5), 10, total).unwrap().len(), 2);
}

#[test]
fn implicit_segments_without_a_bound_are_one() {
    let total = Some(Seconds { whole: 60, nanos: 0 });
    assert_eq!(pairs(implicit_segments(4, Some(10), 1, None)), Some(vec![(4, 0)]));
    assert_eq!(pairs(implicit_segments(4, None, 1, total)), Some(vec![(4, 0)]));
    assert_eq!(pairs(implicit_segments(4, None, 1, None)), Some(vec![(4, 0)]));
    assert_eq!(pairs(implicit_segments(4, Some(0), 1, total)), Some(vec![(4, 0)]));
    assert_eq!(pairs(implicit_segments(4, Some(10), 0, total)), Some(vec![(4, 0)]));
    assert_eq!(pairs(implicit_segments(u64::MAX, None, 1, None)), Some(vec![(u64::MAX, 0)]));
}

#[test]
fn implicit_segments_that_leave_64_bits_fail() {
    let total = Some(Seconds { whole: 4, nanos: 0 });
    assert!(implicit_segments(u64::MAX - 1, Some(1), 1, total).is_none());
    assert!(implicit_segments(1, Some(u64::MAX), u64::MAX, total).is_none());
}

#[test]
fn reaches_counts_a_fraction_as_one_more_second() {
    assert!(reaches(60, Seconds { whole: 60, nanos: 0 }));
    assert!(!reaches(60, Seconds { whole: 60, nanos: 1 }));
    assert!(reaches(61, Seconds { whole: 60, nanos: 1 }));
    assert!(!reaches(59, Seconds { whole: 60, nanos: 0 }));
    assert!(!reaches(u64::MAX, Seconds { whole: u64::MAX, nanos: 5 }));
}
