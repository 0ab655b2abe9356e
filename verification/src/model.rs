//! The document model: a manifest, its periods, adaptation sets,
//! representations and the segment templates that address their media.
use vstd::prelude::*;

verus! {

/// One entry of a segment timeline. `t` is an explicit start time, `d` the
/// duration and `r` the number of further occurrences, all in timescale
/// units.
#[derive(Clone, Copy, Debug)]
pub struct Segment {
    pub t: Option<u64>,
    pub n: Option<u64>,
    pub d: u64,
    pub r: u64,
}

/// The explicit timing of a representation's segments, in document order.
#[derive(Debug)]
pub struct SegmentTimeline {
    pub segments: Vec<Segment>,
}

/// An addressing rule: URL templates plus the numbers that enumerate the
/// segments.
#[derive(Debug)]
pub struct SegmentTemplate {
    pub media: Option<String>,
    pub initialization: Option<String>,
    pub segment_timeline: Option<SegmentTimeline>,
    pub start_number: u64,
    pub duration: Option<u64>,
    pub timescale: u64,
}

/// One encoded rendition of a media component.
#[derive(Debug)]
pub struct Representation {
    pub id: String,
    pub bandwidth: u64,
    pub segment_template: Option<SegmentTemplate>,
}

/// Interchangeable representations of one media component.
#[derive(Debug)]
pub struct AdaptationSet {
    pub mime_type: String,
    pub segment_template: Option<SegmentTemplate>,
    pub representations: Vec<Representation>,
}

/// A length of time in seconds: `whole` seconds plus `nanos` billionths.
#[derive(Clone, Copy, Debug)]
pub struct Seconds {
    pub whole: u64,
    pub nanos: u32,
}

/// One temporal section of the presentation.
#[derive(Debug)]
pub struct Period {
    pub adaptation_sets: Vec<AdaptationSet>,
    pub duration: Option<Seconds>,
}

/// A parsed manifest.
#[derive(Debug)]
pub struct MpegDash {
    pub periods: Vec<Period>,
    pub url: String,
    pub media_presentation_duration: Option<Seconds>,
}

impl Default for Representation {
    fn default() -> (r: Self)
        ensures
            r.id@.len() == 0,
            r.bandwidth == 0,
            r.segment_template is None,
    {
        Representation { id: String::new(), bandwidth: 0, segment_template: None }
    }
}

impl MpegDash {
    /// A manifest without periods, duration or URL.
    pub fn new() -> (r: Self)
        ensures
            r.periods@.len() == 0,
            r.url@.len() == 0,
            r.media_presentation_duration is None,
    {
        MpegDash { periods: Vec::new(), url: String::new(), media_presentation_duration: None }
    }

    /// Appends `period` after the periods already held.
    pub fn insert(&mut self, period: Period)
        ensures
            final(self).periods@ == old(self).periods@.push(period),
            final(self).url == old(self).url,
            final(self).media_presentation_duration == old(self).media_presentation_duration,
    {
        self.periods.push(period);
    }
}

/// The template that addresses a representation's segments: its own where
/// it has one, else the one of its adaptation set. The two are never merged.
pub open spec fn effective_template(
    own: Option<SegmentTemplate>,
    inherited: Option<SegmentTemplate>,
) -> Option<SegmentTemplate> {
    match own {
        Some(t) => Some(t),
        None => inherited,
    }
}

/// Picks the template that addresses a representation's segments.
pub fn resolve_template<'a>(
    own: &'a Option<SegmentTemplate>,
    inherited: &'a Option<SegmentTemplate>,
) -> (r: Option<&'a SegmentTemplate>)
    ensures
        match effective_template(*own, *inherited) {
            Some(t) => r == Some(&t),
            None => r is None,
        },
{
    match own {
        Some(t) => Some(t),
        None => match inherited {
            Some(t) => Some(t),
            None => None,
        },
    }
}

} // verus!
