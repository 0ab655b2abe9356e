//! From a manifest to the absolute URLs of its segments, in document order.
use vstd::prelude::*;
use vstd::string::*;
use crate::model::{
    effective_template, resolve_template, AdaptationSet, MpegDash, Period, Representation, Seconds,
    SegmentTemplate,
};
use crate::segments::{
    implicit_fits, implicit_positions, implicit_segments, positions, timeline_fits,
    timeline_positions, timeline_segments, Position, SegmentPosition,
};
use crate::parser::{manifest_matches, parse_mpd};
use crate::xml::xml_nodes;
use crate::template::{expand_segment_template, expansion, text_of, FragementDescriptor};
use crate::text::{to_chars, to_string};

verus! {

/// The segment URLs of a manifest and the base URL that each begins with.
#[derive(Default)]
pub struct UrlInfo {
    pub base_url: String,
    pub urls: Vec<String>,
}

pub open spec fn strings(v: Seq<String>) -> Seq<Seq<char>> {
    v.map_values(|s: String| s@)
}

/// The base URL of a manifest: its URL up to and including the last `/`.
/// A URL without `/` has none.
pub open spec fn base_url_of(url: Seq<char>) -> Option<Seq<char>>
    decreases url.len(),
{
    if url.len() == 0 {
        None
    } else if url.last() == '/' {
        Some(url)
    } else {
        base_url_of(url.drop_last())
    }
}

/// Two runs of URLs one after the other; a failure in either is a failure.
pub open spec fn join(a: Option<Seq<Seq<char>>>, b: Option<Seq<Seq<char>>>) -> Option<
    Seq<Seq<char>>,
> {
    match (a, b) {
        (Some(x), Some(y)) => Some(x + y),
        _ => None,
    }
}

/// The runs of URLs in `parts` one after the other, in order.
pub open spec fn join_all(parts: Seq<Option<Seq<Seq<char>>>>) -> Option<Seq<Seq<char>>>
    decreases parts.len(),
{
    if parts.len() == 0 {
        Some(Seq::empty())
    } else {
        join(join_all(parts.drop_last()), parts.last())
    }
}

/// The absolute URL of one segment: the base URL followed by the expanded
/// template.
pub open spec fn segment_url(
    base: Seq<char>,
    template: Seq<char>,
    rep: Representation,
    at: Position,
) -> Option<Seq<Seq<char>>> {
    match expansion(template, rep.id@, rep.bandwidth, at.number as u64, at.time as u64) {
        Some(path) => Some(seq![base + path]),
        None => None,
    }
}

pub open spec fn segment_parts(
    base: Seq<char>,
    template: Seq<char>,
    rep: Representation,
    at: Seq<Position>,
) -> Seq<Option<Seq<Seq<char>>>> {
    Seq::new(at.len(), |k: int| segment_url(base, template, rep, at[k]))
}

/// The URLs of the segments at `at`, in order.
pub open spec fn segment_urls(
    base: Seq<char>,
    template: Seq<char>,
    rep: Representation,
    at: Seq<Position>,
) -> Option<Seq<Seq<char>>> {
    join_all(segment_parts(base, template, rep, at))
}

/// The media segments that a template describes: those of its timeline
/// where it has one, else those that follow from its segment duration and
/// the total duration. `None` where a number or a time leaves 64 bits.
pub open spec fn media_positions(t: SegmentTemplate, total: Option<Seconds>) -> Option<
    Seq<Position>,
> {
    match t.segment_timeline {
        Some(timeline) => if timeline_fits(timeline.segments@, t.start_number as int, 0) {
            Some(timeline_positions(timeline.segments@, t.start_number as int, 0))
        } else {
            None
        },
        None => if implicit_fits(t.start_number, t.duration, t.timescale, total) {
            Some(implicit_positions(t.start_number, t.duration, t.timescale, total))
        } else {
            None
        },
    }
}

/// The URL of the initialization segment, where the template names one.
pub open spec fn initialization_urls(base: Seq<char>, rep: Representation, t: SegmentTemplate) -> Option<
    Seq<Seq<char>>,
> {
    match t.initialization {
        Some(template) => segment_url(
            base,
            template@,
            rep,
            Position { number: t.start_number as int, time: 0 },
        ),
        None => Some(Seq::empty()),
    }
}

/// The URLs of the media segments, where the template names a media
/// template.
pub open spec fn media_urls(
    base: Seq<char>,
    rep: Representation,
    t: SegmentTemplate,
    total: Option<Seconds>,
) -> Option<Seq<Seq<char>>> {
    match t.media {
        Some(template) => match media_positions(t, total) {
            Some(at) => segment_urls(base, template@, rep, at),
            None => None,
        },
        None => Some(Seq::empty()),
    }
}

/// The URLs of one representation: initialization first, then media. A
/// representation without a template of its own or of its adaptation set
/// has none.
pub open spec fn representation_urls(
    base: Seq<char>,
    rep: Representation,
    inherited: Option<SegmentTemplate>,
    total: Option<Seconds>,
) -> Option<Seq<Seq<char>>> {
    match effective_template(rep.segment_template, inherited) {
        Some(t) => join(initialization_urls(base, rep, t), media_urls(base, rep, t, total)),
        None => Some(Seq::empty()),
    }
}

pub open spec fn representation_parts(
    base: Seq<char>,
    set: AdaptationSet,
    total: Option<Seconds>,
) -> Seq<Option<Seq<Seq<char>>>> {
    Seq::new(
        set.representations@.len(),
        |k: int| representation_urls(base, set.representations@[k], set.segment_template, total),
    )
}

/// The URLs of an adaptation set: those of its representations, in order.
pub open spec fn adaptation_set_urls(base: Seq<char>, set: AdaptationSet, total: Option<Seconds>) -> Option<
    Seq<Seq<char>>,
> {
    join_all(representation_parts(base, set, total))
}

/// The duration that bounds a period's segments: its own, else the
/// manifest's.
pub open spec fn period_total(period: Period, fallback: Option<Seconds>) -> Option<Seconds> {
    match period.duration {
        Some(d) => Some(d),
        None => fallback,
    }
}

pub open spec fn adaptation_set_parts(
    base: Seq<char>,
    period: Period,
    fallback: Option<Seconds>,
) -> Seq<Option<Seq<Seq<char>>>> {
    Seq::new(
        period.adaptation_sets@.len(),
        |k: int|
            adaptation_set_urls(base, period.adaptation_sets@[k], period_total(period, fallback)),
    )
}

/// The URLs of a period: those of its adaptation sets, in order.
pub open spec fn period_urls(base: Seq<char>, period: Period, fallback: Option<Seconds>) -> Option<
    Seq<Seq<char>>,
> {
    join_all(adaptation_set_parts(base, period, fallback))
}

/// The URLs of a manifest: those of its periods, adaptation sets and
/// representations in document order.
pub open spec fn manifest_urls(base: Seq<char>, mpd: MpegDash) -> Option<Seq<Seq<char>>> {
    join_all(period_parts(base, mpd))
}

pub open spec fn period_parts(base: Seq<char>, mpd: MpegDash) -> Seq<Option<Seq<Seq<char>>>> {
    Seq::new(
        mpd.periods@.len(),
        |k: int| period_urls(base, mpd.periods@[k], mpd.media_presentation_duration),
    )
}

/// What a manifest resolves to: its base URL and its segment URLs. `None`
/// where its URL has no `/`, a template's format is not accepted, or a
/// number or a time leaves 64 bits.
pub open spec fn resolution(mpd: MpegDash) -> Option<(Seq<char>, Seq<Seq<char>>)> {
    match base_url_of(mpd.url@) {
        Some(base) => match manifest_urls(base, mpd) {
            Some(urls) => Some((base, urls)),
            None => None,
        },
        None => None,
    }
}

pub open spec fn info_of(r: Option<UrlInfo>) -> Option<(Seq<char>, Seq<Seq<char>>)> {
    match r {
        Some(info) => Some((info.base_url@, strings(info.urls@))),
        None => None,
    }
}

pub open spec fn urls_of(r: Option<Vec<String>>) -> Option<Seq<Seq<char>>> {
    match r {
        Some(v) => Some(strings(v@)),
        None => None,
    }
}

proof fn lemma_join_all_step(parts: Seq<Option<Seq<Seq<char>>>>, i: int)
    requires
        0 <= i < parts.len(),
    ensures
        join_all(parts.take(i + 1)) == join(join_all(parts.take(i)), parts[i]),
{
    assert(parts.take(i + 1).drop_last() =~= parts.take(i));
}

proof fn lemma_join_all_fails(parts: Seq<Option<Seq<Seq<char>>>>, i: int)
    requires
        0 <= i <= parts.len(),
        join_all(parts.take(i)) is None,
    ensures
        join_all(parts) is None,
    decreases parts.len() - i,
{
    if i < parts.len() {
        lemma_join_all_step(parts, i);
        lemma_join_all_fails(parts, i + 1);
    } else {
        assert(parts.take(i) =~= parts);
    }
}

/// A representation without any template contributes no URL, and the URLs
/// before it stay as they are.
pub proof fn lemma_unresolvable_contributes_nothing(
    base: Seq<char>,
    rep: Representation,
    inherited: Option<SegmentTemplate>,
    total: Option<Seconds>,
    before: Option<Seq<Seq<char>>>,
)
    requires
        rep.segment_template is None,
        inherited is None,
    ensures
        representation_urls(base, rep, inherited, total) == Some(Seq::<Seq<char>>::empty()),
        join(before, representation_urls(base, rep, inherited, total)) == before,
{
    if let Some(urls) = before {
        assert(urls + Seq::<Seq<char>>::empty() =~= urls);
    }
}

/// Derives the base URL of a manifest from the manifest's own URL.
pub fn base_url(url: &str) -> (r: Option<String>)
    ensures
        text_of(r) == base_url_of(url@),
{
    let mut chars = to_chars(url);
    let ghost all = chars@;
    let mut n: usize = chars.len();
    proof {
        assert(all.take(n as int) =~= all);
    }
    while n > 0
        invariant
            n <= all.len(),
            chars@ == all,
            all == url@,
            base_url_of(all.take(n as int)) == base_url_of(all),
        decreases n,
    {
        if chars[n - 1] == '/' {
            chars.truncate(n);
            proof {
                assert(chars@ =~= all.take(n as int));
                assert(all.take(n as int).last() == '/');
            }
            return Some(to_string(&chars));
        }
        proof {
            assert(all.take(n as int).drop_last() =~= all.take(n - 1));
        }
        n -= 1;
    }
    None
}

/// Appends the absolute URL of one segment to `urls`. Returns `false`, and
/// leaves `urls` as it is, where the template's format is not accepted.
fn push_segment_url(
    urls: &mut Vec<String>,
    base: &String,
    template: &String,
    rep: &Representation,
    at: SegmentPosition,
) -> (r: bool)
    ensures
        match segment_url(base@, template@, *rep, at@) {
            Some(one) => r && strings(final(urls)@) == strings(old(urls)@) + one,
            None => !r && final(urls)@ == old(urls)@,
        },
{
    let descriptor = FragementDescriptor {
        number: at.number,
        representation: rep,
        time: at.time,
        repeat: 0,
    };
    match expand_segment_template(template.as_str(), &descriptor) {
        Some(path) => {
            let mut url = base.clone();
            url.append(path.as_str());
            let ghost before = urls@;
            urls.push(url);
            proof {
                assert(strings(urls@) =~= strings(before) + seq![base@ + path@]);
            }
            true
        },
        None => false,
    }
}

/// The URLs of one representation, appended in order: initialization
/// first, then the media segments. `total` is the duration that bounds the
/// segments where the template has no timeline.
pub fn representation_segment_urls(
    base: &String,
    rep: &Representation,
    inherited: &Option<SegmentTemplate>,
    total: Option<Seconds>,
) -> (r: Option<Vec<String>>)
    ensures
        urls_of(r) == representation_urls(base@, *rep, *inherited, total),
{
    let mut urls: Vec<String> = Vec::new();
    let t = match resolve_template(&rep.segment_template, inherited) {
        Some(t) => t,
        None => {
            proof {
                assert(strings(urls@) =~= Seq::<Seq<char>>::empty());
            }
            return Some(urls);
        },
    };
    proof {
        assert(strings(urls@) =~= Seq::<Seq<char>>::empty());
    }
    match &t.initialization {
        Some(template) => {
            let at = SegmentPosition { number: t.start_number, time: 0 };
            if !push_segment_url(&mut urls, base, template, rep, at) {
                return None;
            }
            proof {
                assert(Seq::<Seq<char>>::empty() + initialization_urls(base@, *rep, *t)->0
                    =~= initialization_urls(base@, *rep, *t)->0);
            }
        },
        None => {},
    }
    let template = match &t.media {
        Some(template) => template,
        None => {
            proof {
                assert(strings(urls@) + Seq::<Seq<char>>::empty() =~= strings(urls@));
            }
            return Some(urls);
        },
    };
    let found = match &t.segment_timeline {
        Some(timeline) => timeline_segments(timeline, t.start_number),
        None => implicit_segments(t.start_number, t.duration, t.timescale, total),
    };
    let at = match found {
        Some(at) => at,
        None => {
            return None;
        },
    };
    let ghost first = strings(urls@);
    let ghost parts = segment_parts(base@, template@, *rep, positions(at@));
    let mut i: usize = 0;
    proof {
        assert(first + Seq::<Seq<char>>::empty() =~= first);
        assert(parts.take(0) =~= Seq::empty());
    }
    while i < at.len()
        invariant
            i <= at.len(),
            parts.len() == at.len(),
            parts == segment_parts(base@, template@, *rep, positions(at@)),
            representation_urls(base@, *rep, *inherited, total) == join(
                Some(first),
                join_all(parts),
            ),
            join_all(parts.take(i as int)) is Some,
            strings(urls@) == first + join_all(parts.take(i as int))->0,
        decreases at.len() - i,
    {
        proof {
            lemma_join_all_step(parts, i as int);
            assert(parts[i as int] == segment_url(base@, template@, *rep, at@[i as int]@));
        }
        if !push_segment_url(&mut urls, base, template, rep, at[i]) {
            proof {
                lemma_join_all_fails(parts, i + 1);
            }
            return None;
        }
        proof {
            assert(strings(urls@) =~= first + join_all(parts.take(i + 1))->0);
        }
        i += 1;
    }
    proof {
        assert(parts.take(i as int) =~= parts);
    }
    Some(urls)
}

/// The URLs of the representations of one adaptation set, in order.
pub fn adaptation_set_segment_urls(base: &String, set: &AdaptationSet, total: Option<Seconds>) -> (r:
    Option<Vec<String>>)
    ensures
        urls_of(r) == adaptation_set_urls(base@, *set, total),
{
    let mut urls: Vec<String> = Vec::new();
    let ghost parts = representation_parts(base@, *set, total);
    let mut i: usize = 0;
    proof {
        assert(parts.take(0) =~= Seq::empty());
        assert(strings(urls@) =~= Seq::<Seq<char>>::empty());
    }
    while i < set.representations.len()
        invariant
            i <= set.representations.len(),
            parts == representation_parts(base@, *set, total),
            join_all(parts.take(i as int)) == Some(strings(urls@)),
        decreases set.representations.len() - i,
    {
        proof {
            lemma_join_all_step(parts, i as int);
        }
        match representation_segment_urls(base, &set.representations[i], &set.segment_template, total) {
            Some(mut more) => {
                let ghost before = urls@;
                let ghost added = more@;
                urls.append(&mut more);
                proof {
                    assert(strings(urls@) =~= strings(before) + strings(added));
                }
            },
            None => {
                proof {
                    lemma_join_all_fails(parts, i + 1);
                }
                return None;
            },
        }
        i += 1;
    }
    proof {
        assert(parts.take(i as int) =~= parts);
    }
    Some(urls)
}

/// The URLs of the adaptation sets of one period, in order. `fallback` is
/// the manifest's duration, used where the period has none.
pub fn period_segment_urls(base: &String, period: &Period, fallback: Option<Seconds>) -> (r: Option<
    Vec<String>,
>)
    ensures
        urls_of(r) == period_urls(base@, *period, fallback),
{
    let total: Option<Seconds> = match period.duration {
        Some(d) => Some(d),
        None => fallback,
    };
    let mut urls: Vec<String> = Vec::new();
    let ghost parts = adaptation_set_parts(base@, *period, fallback);
    let mut i: usize = 0;
    proof {
        assert(parts.take(0) =~= Seq::empty());
        assert(strings(urls@) =~= Seq::<Seq<char>>::empty());
    }
    while i < period.adaptation_sets.len()
        invariant
            i <= period.adaptation_sets.len(),
            total == period_total(*period, fallback),
            parts == adaptation_set_parts(base@, *period, fallback),
            join_all(parts.take(i as int)) == Some(strings(urls@)),
        decreases period.adaptation_sets.len() - i,
    {
        proof {
            lemma_join_all_step(parts, i as int);
        }
        match adaptation_set_segment_urls(base, &period.adaptation_sets[i], total) {
            Some(mut more) => {
                let ghost before = urls@;
                let ghost added = more@;
                urls.append(&mut more);
                proof {
                    assert(strings(urls@) =~= strings(before) + strings(added));
                }
            },
            None => {
                proof {
                    lemma_join_all_fails(parts, i + 1);
                }
                return None;
            },
        }
        i += 1;
    }
    proof {
        assert(parts.take(i as int) =~= parts);
    }
    Some(urls)
}

/// Resolves a manifest into its base URL and the absolute URLs of its
/// segments, in document order.
pub fn get_urls(mpd: MpegDash) -> (r: Option<UrlInfo>)
    ensures
        info_of(r) == resolution(mpd),
{
    let base = match base_url(mpd.url.as_str()) {
        Some(base) => base,
        None => {
            return None;
        },
    };
    let mut urls: Vec<String> = Vec::new();
    let ghost parts = period_parts(base@, mpd);
    let mut i: usize = 0;
    proof {
        assert(parts.take(0) =~= Seq::empty());
        assert(strings(urls@) =~= Seq::<Seq<char>>::empty());
    }
    while i < mpd.periods.len()
        invariant
            i <= mpd.periods.len(),
            parts == period_parts(base@, mpd),
            base_url_of(mpd.url@) == Some(base@),
            join_all(parts.take(i as int)) == Some(strings(urls@)),
        decreases mpd.periods.len() - i,
    {
        proof {
            lemma_join_all_step(parts, i as int);
        }
        match period_segment_urls(&base, &mpd.periods[i], mpd.media_presentation_duration) {
            Some(mut more) => {
                let ghost before = urls@;
                let ghost added = more@;
                urls.append(&mut more);
                proof {
                    assert(strings(urls@) =~= strings(before) + strings(added));
                }
            },
            None => {
                proof {
                    lemma_join_all_fails(parts, i + 1);
                }
                return None;
            },
        }
        i += 1;
    }
    proof {
        assert(parts.take(i as int) =~= parts);
    }
    Some(UrlInfo { base_url: base, urls })
}

/// Whether `r` is what the manifest written by the XML text `xml`, found
/// at `url`, resolves to: nothing where the text is not well-formed, else
/// the resolution of the manifest that the document writes.
pub open spec fn resolves_to(r: Option<UrlInfo>, xml: Seq<char>, url: Seq<char>) -> bool {
    match xml_nodes(xml) {
        Some(nodes) => exists|m: MpegDash|
            manifest_matches(m, nodes, url) && info_of(r) == resolution(m),
        None => r is None,
    }
}

/// Resolves the manifest written by `xml_text`, found at `url`, into its
/// base URL and the absolute URLs of its segments.
pub fn get_fragment_urls(xml_text: String, url: &str) -> (r: Option<UrlInfo>)
    ensures
        resolves_to(r, xml_text@, url@),
        base_url_of(url@) is None ==> r is None,
        r matches Some(info) ==> Some(info.base_url@) == base_url_of(url@),
{
    match parse_mpd(xml_text, url.to_owned()) {
        Some(mpd) => {
            let ghost m = mpd;
            let r = get_urls(mpd);
            proof {
                assert(manifest_matches(m, xml_nodes(xml_text@)->0, url@) && info_of(r)
                    == resolution(m));
            }
            r
        },
        None => None,
    }
}

} // verus!
