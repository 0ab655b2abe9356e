//! A document determines what its manifest resolves to: two manifests that
//! the same nodes write have the same segment URLs.
use vstd::prelude::*;
use crate::model::{AdaptationSet, MpegDash, Period, Representation, Seconds, SegmentTemplate};
use crate::mpd::{
    adaptation_set_parts, adaptation_set_urls, base_url_of, initialization_urls, media_positions,
    media_urls, period_parts, period_total, period_urls, representation_parts,
    representation_urls, resolution, segment_parts,
};
use crate::parser::{
    adaptation_set_matches, first_named, last_named, manifest_matches, named,
    optional_template_matches, period_matches, representation_matches, template_matches,
};
use crate::xml::{end_of, Node};

verus! {

/// Two templates written by the same element give a representation the
/// same initialization and media URLs.
pub proof fn lemma_templates_agree(
    a: SegmentTemplate,
    b: SegmentTemplate,
    nodes: Seq<Node>,
    i: int,
    base: Seq<char>,
    ra: Representation,
    rb: Representation,
    total: Option<Seconds>,
)
    requires
        template_matches(a, nodes, i),
        template_matches(b, nodes, i),
        ra.id@ == rb.id@,
        ra.bandwidth == rb.bandwidth,
    ensures
        initialization_urls(base, ra, a) == initialization_urls(base, rb, b),
        media_urls(base, ra, a, total) == media_urls(base, rb, b, total),
{
    assert(media_positions(a, total) == media_positions(b, total));
    if a.media is Some && media_positions(a, total) is Some {
        let at = media_positions(a, total)->0;
        let template = a.media->0@;
        assert(b.media->0@ == template);
        assert(segment_parts(base, template, ra, at) =~= segment_parts(base, template, rb, at));
    }
}

/// Two representations written by the same element, below adaptation sets
/// with the same template, have the same URLs.
pub proof fn lemma_representations_agree(
    ra: Representation,
    rb: Representation,
    nodes: Seq<Node>,
    i: int,
    inherited_a: Option<SegmentTemplate>,
    inherited_b: Option<SegmentTemplate>,
    at: Option<int>,
    base: Seq<char>,
    total: Option<Seconds>,
)
    requires
        representation_matches(ra, nodes, i),
        representation_matches(rb, nodes, i),
        optional_template_matches(inherited_a, nodes, at),
        optional_template_matches(inherited_b, nodes, at),
    ensures
        representation_urls(base, ra, inherited_a, total) == representation_urls(
            base,
            rb,
            inherited_b,
            total,
        ),
{
    let own = first_named(nodes, i, end_of(nodes, i), "SegmentTemplate"@);
    match own {
        Some(j) => {
            lemma_templates_agree(
                ra.segment_template->0,
                rb.segment_template->0,
                nodes,
                j,
                base,
                ra,
                rb,
                total,
            );
        },
        None => {
            if let Some(j) = at {
                lemma_templates_agree(inherited_a->0, inherited_b->0, nodes, j, base, ra, rb, total);
            }
        },
    }
}

/// Two adaptation sets written by the same element have the same URLs.
pub proof fn lemma_adaptation_sets_agree(
    a: AdaptationSet,
    b: AdaptationSet,
    nodes: Seq<Node>,
    i: int,
    base: Seq<char>,
    total: Option<Seconds>,
)
    requires
        adaptation_set_matches(a, nodes, i),
        adaptation_set_matches(b, nodes, i),
    ensures
        adaptation_set_urls(base, a, total) == adaptation_set_urls(base, b, total),
{
    let pa = representation_parts(base, a, total);
    let pb = representation_parts(base, b, total);
    let at = named(nodes, i, end_of(nodes, i), "Representation"@);
    let inherited = last_named(nodes, i, end_of(nodes, i), "SegmentTemplate"@);
    assert forall|k: int| 0 <= k < pa.len() implies pa[k] == pb[k] by {
        let ra = a.representations@[k];
        let rb = b.representations@[k];
        assert(representation_matches(ra, nodes, at[k]));
        assert(representation_matches(rb, nodes, at[k]));
        lemma_representations_agree(
            ra,
            rb,
            nodes,
            at[k],
            a.segment_template,
            b.segment_template,
            inherited,
            base,
            total,
        );
    }
    assert(pa =~= pb);
}

/// Two periods written by the same element have the same URLs.
pub proof fn lemma_periods_agree(
    a: Period,
    b: Period,
    nodes: Seq<Node>,
    i: int,
    base: Seq<char>,
    fallback: Option<Seconds>,
)
    requires
        period_matches(a, nodes, i),
        period_matches(b, nodes, i),
    ensures
        period_urls(base, a, fallback) == period_urls(base, b, fallback),
{
    let pa = adaptation_set_parts(base, a, fallback);
    let pb = adaptation_set_parts(base, b, fallback);
    let at = named(nodes, i, end_of(nodes, i), "AdaptationSet"@);
    assert(period_total(a, fallback) == period_total(b, fallback));
    assert forall|k: int| 0 <= k < pa.len() implies pa[k] == pb[k] by {
        let sa = a.adaptation_sets@[k];
        let sb = b.adaptation_sets@[k];
        assert(adaptation_set_matches(sa, nodes, at[k]));
        assert(adaptation_set_matches(sb, nodes, at[k]));
        lemma_adaptation_sets_agree(sa, sb, nodes, at[k], base, period_total(a, fallback));
    }
    assert(pa =~= pb);
}

/// Two manifests that the same document writes for the same URL resolve
/// to the same base URL and the same segment URLs.
pub proof fn lemma_manifests_agree(a: MpegDash, b: MpegDash, nodes: Seq<Node>, url: Seq<char>)
    requires
        manifest_matches(a, nodes, url),
        manifest_matches(b, nodes, url),
    ensures
        resolution(a) == resolution(b),
{
    if let Some(base) = base_url_of(url) {
        let pa = period_parts(base, a);
        let pb = period_parts(base, b);
        let at = named(nodes, 0, nodes.len() as int, "Period"@);
        assert forall|k: int| 0 <= k < pa.len() implies pa[k] == pb[k] by {
            let x = a.periods@[k];
            let y = b.periods@[k];
            assert(period_matches(x, nodes, at[k]));
            assert(period_matches(y, nodes, at[k]));
            lemma_periods_agree(x, y, nodes, at[k], base, a.media_presentation_duration);
        }
        assert(pa =~= pb);
    }
}

} // verus!
