//! From the nodes of an XML document to the document model.
use vstd::prelude::*;
use vstd::string::*;
use crate::model::{
    AdaptationSet, MpegDash, Period, Representation, Seconds, Segment, SegmentTemplate,
    SegmentTimeline,
};
use crate::template::text_of;
use crate::xml::{
    attribute, document, end_of, get_optional_attibute_from_node,
    get_optional_u64_attibute_from_node, has_tag, has_tag_name, number_attribute, parse_xml,
    subtree_end, xml_nodes, Node, XmlNode,
};

verus! {

/// What `iso8601_duration::Duration::parse` and `Duration::num_seconds`
/// make of `text`, as whole seconds and nanoseconds: `None` where the text
/// is no duration, where it counts years or months, or where its seconds
/// are no length of time.
pub uninterp spec fn iso8601_seconds(text: Seq<char>) -> Option<(u64, u32)>;

/// Parses `text` with `iso8601_duration::Duration::parse`, takes its
/// `num_seconds` and splits them with `std::time::Duration` into whole
/// seconds and nanoseconds. `None` where any of the three gives none.
#[verifier::external_body]
fn read_duration(text: &str) -> (r: Option<(u64, u32)>)
    ensures
        r == iso8601_seconds(text@),
{
    let parsed = iso8601_duration::Duration::parse(text).ok()?;
    let length = std::time::Duration::try_from_secs_f32(parsed.num_seconds()?).ok()?;
    Some((length.as_secs(), length.subsec_nanos()))
}

pub open spec fn seconds_of(parts: Option<(u64, u32)>) -> Option<Seconds> {
    match parts {
        Some((whole, nanos)) => Some(Seconds { whole, nanos }),
        None => None,
    }
}

/// Reads an ISO 8601 duration as seconds.
pub fn parse_duration(text: &str) -> (r: Option<Seconds>)
    ensures
        r == seconds_of(iso8601_seconds(text@)),
{
    match read_duration(text) {
        Some((whole, nanos)) => Some(Seconds { whole, nanos }),
        None => None,
    }
}

/// The duration that an attribute of `node` writes; one that writes none
/// counts as absent.
pub open spec fn duration_attribute(node: Node, name: Seq<char>) -> Option<Seconds> {
    match attribute(node, name) {
        Some(value) => seconds_of(iso8601_seconds(value)),
        None => None,
    }
}

/// Reads an attribute of `node` as a duration.
pub fn get_optional_duration_attribute_from_node(node: &XmlNode, attribute: &str) -> (r: Option<
    Seconds,
>)
    ensures
        r == duration_attribute(node@, attribute@),
{
    match get_optional_attibute_from_node(node, attribute) {
        Some(value) => parse_duration(value.as_str()),
        None => None,
    }
}

pub open spec fn or_default(value: Option<u64>, default: u64) -> u64 {
    match value {
        Some(v) => v,
        None => default,
    }
}

pub open spec fn text_or_empty(value: Option<Seq<char>>) -> Seq<char> {
    match value {
        Some(v) => v,
        None => Seq::empty(),
    }
}

/// The first element named `tag` among the nodes from `lo` up to `hi`.
pub open spec fn first_named(nodes: Seq<Node>, lo: int, hi: int, tag: Seq<char>) -> Option<int>
    decreases hi - lo,
{
    if hi <= lo {
        None
    } else if has_tag(nodes[lo], tag) {
        Some(lo)
    } else {
        first_named(nodes, lo + 1, hi, tag)
    }
}

/// The last element named `tag` among the nodes from `lo` up to `hi`.
pub open spec fn last_named(nodes: Seq<Node>, lo: int, hi: int, tag: Seq<char>) -> Option<int>
    decreases hi - lo,
{
    if hi <= lo {
        None
    } else if has_tag(nodes[hi - 1], tag) {
        Some(hi - 1)
    } else {
        last_named(nodes, lo, hi - 1, tag)
    }
}

/// The elements named `tag` among the nodes from `lo` up to `hi`, in
/// document order.
pub open spec fn named(nodes: Seq<Node>, lo: int, hi: int, tag: Seq<char>) -> Seq<int>
    decreases hi - lo,
{
    if hi <= lo {
        Seq::empty()
    } else if has_tag(nodes[hi - 1], tag) {
        named(nodes, lo, hi - 1, tag).push(hi - 1)
    } else {
        named(nodes, lo, hi - 1, tag)
    }
}

/// The timeline entry that an `S` element writes. A missing or unreadable
/// `d` or `r` counts as 0.
pub open spec fn segment_of(node: Node) -> Segment {
    Segment {
        t: number_attribute(node, "t"@),
        n: number_attribute(node, "n"@),
        d: or_default(number_attribute(node, "d"@), 0),
        r: or_default(number_attribute(node, "r"@), 0),
    }
}

/// The timeline entries that the `S` elements from `lo` up to `hi` write.
pub open spec fn entries_between(nodes: Seq<Node>, lo: int, hi: int) -> Seq<Segment>
    decreases hi - lo,
{
    if hi <= lo {
        Seq::empty()
    } else if has_tag(nodes[hi - 1], "S"@) {
        entries_between(nodes, lo, hi - 1).push(segment_of(nodes[hi - 1]))
    } else {
        entries_between(nodes, lo, hi - 1)
    }
}

/// Whether `t` is the timeline of the template at node `i`: that of the
/// first `SegmentTimeline` among its descendants, with the `S` elements
/// below it.
pub open spec fn timeline_matches(t: Option<SegmentTimeline>, nodes: Seq<Node>, i: int) -> bool {
    match first_named(nodes, i, end_of(nodes, i), "SegmentTimeline"@) {
        Some(j) => t is Some && t->0.segments@ == entries_between(nodes, j, end_of(nodes, j)),
        None => t is None,
    }
}

/// Whether `t` is what the `SegmentTemplate` element at node `i` writes.
/// `startNumber` and `timescale` default to 1.
pub open spec fn template_matches(t: SegmentTemplate, nodes: Seq<Node>, i: int) -> bool {
    &&& text_of(t.initialization) == attribute(nodes[i], "initialization"@)
    &&& text_of(t.media) == attribute(nodes[i], "media"@)
    &&& timeline_matches(t.segment_timeline, nodes, i)
    &&& t.start_number == or_default(number_attribute(nodes[i], "startNumber"@), 1)
    &&& t.duration == number_attribute(nodes[i], "duration"@)
    &&& t.timescale == or_default(number_attribute(nodes[i], "timescale"@), 1)
}

pub open spec fn optional_template_matches(
    t: Option<SegmentTemplate>,
    nodes: Seq<Node>,
    at: Option<int>,
) -> bool {
    match at {
        Some(j) => t is Some && template_matches(t->0, nodes, j),
        None => t is None,
    }
}

/// Whether `r` is what the `Representation` element at node `i` writes:
/// its `id` (empty where missing), its `bandwidth` (0 where missing or
/// unreadable) and the first `SegmentTemplate` among its descendants.
pub open spec fn representation_matches(r: Representation, nodes: Seq<Node>, i: int) -> bool {
    &&& r.id@ == text_or_empty(attribute(nodes[i], "id"@))
    &&& r.bandwidth == or_default(number_attribute(nodes[i], "bandwidth"@), 0)
    &&& optional_template_matches(
        r.segment_template,
        nodes,
        first_named(nodes, i, end_of(nodes, i), "SegmentTemplate"@),
    )
}

pub open spec fn representations_match(v: Seq<Representation>, nodes: Seq<Node>, at: Seq<int>) -> bool {
    &&& v.len() == at.len()
    &&& forall|k: int| 0 <= k < v.len() ==> representation_matches(#[trigger] v[k], nodes, at[k])
}

/// Whether `s` is what the `AdaptationSet` element at node `i` writes: its
/// `mimeType`, the `Representation` elements among its descendants and the
/// last `SegmentTemplate` among them.
pub open spec fn adaptation_set_matches(s: AdaptationSet, nodes: Seq<Node>, i: int) -> bool {
    &&& s.mime_type@ == text_or_empty(attribute(nodes[i], "mimeType"@))
    &&& optional_template_matches(
        s.segment_template,
        nodes,
        last_named(nodes, i, end_of(nodes, i), "SegmentTemplate"@),
    )
    &&& representations_match(
        s.representations@,
        nodes,
        named(nodes, i, end_of(nodes, i), "Representation"@),
    )
}

pub open spec fn adaptation_sets_match(v: Seq<AdaptationSet>, nodes: Seq<Node>, at: Seq<int>) -> bool {
    &&& v.len() == at.len()
    &&& forall|k: int| 0 <= k < v.len() ==> adaptation_set_matches(#[trigger] v[k], nodes, at[k])
}

/// Whether `p` is what the `Period` element at node `i` writes: its
/// `duration` and the `AdaptationSet` elements among its descendants.
pub open spec fn period_matches(p: Period, nodes: Seq<Node>, i: int) -> bool {
    &&& p.duration == duration_attribute(nodes[i], "duration"@)
    &&& adaptation_sets_match(
        p.adaptation_sets@,
        nodes,
        named(nodes, i, end_of(nodes, i), "AdaptationSet"@),
    )
}

pub open spec fn periods_match(v: Seq<Period>, nodes: Seq<Node>, at: Seq<int>) -> bool {
    &&& v.len() == at.len()
    &&& forall|k: int| 0 <= k < v.len() ==> period_matches(#[trigger] v[k], nodes, at[k])
}

/// The duration of the presentation: what the last `MPD` element with a
/// `mediaPresentationDuration` among the first `hi` nodes writes there.
pub open spec fn presentation_duration(nodes: Seq<Node>, hi: int) -> Option<Seconds>
    decreases hi,
{
    if hi <= 0 {
        None
    } else if has_tag(nodes[hi - 1], "MPD"@) && attribute(
        nodes[hi - 1],
        "mediaPresentationDuration"@,
    ) is Some {
        duration_attribute(nodes[hi - 1], "mediaPresentationDuration"@)
    } else {
        presentation_duration(nodes, hi - 1)
    }
}

/// Whether `m` is the manifest that a document writes: the `Period`
/// elements in document order, the duration of the presentation and the
/// manifest's own URL.
pub open spec fn manifest_matches(m: MpegDash, nodes: Seq<Node>, url: Seq<char>) -> bool {
    &&& m.url@ == url
    &&& m.media_presentation_duration == presentation_duration(nodes, nodes.len() as int)
    &&& periods_match(m.periods@, nodes, named(nodes, 0, nodes.len() as int, "Period"@))
}

/// Finds the first element named `tag` among the nodes from `lo` up to
/// `hi`.
pub fn find_first(nodes: &Vec<XmlNode>, lo: usize, hi: usize, tag: &str) -> (r: Option<usize>)
    requires
        lo <= hi <= nodes.len(),
    ensures
        match first_named(document(nodes@), lo as int, hi as int, tag@) {
            Some(j) => r == Some(j as usize) && lo <= j < hi && has_tag(
                document(nodes@)[j],
                tag@,
            ),
            None => r is None,
        },
{
    let ghost doc = document(nodes@);
    let mut j: usize = lo;
    while j < hi
        invariant
            lo <= j <= hi <= nodes.len(),
            doc == document(nodes@),
            first_named(doc, j as int, hi as int, tag@) == first_named(
                doc,
                lo as int,
                hi as int,
                tag@,
            ),
        decreases hi - j,
    {
        if has_tag_name(&nodes[j], tag) {
            return Some(j);
        }
        j += 1;
    }
    None
}

/// Reads one `S` element.
pub fn parse_segment_timeline_segment(node: &XmlNode) -> (r: Segment)
    ensures
        r == segment_of(node@),
{
    let d: u64 = match get_optional_u64_attibute_from_node(node, "d") {
        Some(val) => val,
        None => 0,
    };
    let n = get_optional_u64_attibute_from_node(node, "n");
    let r: u64 = match get_optional_u64_attibute_from_node(node, "r") {
        Some(val) => val,
        None => 0,
    };
    let t = get_optional_u64_attibute_from_node(node, "t");
    Segment { t, n, d, r }
}

/// Reads the `SegmentTimeline` element at node `i`: the `S` elements among
/// its descendants, in document order.
pub fn parse_segment_timeline(nodes: &Vec<XmlNode>, i: usize) -> (r: SegmentTimeline)
    requires
        i < nodes.len(),
    ensures
        r.segments@ == entries_between(
            document(nodes@),
            i as int,
            end_of(document(nodes@), i as int),
        ),
{
    let ghost doc = document(nodes@);
    let end: usize = subtree_end(nodes, i);
    let mut segments: Vec<Segment> = Vec::new();
    let mut j: usize = i;
    while j < end
        invariant
            i <= j <= end <= nodes.len(),
            doc == document(nodes@),
            segments@ == entries_between(doc, i as int, j as int),
        decreases end - j,
    {
        if has_tag_name(&nodes[j], "S") {
            segments.push(parse_segment_timeline_segment(&nodes[j]));
        }
        j += 1;
    }
    SegmentTimeline { segments }
}

/// Reads the `SegmentTemplate` element at node `i`.
pub fn parse_segment_template(nodes: &Vec<XmlNode>, i: usize) -> (r: SegmentTemplate)
    requires
        i < nodes.len(),
    ensures
        template_matches(r, document(nodes@), i as int),
{
    let node = &nodes[i];
    let end: usize = subtree_end(nodes, i);
    let initialization = get_optional_attibute_from_node(node, "initialization");
    let media = get_optional_attibute_from_node(node, "media");
    let segment_timeline = match find_first(nodes, i, end, "SegmentTimeline") {
        Some(j) => Some(parse_segment_timeline(nodes, j)),
        None => None,
    };
    let start_number: u64 = match get_optional_u64_attibute_from_node(node, "startNumber") {
        Some(val) => val,
        None => 1,
    };
    let duration = get_optional_u64_attibute_from_node(node, "duration");
    let timescale: u64 = match get_optional_u64_attibute_from_node(node, "timescale") {
        Some(val) => val,
        None => 1,
    };
    SegmentTemplate { media, initialization, segment_timeline, start_number, duration, timescale }
}

/// Reads the template at node `i` where that node is a `SegmentTemplate`
/// element; any other node writes none.
pub fn check_and_parse_segment_template(nodes: &Vec<XmlNode>, i: usize) -> (r: Option<
    SegmentTemplate,
>)
    requires
        i < nodes.len(),
    ensures
        r is Some <==> has_tag(document(nodes@)[i as int], "SegmentTemplate"@),
        r matches Some(t) ==> template_matches(t, document(nodes@), i as int),
{
    if has_tag_name(&nodes[i], "SegmentTemplate") {
        Some(parse_segment_template(nodes, i))
    } else {
        None
    }
}

/// Reads the `Representation` element at node `i`.
pub fn parse_representation(nodes: &Vec<XmlNode>, i: usize) -> (r: Representation)
    requires
        i < nodes.len(),
    ensures
        representation_matches(r, document(nodes@), i as int),
{
    let node = &nodes[i];
    let end: usize = subtree_end(nodes, i);
    let id = match get_optional_attibute_from_node(node, "id") {
        Some(val) => val,
        None => String::new(),
    };
    let bandwidth: u64 = match get_optional_u64_attibute_from_node(node, "bandwidth") {
        Some(val) => val,
        None => 0,
    };
    let segment_template = match find_first(nodes, i, end, "SegmentTemplate") {
        Some(j) => check_and_parse_segment_template(nodes, j),
        None => None,
    };
    Representation { id, bandwidth, segment_template }
}

/// Reads the `AdaptationSet` element at node `i`.
pub fn parse_adaptation_set(nodes: &Vec<XmlNode>, i: usize) -> (r: AdaptationSet)
    requires
        i < nodes.len(),
    ensures
        adaptation_set_matches(r, document(nodes@), i as int),
{
    let ghost doc = document(nodes@);
    let node = &nodes[i];
    let end: usize = subtree_end(nodes, i);
    let mime_type = match get_optional_attibute_from_node(node, "mimeType") {
        Some(val) => val,
        None => String::new(),
    };
    let mut segment_template: Option<SegmentTemplate> = None;
    let mut representations: Vec<Representation> = Vec::new();
    let mut j: usize = i;
    while j < end
        invariant
            i <= j <= end <= nodes.len(),
            doc == document(nodes@),
            optional_template_matches(
                segment_template,
                doc,
                last_named(doc, i as int, j as int, "SegmentTemplate"@),
            ),
            representations_match(
                representations@,
                doc,
                named(doc, i as int, j as int, "Representation"@),
            ),
        decreases end - j,
    {
        if has_tag_name(&nodes[j], "Representation") {
            let representation = parse_representation(nodes, j);
            representations.push(representation);
        }
        if has_tag_name(&nodes[j], "SegmentTemplate") {
            segment_template = Some(parse_segment_template(nodes, j));
        }
        j += 1;
    }
    AdaptationSet { mime_type, segment_template, representations }
}

/// Reads the `Period` element at node `i`.
pub fn parse_period(nodes: &Vec<XmlNode>, i: usize) -> (r: Period)
    requires
        i < nodes.len(),
    ensures
        period_matches(r, document(nodes@), i as int),
{
    let ghost doc = document(nodes@);
    let end: usize = subtree_end(nodes, i);
    let mut adaptation_sets: Vec<AdaptationSet> = Vec::new();
    let mut j: usize = i;
    while j < end
        invariant
            i <= j <= end <= nodes.len(),
            doc == document(nodes@),
            adaptation_sets_match(
                adaptation_sets@,
                doc,
                named(doc, i as int, j as int, "AdaptationSet"@),
            ),
        decreases end - j,
    {
        if has_tag_name(&nodes[j], "AdaptationSet") {
            let adaptation_set = parse_adaptation_set(nodes, j);
            adaptation_sets.push(adaptation_set);
        }
        j += 1;
    }
    let duration = get_optional_duration_attribute_from_node(&nodes[i], "duration");
    Period { adaptation_sets, duration }
}

/// Builds the manifest that the nodes of a document write.
pub fn parse_document(nodes: &Vec<XmlNode>, url: String) -> (r: MpegDash)
    ensures
        manifest_matches(r, document(nodes@), url@),
{
    let ghost doc = document(nodes@);
    let mut mpeg_dash = MpegDash::new();
    let mut j: usize = 0;
    while j < nodes.len()
        invariant
            j <= nodes.len(),
            doc == document(nodes@),
            mpeg_dash.media_presentation_duration == presentation_duration(doc, j as int),
            periods_match(mpeg_dash.periods@, doc, named(doc, 0, j as int, "Period"@)),
        decreases nodes.len() - j,
    {
        if has_tag_name(&nodes[j], "Period") {
            let period = parse_period(nodes, j);
            mpeg_dash.insert(period);
        }
        if has_tag_name(&nodes[j], "MPD") {
            match get_optional_attibute_from_node(&nodes[j], "mediaPresentationDuration") {
                Some(duration) => {
                    mpeg_dash.media_presentation_duration = parse_duration(duration.as_str());
                },
                None => {},
            }
        }
        j += 1;
    }
    mpeg_dash.url = url;
    mpeg_dash
}

/// Whether `r` is the manifest that the XML text writes: none where the
/// text is not well-formed.
pub open spec fn parsed(r: Option<MpegDash>, xml: Seq<char>, url: Seq<char>) -> bool {
    match xml_nodes(xml) {
        Some(nodes) => r is Some && manifest_matches(r->0, nodes, url),
        None => r is None,
    }
}

/// Parses a manifest from its XML text and its own URL.
pub fn parse_mpd(xml: String, url: String) -> (r: Option<MpegDash>)
    ensures
        parsed(r, xml@, url@),
{
    match parse_xml(xml.as_str()) {
        Some(nodes) => Some(parse_document(&nodes, url)),
        None => None,
    }
}

} // verus!
