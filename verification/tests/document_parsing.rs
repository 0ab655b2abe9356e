use mpd_harvest::parser::{
    check_and_parse_segment_template, find_first, get_optional_duration_attribute_from_node,
    parse_adaptation_set, parse_document, parse_duration, parse_mpd, parse_period,
    parse_representation, parse_segment_template, parse_segment_timeline,
    parse_segment_timeline_segment,
};
use mpd_harvest::xml::{
    get_optional_attibute_from_node, get_optional_u64_attibute_from_node, has_tag_name, parse_u64,
    parse_xml, subtree_end, XmlAttribute, XmlNode,
};

fn element(tag: &str, attributes: &[(&str, &str)], span: usize) -> XmlNode {
    XmlNode {
        element: true,
        tag: tag.to_owned(),
        attributes: attributes
            .iter()
            .map(|(n, v)| XmlAttribute { name: n.to_string(), value: v.to_string() })
            .collect(),
        span,
    }
}

fn other(span: usize) -> XmlNode {
    XmlNode { element: false, tag: String::new(), attributes: Vec::new(), span }
}

#[test]
fn parse_u64_reads_decimal_numbers() {
    assert_eq!(parse_u64("0"), Some(0));
    assert_eq!(parse_u64("20480000"), Some(20480000));
    assert_eq!(parse_u64("+17"), Some(17));
    assert_eq!(parse_u64("007"), Some(7));
    assert_eq!(parse_u64("18446744073709551615"), Some(u64::MAX));
    assert_eq!(parse_u64("18446744073709551616"), None);
    assert_eq!(parse_u64("99999999999999999999999"), None);
    assert_eq!(parse_u64(""), None);
    assert_eq!(parse_u64("+"), None);
    assert_eq!(parse_u64("-1"), None);
    assert_eq!(parse_u64("1 "), None);
    assert_eq!(parse_u64("12a"), None);
    assert_eq!(parse_u64("1.5"), None);
}

#[test]
fn parse_u64_agrees_with_the_standard_parser() {
    for text in ["0", "+0", "++1", "1844674407370955161", "18446744073709551615x", "٣", "1_0"] {
        assert_eq!(parse_u64(text), text.parse::<u64>().ok());
    }
}

#[test]
fn parse_duration_reads_seconds() {
    let d = parse_duration("PT0H0M60.000S").unwrap();
    assert_eq!((d.whole, d.nanos), (60, 0));
    let d = parse_duration("PT1M30S").unwrap();
    assert_eq!((d.whole, d.nanos), (90, 0));
    let d = parse_duration("PT0.5S").unwrap();
    assert_eq!((d.whole, d.nanos), (0, 500_000_000));
    let d = parse_duration("P1DT1H").unwrap();
    assert_eq!((d.whole, d.nanos), (90000, 0));
}

#[test]
fn parse_duration_refuses_what_is_no_length_in_seconds() {
    assert!(parse_duration("").is_none());
    assert!(parse_duration("60").is_none());
    assert!(parse_duration("PT").is_none());
    assert!(parse_duration("P1Y").is_none());
    assert!(parse_duration("P2M").is_none());
    assert!(parse_duration("PT-5S").is_none());
}

#[test]
fn parse_xml_lists_nodes_in_document_order() {
    let nodes = parse_xml("<a x='1'><b y='2' z='3'/>t<c><d/></c></a>").unwrap();
    let tags: Vec<&str> = nodes.iter().map(|n| n.tag.as_str()).collect();
    assert_eq!(tags, vec!["", "a", "b", "", "c", "d"]);
    let elements: Vec<bool> = nodes.iter().map(|n| n.element).collect();
    assert_eq!(elements, vec![false, true, true, false, true, true]);
    let spans: Vec<usize> = nodes.iter().map(|n| n.span).collect();
    assert_eq!(spans, vec![6, 5, 1, 1, 2, 1]);
    assert_eq!(nodes[2].attributes.len(), 2);
    assert_eq!(nodes[2].attributes[1].name, "z");
    assert_eq!(nodes[2].attributes[1].value, "3");
    assert_eq!(subtree_end(&nodes, 4), 6);
    assert_eq!(subtree_end(&nodes, 1), 6);
}

#[test]
fn parse_xml_uses_local_names() {
    let nodes = parse_xml("<p:a xmlns:p='urn:x' p:k='v'/>").unwrap();
    assert!(has_tag_name(&nodes[1], "a"));
    assert_eq!(get_optional_attibute_from_node(&nodes[1], "k"), Some("v".to_owned()));
}

#[test]
fn parse_xml_refuses_malformed_text() {
    assert!(parse_xml("<a>").is_none());
    assert!(parse_xml("plain").is_none());
}

#[test]
fn attributes_are_found_by_name() {
    let node = element("S", &[("d", "5"), ("t", "x"), ("d", "6")], 1);
    assert_eq!(get_optional_attibute_from_node(&node, "d"), Some("5".to_owned()));
    assert_eq!(get_optional_attibute_from_node(&node, "r"), None);
    assert_eq!(get_optional_u64_attibute_from_node(&node, "d"), Some(5));
    assert_eq!(get_optional_u64_attibute_from_node(&node, "t"), None);
    assert_eq!(get_optional_u64_attibute_from_node(&node, "r"), None);
    assert!(has_tag_name(&node, "S"));
    assert!(!has_tag_name(&node, "s"));
    assert!(!has_tag_name(&other(1), ""));
}

#[test]
fn duration_attribute_is_read_in_seconds() {
    let node = element("Period", &[("duration", "PT2S"), ("start", "soon")], 1);
    let d = get_optional_duration_attribute_from_node(&node, "duration").unwrap();
    assert_eq!((d.whole, d.nanos), (2, 0));
    assert!(get_optional_duration_attribute_from_node(&node, "start").is_none());
    assert!(get_optional_duration_attribute_from_node(&node, "end").is_none());
}

#[test]
fn subtree_end_stays_within_the_document() {
    let nodes = vec![element("a", &[], 9), element("b", &[], 1), element("c", &[], 0)];
    assert_eq!(subtree_end(&nodes, 0), 3);
    assert_eq!(subtree_end(&nodes, 1), 2);
    assert_eq!(subtree_end(&nodes, 2), 2);
}

#[test]
fn timeline_entry_defaults() {
    let s = parse_segment_timeline_segment(&element("S", &[("d", "7")], 1));
    assert_eq!((s.t, s.n, s.d, s.r), (None, None, 7, 0));
    let s = parse_segment_timeline_segment(&element(
        "S",
        &[("t", "1"), ("n", "2"), ("d", "3"), ("r", "4")],
        1,
    ));
    assert_eq!((s.t, s.n, s.d, s.r), (Some(1), Some(2), 3, 4));
    let s = parse_segment_timeline_segment(&element("S", &[("r", "-1")], 1));
    assert_eq!((s.t, s.n, s.d, s.r), (None, None, 0, 0));
}

#[test]
fn timeline_holds_the_entries_below_it() {
    let nodes = vec![
        element("SegmentTimeline", &[], 3),
        element("S", &[("d", "1")], 1),
        element("S", &[("d", "2")], 1),
        element("S", &[("d", "3")], 1),
    ];
    let timeline = parse_segment_timeline(&nodes, 0);
    let d: Vec<u64> = timeline.segments.iter().map(|s| s.d).collect();
    assert_eq!(d, vec![1, 2]);
}

#[test]
fn template_defaults_and_attributes() {
    let nodes = vec![element("SegmentTemplate", &[], 1)];
    let t = parse_segment_template(&nodes, 0);
    assert_eq!((t.start_number, t.timescale, t.duration), (1, 1, None));
    assert!(t.media.is_none() && t.initialization.is_none() && t.segment_timeline.is_none());
    let nodes = vec![
        element(
            "SegmentTemplate",
            &[
                ("startNumber", "x"),
                ("timescale", "90000"),
                ("duration", "180000"),
                ("media", "m"),
                ("initialization", "i"),
            ],
            3,
        ),
        element("SegmentTimeline", &[], 2),
        element("S", &[("d", "9")], 1),
    ];
    let t = parse_segment_template(&nodes, 0);
    assert_eq!((t.start_number, t.timescale, t.duration), (1, 90000, Some(180000)));
    assert_eq!(t.media, Some("m".to_owned()));
    assert_eq!(t.initialization, Some("i".to_owned()));
    assert_eq!(t.segment_timeline.unwrap().segments.len(), 1);
    assert!(check_and_parse_segment_template(&nodes, 0).is_some());
    assert!(check_and_parse_segment_template(&nodes, 1).is_none());
}

#[test]
fn find_first_looks_within_the_range() {
    let nodes = vec![element("a", &[], 3), element("b", &[], 1), element("b", &[], 1)];
    assert_eq!(find_first(&nodes, 0, 3, "b"), Some(1));
    assert_eq!(find_first(&nodes, 2, 3, "b"), Some(2));
    assert_eq!(find_first(&nodes, 0, 1, "b"), None);
    assert_eq!(find_first(&nodes, 0, 3, "c"), None);
}

#[test]
fn representation_defaults_and_first_template() {
    let nodes = vec![
        element("Representation", &[("bandwidth", "fast")], 3),
        element("SegmentTemplate", &[("media", "first")], 1),
        element("SegmentTemplate", &[("media", "second")], 1),
    ];
    let r = parse_representation(&nodes, 0);
    assert_eq!(r.id, "");
    assert_eq!(r.bandwidth, 0);
    assert_eq!(r.segment_template.unwrap().media, Some("first".to_owned()));
    let nodes = vec![element("Representation", &[("id", "v1"), ("bandwidth", "800")], 1)];
    let r = parse_representation(&nodes, 0);
    assert_eq!(r.id, "v1");
    assert_eq!(r.bandwidth, 800);
    assert!(r.segment_template.is_none());
}

#[test]
fn adaptation_set_collects_representations_and_last_template() {
    let nodes = vec![
        element("AdaptationSet", &[("mimeType", "video/mp4")], 5),
        element("SegmentTemplate", &[("media", "set")], 1),
        element("Representation", &[("id", "a")], 2),
        element("SegmentTemplate", &[("media", "own")], 1),
        element("Representation", &[("id", "b")], 1),
        element("Representation", &[("id", "outside")], 1),
    ];
    let set = parse_adaptation_set(&nodes, 0);
    assert_eq!(set.mime_type, "video/mp4");
    let ids: Vec<&str> = set.representations.iter().map(|r| r.id.as_str()).collect();
    assert_eq!(ids, vec!["a", "b"]);
    assert_eq!(set.segment_template.unwrap().media, Some("own".to_owned()));
    assert!(set.representations[0].segment_template.is_some());
    assert!(set.representations[1].segment_template.is_none());
}

#[test]
fn period_collects_adaptation_sets() {
    let nodes = vec![
        element("Period", &[("duration", "PT10S")], 3),
        element("AdaptationSet", &[("mimeType", "a")], 1),
        element("AdaptationSet", &[("mimeType", "b")], 1),
    ];
    let period = parse_period(&nodes, 0);
    assert_eq!(period.adaptation_sets.len(), 2);
    assert_eq!(period.adaptation_sets[1].mime_type, "b");
    assert_eq!(period.duration.map(|d| (d.whole, d.nanos)), Some((10, 0)));
    let nodes = vec![element("Period", &[("duration", "ten")], 1)];
    assert!(parse_period(&nodes, 0).duration.is_none());
}

#[test]
fn document_collects_periods_and_duration() {
    let nodes = vec![
        other(4),
        element("MPD", &[("mediaPresentationDuration", "PT4S")], 3),
        element("Period", &[], 1),
        element("Period", &[("duration", "PT1S")], 1),
    ];
    let mpd = parse_document(&nodes, "http://h/m.mpd".to_owned());
    assert_eq!(mpd.url, "http://h/m.mpd");
    assert_eq!(mpd.periods.len(), 2);
    assert!(mpd.periods[0].duration.is_none());
    assert_eq!(mpd.media_presentation_duration.map(|d| (d.whole, d.nanos)), Some((4, 0)));
    let mpd = parse_document(&Vec::new(), "u".to_owned());
    assert!(mpd.periods.is_empty() && mpd.media_presentation_duration.is_none());
}

#[test]
fn parse_mpd_reads_text() {
    let xml = "<MPD mediaPresentationDuration='PT1.5S'><Period><AdaptationSet/></Period></MPD>";
    let mpd = parse_mpd(xml.to_owned(), "http://h/m.mpd".to_owned()).unwrap();
    assert_eq!(mpd.periods.len(), 1);
    assert_eq!(mpd.periods[0].adaptation_sets.len(), 1);
    assert_eq!(
        mpd.media_presentation_duration.map(|d| (d.whole, d.nanos)),
        Some((1, 500_000_000))
    );
    assert!(parse_mpd("<MPD>".to_owned(), "http://h/m.mpd".to_owned()).is_none());
}
