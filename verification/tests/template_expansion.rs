use mpd_harvest::model::Representation;
use mpd_harvest::template::{
    expand_segment_template, format_token, has_short_digit_runs, replace_with_printf_format,
    substitute, substitute_number, FragementDescriptor,
};
use mpd_harvest::text::{matches_at, replace, starts_with, to_chars, to_string};

fn chars(s: &str) -> Vec<char> {
    s.chars().collect()
}

fn expand(template: &str, id: &str, bandwidth: u64, number: u64, time: u64) -> Option<String> {
    let mut representation: Representation = Default::default();
    representation.id = id.to_owned();
    representation.bandwidth = bandwidth;
    let descriptor = FragementDescriptor { number, representation: &representation, time, repeat: 0 };
    expand_segment_template(template, &descriptor)
}

#[test]
fn expand_segment_template_test_1() {
    let mut representation: Representation = Default::default();
    representation.id = "repId".to_owned();
    representation.bandwidth = 12345;
    let mut template_string = "$RepresentationID$/$Number%06d$.m4s";
    let fragement_descriptor = FragementDescriptor {
        number: 1,
        representation: &representation,
        time: 123,
        repeat: 0,
    };
    assert_eq!(
        expand_segment_template(template_string, &fragement_descriptor),
        Some("repId/000001.m4s".to_owned())
    );
    template_string = "$RepresentationID$/$Time%05d$.m4s";
    assert_eq!(
        expand_segment_template(template_string, &fragement_descriptor),
        Some("repId/00123.m4s".to_owned())
    );
    template_string = "$RepresentationID$/$Bandwidth%07d$.m4s";
    assert_eq!(
        expand_segment_template(template_string, &fragement_descriptor),
        Some("repId/0012345.m4s".to_owned())
    );
    template_string = "$RepresentationID$/$Bandwidth%07d$$Time%05d$$Number%06d$.m4s";
    assert_eq!(
        expand_segment_template(template_string, &fragement_descriptor),
        Some("repId/001234500123000001.m4s".to_owned())
    );
}

#[test]
fn default_representation_is_empty() {
    let representation: Representation = Default::default();
    assert_eq!(representation.id, "");
    assert_eq!(representation.bandwidth, 0);
    assert!(representation.segment_template.is_none());
}

#[test]
fn bare_identifiers_are_written_in_decimal() {
    assert_eq!(
        expand("$RepresentationID$_$Bandwidth$_$Number$_$Time$", "a", 460000, 7, 30879888),
        Some("a_460000_7_30879888".to_owned())
    );
    assert_eq!(expand("$Number$", "a", 0, u64::MAX, 0), Some("18446744073709551615".to_owned()));
    assert_eq!(expand("$Time$", "a", 0, 0, 0), Some("0".to_owned()));
}

#[test]
fn expansion_is_repeatable() {
    let first = expand("$RepresentationID$/$Number%04d$-$Time$", "v1", 9, 12, 3400);
    let second = expand("$RepresentationID$/$Number%04d$-$Time$", "v1", 9, 12, 3400);
    assert_eq!(first, Some("v1/0012-3400".to_owned()));
    assert_eq!(first, second);
}

#[test]
fn every_occurrence_of_a_token_is_replaced() {
    assert_eq!(expand("$Number$/$Number$", "a", 0, 5, 0), Some("5/5".to_owned()));
    assert_eq!(
        expand("$RepresentationID$-$RepresentationID$", "xy", 0, 5, 0),
        Some("xy-xy".to_owned())
    );
}

#[test]
fn other_tokens_and_text_stay() {
    assert_eq!(expand("plain.mp4", "a", 1, 2, 3), Some("plain.mp4".to_owned()));
    assert_eq!(expand("$Other$/$Number$", "a", 1, 2, 3), Some("$Other$/2".to_owned()));
    assert_eq!(expand("", "a", 1, 2, 3), Some("".to_owned()));
}

#[test]
fn unterminated_token_stays() {
    assert_eq!(expand("seg_$Number", "a", 1, 2, 3), Some("seg_$Number".to_owned()));
    assert_eq!(expand("$Number$_$Time", "a", 1, 2, 3), Some("2_$Time".to_owned()));
}

#[test]
fn hexadecimal_and_width_formats() {
    assert_eq!(expand("$Number%x$", "a", 1, 255, 3), Some("ff".to_owned()));
    assert_eq!(expand("$Number%5d$", "a", 1, 42, 3), Some("   42".to_owned()));
    assert_eq!(expand("$Number%-5d$|", "a", 1, 42, 3), Some("42   |".to_owned()));
}

#[test]
fn malformed_format_fails_the_expansion() {
    assert_eq!(expand("$Number%06$", "a", 1, 2, 3), None);
    assert_eq!(expand("$Number%s$", "a", 1, 2, 3), None);
    assert_eq!(expand("$Time%d%d$", "a", 1, 2, 3), None);
    assert_eq!(expand("$Bandwidth%y$", "a", 1, 2, 3), None);
}

#[test]
fn overlong_width_fails_the_expansion() {
    assert_eq!(expand("$Number%01234567890d$", "a", 1, 2, 3), None);
    assert_eq!(expand("$Number%012d$", "a", 1, 2, 3), Some("000000000002".to_owned()));
}

#[test]
fn digit_runs_are_measured() {
    assert!(has_short_digit_runs(&chars("")));
    assert!(has_short_digit_runs(&chars("%09d")));
    assert!(has_short_digit_runs(&chars("123456789")));
    assert!(has_short_digit_runs(&chars("123456789a123456789")));
    assert!(!has_short_digit_runs(&chars("1234567890")));
    assert!(!has_short_digit_runs(&chars("%d 00000000001 x")));
}

#[test]
fn format_token_uses_the_format_behind_the_identifier() {
    assert_eq!(format_token(&chars("Number"), &chars("Number"), 17), Some(chars("17")));
    assert_eq!(format_token(&chars("Number%03d"), &chars("Number"), 17), Some(chars("017")));
    assert_eq!(format_token(&chars("Number%o"), &chars("Number"), 8), Some(chars("10")));
    assert_eq!(format_token(&chars("Numbers"), &chars("Number"), 17), None);
    assert_eq!(format_token(&chars("Number%"), &chars("Number"), 17), None);
}

#[test]
fn substitute_replaces_the_delimited_token() {
    assert_eq!(
        substitute(&chars("a$Time%05d$b$Time$"), &chars("Time%05d"), &chars("00123")),
        chars("a00123b$Time$")
    );
    assert_eq!(substitute(&chars("abc"), &chars("Time"), &chars("1")), chars("abc"));
    assert_eq!(substitute(&chars("$$"), &chars(""), &chars("x")), chars("x"));
}

#[test]
fn substitute_number_scans_one_identifier() {
    assert_eq!(
        substitute_number(&chars("$Number$-$Time$"), &chars("Time"), 9),
        Some(chars("$Number$-9"))
    );
    assert_eq!(substitute_number(&chars("$Time%q$"), &chars("Time"), 9), None);
}

#[test]
fn replace_with_printf_format_on_strings() {
    assert_eq!(
        replace_with_printf_format("v_$Number%03d$.mp4".to_owned(), "Number", 4),
        Some("v_004.mp4".to_owned())
    );
    assert_eq!(
        replace_with_printf_format("v_$Number$.mp4".to_owned(), "Time", 4),
        Some("v_$Number$.mp4".to_owned())
    );
    assert_eq!(replace_with_printf_format("$Number%$".to_owned(), "Number", 4), None);
}

#[test]
fn replace_takes_matches_from_the_left() {
    assert_eq!(replace(&chars("aaa"), &chars("aa"), &chars("b")), chars("ba"));
    assert_eq!(replace(&chars("abcabc"), &chars("bc"), &chars("")), chars("aa"));
    assert_eq!(replace(&chars("abc"), &chars(""), &chars("x")), chars("abc"));
    assert_eq!(replace(&chars("ab"), &chars("abc"), &chars("x")), chars("ab"));
    assert_eq!(replace(&chars("xyz"), &chars("xyz"), &chars("12345")), chars("12345"));
}

#[test]
fn prefixes_and_matches() {
    assert!(starts_with(&chars("Number%d"), &chars("Number")));
    assert!(starts_with(&chars("Number"), &chars("")));
    assert!(!starts_with(&chars("Num"), &chars("Number")));
    assert!(matches_at(&chars("abcd"), 2, &chars("cd")));
    assert!(!matches_at(&chars("abcd"), 3, &chars("cd")));
    assert!(matches_at(&chars("abcd"), 4, &chars("")));
}

#[test]
fn strings_and_characters_convert_both_ways() {
    assert_eq!(to_chars("a$é1"), vec!['a', '$', 'é', '1']);
    assert_eq!(to_string(&vec!['a', '$', 'é', '1']), "a$é1");
    assert_eq!(to_string(&Vec::new()), "");
    assert_eq!(to_chars(""), Vec::<char>::new());
}
