use hn_tracker::utils::strip_html;

#[test]
fn it_strips_html() {
    let snippet = "<p>snippet</p>".to_string();
    assert_eq!(strip_html(&snippet), "snippet");
}

#[test]
fn it_strips_html_with_multiple_tags() {
    let snippet = "<p><a>snippet</a></p>".to_string();
    assert_eq!(strip_html(&snippet), "snippet");
}

#[test]
fn it_strips_html_with_multiple_tags_and_attributes() {
    let snippet = "<p class=\"foo\"><a href=\"https://example.com\">snippet</a></p>".to_string();
    assert_eq!(strip_html(&snippet), "snippet");
}

#[test]
fn it_keeps_greater_than_characters_outside_tags() {
    let snippet = "1 > 2".to_string();
    assert_eq!(strip_html(&snippet), "1 > 2");
}

#[test]
fn it_strips_nested_links_with_attributes() {
    assert_eq!(strip_html("<p class=\"x\"><a href=\"y\">snippet</a></p>"), "snippet");
}

#[test]
fn it_leaves_the_empty_string_empty() {
    assert_eq!(strip_html(""), "");
}

#[test]
fn it_strips_tags_that_span_line_breaks() {
    assert_eq!(strip_html("one <a\nhref=\"x\"\n>two</a>\nthree"), "one two\nthree");
}

#[test]
fn it_drops_everything_after_an_unclosed_tag() {
    assert_eq!(strip_html("kept <b unclosed"), "kept ");
}

#[test]
fn it_treats_a_second_open_inside_a_tag_as_part_of_the_tag() {
    assert_eq!(strip_html("<<a>b>c"), "b>c");
}

#[test]
fn it_keeps_text_between_tags() {
    assert_eq!(strip_html("a<i>b</i>c<br/>d"), "abcd");
}

#[test]
fn it_keeps_characters_beyond_ascii() {
    assert_eq!(strip_html("<p>caf\u{e9} \u{2713} \u{1f600}</p>"), "caf\u{e9} \u{2713} \u{1f600}");
}

#[test]
fn stripping_twice_is_stripping_once() {
    let inputs = [
        "<p>snippet</p>",
        "1 > 2",
        "<<a>b>c",
        "a < b > c",
        "x<y",
        ">>><<<",
        "plain",
        "",
    ];
    for input in inputs {
        let once = strip_html(input);
        assert_eq!(strip_html(&once), once);
        assert!(!once.contains('<'));
    }
}
