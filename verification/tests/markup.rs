use litime::markup::{
    build_footer_markup, build_quote_markup, AUTHOR_MARK, MAIN_MARK, RESET_MARK, TIME_MARK,
};

#[test]
fn markers_are_four_different_control_characters() {
    assert_eq!(RESET_MARK, '\x00');
    assert_eq!(AUTHOR_MARK, '\x01');
    assert_eq!(MAIN_MARK, '\x02');
    assert_eq!(TIME_MARK, '\x03');
}

#[test]
fn quote_markup_puts_a_marker_before_each_segment_and_one_at_the_end() {
    assert_eq!(
        build_quote_markup("foo ", "bar", " baz"),
        "\x02foo \x03bar\x02 baz\x00"
    );
}

#[test]
fn quote_markup_is_four_characters_longer_than_its_segments() {
    let markup = build_quote_markup("It was ", "ten past two", " already.");
    assert_eq!(markup.chars().count(), 7 + 12 + 9 + 4);
    let markup = build_quote_markup("caf\u{e9} ", "\u{2013}", "");
    assert_eq!(markup.chars().count(), 5 + 1 + 0 + 4);
}

#[test]
fn quote_markup_of_empty_segments_is_the_four_markers() {
    assert_eq!(build_quote_markup("", "", ""), "\x02\x03\x02\x00");
    assert_eq!(build_quote_markup("", "bar", " baz"), "\x02\x03bar\x02 baz\x00");
    assert_eq!(build_quote_markup("foo ", "bar", ""), "\x02foo \x03bar\x02\x00");
}

#[test]
fn quote_markup_keeps_the_text_as_it_is() {
    assert_eq!(
        build_quote_markup("  Two  spaces ", "NOON\n", "\tTab "),
        "\x02  Two  spaces \x03NOON\n\x02\tTab \x00"
    );
}

#[test]
fn footer_markup_joins_author_and_title_with_an_en_dash() {
    assert_eq!(
        build_footer_markup("author", "title"),
        "\x01author \u{2013} title\x00"
    );
}

#[test]
fn footer_markup_is_five_characters_longer_than_author_and_title() {
    let markup = build_footer_markup("Mark Haddon", "The Curious Incident");
    assert_eq!(markup.chars().count(), 11 + 20 + 5);
}

#[test]
fn footer_markup_of_empty_author_and_title() {
    assert_eq!(build_footer_markup("", ""), "\x01 \u{2013} \x00");
}
