use litime::substitution::substitute;

#[test]
fn each_marker_becomes_the_code_of_its_role() {
    assert_eq!(substitute("\x00", "red", "green", "blue"), "\u{1b}[0m");
    assert_eq!(substitute("\x01", "red", "green", "blue"), "\u{1b}[34m");
    assert_eq!(substitute("\x02", "red", "green", "blue"), "\u{1b}[31m");
    assert_eq!(substitute("\x03", "red", "green", "blue"), "\u{1b}[32m");
}

#[test]
fn every_occurrence_of_a_marker_is_replaced() {
    assert_eq!(
        substitute("\x02a\x02b\x02\x02c\x00\x00", "cyan", "red", "white"),
        "\u{1b}[36ma\u{1b}[36mb\u{1b}[36m\u{1b}[36mc\u{1b}[0m\u{1b}[0m"
    );
}

#[test]
fn other_characters_are_kept_in_their_order() {
    assert_eq!(
        substitute("a \u{2013} b\n\t\x04\x1b[1mz", "red", "green", "blue"),
        "a \u{2013} b\n\t\x04\x1b[1mz"
    );
    assert_eq!(substitute("", "red", "green", "blue"), "");
}

#[test]
fn unknown_colour_names_degrade_to_the_reset() {
    assert_eq!(
        substitute("\x02m\x03t\x01a\x00", "purple", "", "RED"),
        "\u{1b}[0mm\u{1b}[0mt\u{1b}[0ma\u{1b}[0m"
    );
}

#[test]
fn substituting_twice_changes_nothing_more() {
    let once = substitute(
        "\n  \" \x02foo \x03bar\x02 baz\x00\n\n        \x01author \u{2013} title\x00\n",
        "bright-black",
        "red",
        "white",
    );
    let twice = substitute(&once, "bright-black", "red", "white");
    assert_eq!(twice, once);
    let with_other_colours = substitute(&once, "green", "blue", "yellow");
    assert_eq!(with_other_colours, once);
}

#[test]
fn substituted_text_holds_no_marker() {
    let out = substitute("\x00\x01\x02\x03 text \x03\x02\x01\x00", "red", "blue", "green");
    assert!(!out.contains(|c| c == '\x00' || c == '\x01' || c == '\x02' || c == '\x03'));
}
