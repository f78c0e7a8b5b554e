use litime::colour::get_colour;
use litime::formatter::{render, FOOTER_INDENT, INITIAL_INDENT, SUBSEQUENT_INDENT};
use litime::minute::Minute;

const BRIGHT_BLACK: &str = "\u{1b}[90m";
const RED: &str = "\u{1b}[31m";
const WHITE: &str = "\u{1b}[37m";
const RESET: &str = "\u{1b}[0m";

fn lines(texts: &[&str]) -> Vec<String> {
    texts.iter().map(|text| String::from(*text)).collect()
}

/// The text that a terminal shows: `coloured` without its SGR sequences.
fn shown(coloured: &str) -> String {
    let mut out = String::new();
    let mut rest = coloured.chars().peekable();
    while let Some(c) = rest.next() {
        if c == '\u{1b}' && rest.peek() == Some(&'[') {
            rest.next();
            while let Some(d) = rest.next() {
                if d == 'm' {
                    break;
                }
            }
        } else {
            out.push(c);
        }
    }
    out
}

/// The words of a block of lines, read as running text: indentation and
/// line breaks count as one space.
fn running_text(block: &str) -> String {
    let mut out = String::new();
    for line in block.lines() {
        let words = line.trim();
        if words.is_empty() {
            continue;
        }
        if !out.is_empty() {
            out.push(' ');
        }
        out.push_str(words);
    }
    out
}

#[test]
fn indents_are_four_four_and_eight_columns() {
    assert_eq!(INITIAL_INDENT, "  \" ");
    assert_eq!(SUBSEQUENT_INDENT, "    ");
    assert_eq!(FOOTER_INDENT, "        ");
}

#[test]
fn render_lays_out_the_block_and_colours_it() {
    let out = render(
        &lines(&["  \" \x02foo \x03bar", "    baz\x02 qux\x00"]),
        &lines(&["        \x01author \u{2013}", "        title\x00"]),
        "bright-black",
        "red",
        "white",
    );
    let expected = format!(
        "\n  \" {}foo {}bar\n    baz{} qux{}\n\n        {}author \u{2013}\n        title{}\n",
        BRIGHT_BLACK, RED, BRIGHT_BLACK, RESET, WHITE, RESET
    );
    assert_eq!(out, expected);
}

#[test]
fn render_of_single_lines_has_no_break_inside_a_part() {
    let out = render(&lines(&["q"]), &lines(&["f"]), "red", "red", "red");
    assert_eq!(out, "\nq\n\nf\n");
}

#[test]
fn render_of_no_lines_is_the_bare_frame() {
    let out = render(&lines(&[]), &lines(&[]), "red", "red", "red");
    assert_eq!(out, "\n\n\n\n");
    let out = render(&lines(&["a", "b", "c"]), &lines(&[]), "red", "red", "red");
    assert_eq!(out, "\na\nb\nc\n\n\n");
    let out = render(&lines(&[]), &lines(&["a", "", "c"]), "red", "red", "red");
    assert_eq!(out, "\n\n\na\n\nc\n");
}

#[test]
fn render_replaces_markers_wherever_they_stand() {
    let out = render(
        &lines(&["\x01\x00", "\x03"]),
        &lines(&["\x02x\x02"]),
        "green",
        "blue",
        "yellow",
    );
    assert_eq!(
        out,
        "\n\u{1b}[33m\u{1b}[0m\n\u{1b}[34m\n\n\u{1b}[32mx\u{1b}[32m\n"
    );
}

#[test]
fn a_word_wider_than_the_line_is_left_whole_on_a_line_of_its_own() {
    let minute = Minute {
        start: "see ",
        time: "Supercalifragilisticexpialidocious",
        end: " now",
        author: "a",
        title: "b",
    };
    let formatted = minute.formatted(20, "bright-black", "red", "white");
    let expected = [
        format!("\n  \" {}see", BRIGHT_BLACK),
        format!("    {}Supercalifragilisticexpialidocious{}", RED, BRIGHT_BLACK),
        format!("    now{}\n", RESET),
        format!("        {}a \u{2013} b{}\n", WHITE, RESET),
    ]
    .join("\n");
    assert_eq!(formatted, expected);
}

#[test]
fn a_first_word_wider_than_the_line_stays_on_the_first_line() {
    let minute = Minute {
        start: "Supercalifragilisticexpialidocious ",
        time: "noon",
        end: "",
        author: "Pamela Lyndon Travers",
        title: "b",
    };
    let formatted = minute.formatted(12, "bright-black", "red", "white");
    let expected = [
        format!("\n  \" {}Supercalifragilisticexpialidocious", BRIGHT_BLACK),
        format!("    {}noon{}{}\n", RED, BRIGHT_BLACK, RESET),
        format!("        {}Pamela", WHITE),
        String::from("        Lyndon"),
        String::from("        Travers"),
        String::from("        \u{2013}"),
        format!("        b{}\n", RESET),
    ]
    .join("\n");
    assert_eq!(formatted, expected);
}

#[test]
fn a_width_below_the_indent_puts_each_word_on_a_line() {
    let minute = Minute {
        start: "foo ",
        time: "bar",
        end: " baz",
        author: "author",
        title: "title",
    };
    let expected = [
        format!("\n  \" {}foo", BRIGHT_BLACK),
        format!("    {}bar{}", RED, BRIGHT_BLACK),
        format!("    baz{}\n", RESET),
        format!("        {}author", WHITE),
        String::from("        \u{2013}"),
        format!("        title{}\n", RESET),
    ]
    .join("\n");
    assert_eq!(minute.formatted(2, "bright-black", "red", "white"), expected);
    assert_eq!(minute.formatted(0, "bright-black", "red", "white"), expected);
    assert_eq!(minute.formatted(1, "bright-black", "red", "white"), expected);
}

#[test]
fn an_empty_record_shows_the_quote_mark_and_the_dash() {
    let minute = Minute {
        start: "",
        time: "",
        end: "",
        author: "",
        title: "",
    };
    let formatted = minute.formatted(50, "bright-black", "red", "white");
    let expected = format!(
        "\n  \" {}{}{}{}\n\n        {} \u{2013} {}\n",
        BRIGHT_BLACK, RED, BRIGHT_BLACK, RESET, WHITE, RESET
    );
    assert_eq!(formatted, expected);
}

#[test]
fn unknown_colours_leave_the_layout_and_reset_everywhere() {
    let minute = Minute {
        start: "foo ",
        time: "bar",
        end: " baz",
        author: "author",
        title: "title",
    };
    let formatted = minute.formatted(50, "mauve", "", "reset");
    let expected = format!(
        "\n  \" {r}foo {r}bar{r} baz{r}\n\n        {r}author \u{2013} title{r}\n",
        r = RESET
    );
    assert_eq!(formatted, expected);
}

#[test]
fn markers_count_as_one_column_each_when_wrapping() {
    // Shown, the line is fourteen columns wide. With its four markers it
    // counts as eighteen, so it is broken at a width of seventeen.
    let minute = Minute {
        start: "seven12 ",
        time: "ab",
        end: "",
        author: "x",
        title: "y",
    };
    let wide = minute.formatted(18, "bright-black", "red", "white");
    assert_eq!(
        wide,
        format!(
            "\n  \" {}seven12 {}ab{}{}\n\n        {}x \u{2013} y{}\n",
            BRIGHT_BLACK, RED, BRIGHT_BLACK, RESET, WHITE, RESET
        )
    );
    let narrow = minute.formatted(17, "bright-black", "red", "white");
    assert_eq!(
        narrow,
        format!(
            "\n  \" {}seven12\n    {}ab{}{}\n\n        {}x \u{2013} y{}\n",
            BRIGHT_BLACK, RED, BRIGHT_BLACK, RESET, WHITE, RESET
        )
    );
}

#[test]
fn no_line_is_wider_than_asked_when_every_word_fits() {
    let minute = Minute {
        start: "It was the best of times, it was the worst of times, it was ",
        time: "the age of wisdom",
        end: ", it was the age of foolishness, it was the epoch of belief.",
        author: "Charles Dickens",
        title: "A Tale of Two Cities",
    };
    for width in 20..60 {
        let formatted = minute.formatted(width, "bright-black", "red", "white");
        for line in shown(&formatted).lines() {
            assert!(line.chars().count() <= width, "{:?} at {}", line, width);
        }
    }
}

#[test]
fn the_shown_text_reads_as_the_record() {
    let minute = Minute {
        start: "And the first stop had been at ",
        time: "1.16pm",
        end: " which was 17 minutes later.",
        author: "Mark Haddon",
        title: "The Curious Incident of the Dog in the Night-Time",
    };
    for width in [1, 5, 12, 30, 50, 80, 200] {
        let formatted = minute.formatted(width, "bright-black", "red", "white");
        let shown = shown(&formatted);
        let (quote, footer) = shown.split_once("\n\n").unwrap();
        assert_eq!(
            running_text(quote),
            "\" And the first stop had been at 1.16pm which was 17 minutes later."
        );
        assert_eq!(
            running_text(footer),
            "Mark Haddon \u{2013} The Curious Incident of the Dog in the Night-Time"
        );
    }
}

#[test]
fn formatted_text_holds_no_marker_and_is_left_alone_by_a_second_pass() {
    let minute = Minute {
        start: "foo ",
        time: "bar",
        end: " baz",
        author: "author",
        title: "title",
    };
    let formatted = minute.formatted(50, "bright-black", "red", "white");
    assert!(!formatted.contains(|c| c == '\x00' || c == '\x01' || c == '\x02' || c == '\x03'));
    assert_eq!(
        litime::substitution::substitute(&formatted, "bright-black", "red", "white"),
        formatted
    );
}

#[test]
fn formatting_is_repeatable() {
    let minute = Minute {
        start: "foo ",
        time: "bar",
        end: " baz",
        author: "author",
        title: "title",
    };
    assert_eq!(
        minute.formatted(10, "blue", "cyan", "green"),
        minute.formatted(10, "blue", "cyan", "green")
    );
    assert_eq!(get_colour("blue"), "\u{1b}[34m");
}

#[test]
fn a_hyphenated_word_wider_than_the_line_is_left_whole() {
    let minute = Minute {
        start: "",
        time: "twenty-five",
        end: "",
        author: "Night-Time",
        title: "x",
    };
    let formatted = minute.formatted(5, "bright-black", "red", "white");
    let expected = [
        format!("\n  \" {}{}twenty-five{}{}\n", BRIGHT_BLACK, RED, BRIGHT_BLACK, RESET),
        format!("        {}Night-Time", WHITE),
        String::from("        \u{2013}"),
        format!("        x{}\n", RESET),
    ]
    .join("\n");
    assert_eq!(formatted, expected);
}

#[test]
fn a_line_never_ends_inside_a_hyphenated_word() {
    let minute = Minute {
        start: "At half past she said it would be ",
        time: "twenty-five to twelve",
        end: " by the mother-of-pearl clock on the chimney-piece.",
        author: "Anne-Marie Saint-Exup\u{e9}ry",
        title: "The well-to-do ne'er-do-well",
    };
    let words = [
        "\"", "At", "half", "past", "she", "said", "it", "would", "be", "twenty-five", "to",
        "twelve", "by", "the", "mother-of-pearl", "clock", "on", "the", "chimney-piece.",
        "Anne-Marie", "Saint-Exup\u{e9}ry", "\u{2013}", "The", "well-to-do", "ne'er-do-well",
    ];
    for width in 0..70 {
        let formatted = minute.formatted(width, "bright-black", "red", "white");
        let shown = shown(&formatted);
        let found: Vec<&str> = shown.split_whitespace().collect();
        assert_eq!(found, words, "at width {}", width);
    }
}
