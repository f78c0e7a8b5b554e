use litime::colour::get_colour;

const NAMES: [&str; 16] = [
    "black",
    "red",
    "green",
    "yellow",
    "blue",
    "magenta",
    "cyan",
    "white",
    "bright-black",
    "bright-red",
    "bright-green",
    "bright-yellow",
    "bright-blue",
    "bright-magenta",
    "bright-cyan",
    "bright-white",
];

#[test]
fn standard_colours_resolve_to_30_through_37() {
    assert_eq!(get_colour("black"), "\u{1b}[30m");
    assert_eq!(get_colour("red"), "\u{1b}[31m");
    assert_eq!(get_colour("green"), "\u{1b}[32m");
    assert_eq!(get_colour("yellow"), "\u{1b}[33m");
    assert_eq!(get_colour("blue"), "\u{1b}[34m");
    assert_eq!(get_colour("magenta"), "\u{1b}[35m");
    assert_eq!(get_colour("cyan"), "\u{1b}[36m");
    assert_eq!(get_colour("white"), "\u{1b}[37m");
}

#[test]
fn bright_colours_resolve_to_90_through_97() {
    assert_eq!(get_colour("bright-black"), "\u{1b}[90m");
    assert_eq!(get_colour("bright-red"), "\u{1b}[91m");
    assert_eq!(get_colour("bright-green"), "\u{1b}[92m");
    assert_eq!(get_colour("bright-yellow"), "\u{1b}[93m");
    assert_eq!(get_colour("bright-blue"), "\u{1b}[94m");
    assert_eq!(get_colour("bright-magenta"), "\u{1b}[95m");
    assert_eq!(get_colour("bright-cyan"), "\u{1b}[96m");
    assert_eq!(get_colour("bright-white"), "\u{1b}[97m");
}

#[test]
fn known_colours_are_pairwise_distinct_and_never_the_reset() {
    let reset = get_colour("reset");
    for (i, a) in NAMES.iter().enumerate() {
        assert_ne!(get_colour(a), reset, "{}", a);
        for b in NAMES.iter().skip(i + 1) {
            assert_ne!(get_colour(a), get_colour(b), "{} and {}", a, b);
        }
    }
}

#[test]
fn every_other_name_resolves_to_the_reset() {
    assert_eq!(get_colour("reset"), "\u{1b}[0m");
    assert_eq!(get_colour(""), "\u{1b}[0m");
    assert_eq!(get_colour("Red"), "\u{1b}[0m");
    assert_eq!(get_colour("red "), "\u{1b}[0m");
    assert_eq!(get_colour(" red"), "\u{1b}[0m");
    assert_eq!(get_colour("bright_black"), "\u{1b}[0m");
    assert_eq!(get_colour("bright-"), "\u{1b}[0m");
    assert_eq!(get_colour("bright"), "\u{1b}[0m");
    assert_eq!(get_colour("bright-bright-red"), "\u{1b}[0m");
    assert_eq!(get_colour("grey"), "\u{1b}[0m");
    assert_eq!(get_colour("blac"), "\u{1b}[0m");
    assert_eq!(get_colour("blackk"), "\u{1b}[0m");
    assert_eq!(get_colour("r\u{e9}d"), "\u{1b}[0m");
}

#[test]
fn resolving_is_repeatable() {
    for name in NAMES.iter() {
        assert_eq!(get_colour(name), get_colour(name));
    }
    assert_eq!(get_colour("no such colour"), get_colour("no such colour"));
}
