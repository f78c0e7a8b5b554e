use litime::timestamp::{is_timestamp, timestamp_of};
use regex::Regex;

const MESSAGE: &str = "the value must be a valid 24-hour timestamp in the format HH:MM";

#[test]
fn times_of_day_are_accepted() {
    assert_eq!(is_timestamp(String::from("00:00")), Ok(()));
    assert_eq!(is_timestamp(String::from("07:16")), Ok(()));
    assert_eq!(is_timestamp(String::from("09:59")), Ok(()));
    assert_eq!(is_timestamp(String::from("10:00")), Ok(()));
    assert_eq!(is_timestamp(String::from("19:59")), Ok(()));
    assert_eq!(is_timestamp(String::from("20:00")), Ok(()));
    assert_eq!(is_timestamp(String::from("23:59")), Ok(()));
}

#[test]
fn other_texts_are_turned_down_with_the_message() {
    for text in [
        "", "24:00", "23:60", "7:16", "07:6", "07-16", "0716", "07:16 ", " 07:16", "07:16\n",
        "007:16", "07:160", "ab:cd", "2a:00", "29:00", "30:00", "12:3x", "12:\u{662}3",
        "\u{661}2:30", "12\u{ff1a}30", "noon",
    ] {
        assert_eq!(is_timestamp(String::from(text)), Err(String::from(MESSAGE)), "{:?}", text);
    }
}

#[test]
fn every_minute_of_the_day_has_an_accepted_label() {
    for hour in 0..24 {
        for minute in 0..60 {
            let label = timestamp_of(hour, minute);
            assert_eq!(label, format!("{:02}:{:02}", hour, minute));
            assert_eq!(is_timestamp(label), Ok(()));
        }
    }
}

#[test]
fn labels_are_padded_to_two_digits() {
    assert_eq!(timestamp_of(0, 0), "00:00");
    assert_eq!(timestamp_of(7, 16), "07:16");
    assert_eq!(timestamp_of(13, 5), "13:05");
    assert_eq!(timestamp_of(23, 59), "23:59");
}

#[test]
fn labels_of_larger_numbers_are_written_out_in_full() {
    assert_eq!(timestamp_of(24, 60), "24:60");
    assert_eq!(timestamp_of(100, 7), "100:07");
    assert_eq!(timestamp_of(u32::MAX, 1000), "4294967295:1000");
    assert_eq!(
        is_timestamp(timestamp_of(24, 0)),
        Err(String::from(MESSAGE))
    );
}

#[test]
fn acceptance_agrees_with_the_pattern_on_all_short_texts() {
    let pattern = Regex::new(r"^([01][0-9]|2[0-3]):[0-5][0-9]$").unwrap();
    let alphabet = ['0', '1', '2', '3', '4', '5', '6', '9', ':', ' ', '\n', 'a'];
    let mut texts: Vec<String> = vec![String::new()];
    let mut last: Vec<String> = vec![String::new()];
    for _ in 0..5 {
        let mut next = Vec::new();
        for text in &last {
            for c in alphabet {
                let mut longer = text.clone();
                longer.push(c);
                next.push(longer);
            }
        }
        texts.extend(next.iter().cloned());
        last = next;
    }
    let mut accepted = 0;
    for text in texts {
        let expected = pattern.is_match(&text);
        assert_eq!(is_timestamp(text.clone()).is_ok(), expected, "{:?}", text);
        if expected {
            accepted += 1;
        }
    }
    assert_eq!(accepted, (8 + 8 + 4) * 6 * 8);
}

#[test]
fn acceptance_agrees_with_the_pattern_on_longer_texts() {
    let pattern = Regex::new(r"^([01][0-9]|2[0-3]):[0-5][0-9]$").unwrap();
    for text in ["12:345", "12:34\n", "\n12:34", "12:34:56", "x12:34", "12:34x", "١٢:٣٤"] {
        assert_eq!(
            is_timestamp(String::from(text)).is_ok(),
            pattern.is_match(text),
            "{:?}",
            text
        );
    }
}
