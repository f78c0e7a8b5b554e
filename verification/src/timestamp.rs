//! Timestamps: the `HH:MM` texts by which a minute of the day is asked for.

use crate::text::{decimal, digit_char, is_digit, push_decimal};
use vstd::prelude::*;
use vstd::string::StrSliceExecFns;

verus! {

/// Whether `text` is a time of day on the 24-hour clock, written as two
/// digits for the hour, a colon and two digits for the minute: `00:00` to
/// `23:59`, and nothing before or after it.
pub open spec fn is_timestamp_text(text: Seq<char>) -> bool {
    &&& text.len() == 5
    &&& {
        ||| (text[0] == '0' || text[0] == '1') && is_digit(text[1])
        ||| text[0] == '2' && '0' <= text[1] <= '3'
    }
    &&& text[2] == ':'
    &&& '0' <= text[3] <= '5'
    &&& is_digit(text[4])
}

/// `n` in base ten, with a zero in front where it has one digit only.
pub open spec fn two_digits(n: nat) -> Seq<char> {
    if n < 10 {
        seq!['0'] + decimal(n)
    } else {
        decimal(n)
    }
}

/// The label of the minute `minute` of the hour `hour`.
pub open spec fn clock_text(hour: nat, minute: nat) -> Seq<char> {
    two_digits(hour) + seq![':'] + two_digits(minute)
}

/// The text of a number below one hundred, written with two digits.
pub proof fn lemma_two_digits(n: nat)
    requires
        n < 100,
    ensures
        two_digits(n) =~= seq![digit_char(n / 10), digit_char(n % 10)],
{
    if n >= 10 {
        reveal_with_fuel(decimal, 2);
    }
}

/// The timestamps are the labels of the minutes of a day: a text is a
/// timestamp if and only if it is the label of an hour below 24 and a minute
/// below 60.
pub proof fn lemma_timestamps_are_clock_labels(text: Seq<char>)
    ensures
        is_timestamp_text(text) <==> exists|hour: nat, minute: nat|
            hour < 24 && minute < 60 && text == #[trigger] clock_text(hour, minute),
{
    if is_timestamp_text(text) {
        let hour = ((text[0] as u8 - 48) * 10 + (text[1] as u8 - 48)) as nat;
        let minute = ((text[3] as u8 - 48) * 10 + (text[4] as u8 - 48)) as nat;
        lemma_two_digits(hour);
        lemma_two_digits(minute);
        assert(text =~= clock_text(hour, minute));
    }
    if exists|hour: nat, minute: nat|
        hour < 24 && minute < 60 && text == #[trigger] clock_text(hour, minute) {
        let (hour, minute) = choose|hour: nat, minute: nat|
            hour < 24 && minute < 60 && text == #[trigger] clock_text(hour, minute);
        lemma_two_digits(hour);
        lemma_two_digits(minute);
    }
}

/// The message with which a text that is no timestamp is turned down.
pub open spec fn rejection() -> Seq<char> {
    "the value must be a valid 24-hour timestamp in the format HH:MM"@
}

/// Accepts `val` if it is a timestamp, and turns it down with a message for
/// the user if it is not.
pub fn is_timestamp(val: String) -> (outcome: Result<(), String>)
    ensures
        outcome is Ok <==> is_timestamp_text(val@),
        outcome is Err ==> outcome->Err_0@ == rejection(),
{
    let text = val.as_str();
    let mut valid = false;
    if text.unicode_len() == 5 {
        let hour_tens = text.get_char(0);
        let hour_units = text.get_char(1);
        let colon = text.get_char(2);
        let minute_tens = text.get_char(3);
        let minute_units = text.get_char(4);
        let hour_fits = if hour_tens == '0' || hour_tens == '1' {
            '0' <= hour_units && hour_units <= '9'
        } else {
            hour_tens == '2' && '0' <= hour_units && hour_units <= '3'
        };
        valid = hour_fits && colon == ':' && '0' <= minute_tens && minute_tens <= '5' && '0'
            <= minute_units && minute_units <= '9';
    }
    if valid {
        Ok(())
    } else {
        Err(String::from_str("the value must be a valid 24-hour timestamp in the format HH:MM"))
    }
}

/// Writes the minute `minute` of the hour `hour` as a label: both numbers in
/// base ten, each with a zero in front where it has one digit only, and a
/// colon between them. For a time of day the label is a timestamp.
pub fn timestamp_of(hour: u32, minute: u32) -> (label: String)
    ensures
        label@ == clock_text(hour as nat, minute as nat),
        hour < 24 && minute < 60 ==> is_timestamp_text(label@),
{
    let mut label = String::new();
    if hour < 10 {
        label.push('0');
    }
    push_decimal(&mut label, hour);
    label.push(':');
    if minute < 10 {
        label.push('0');
    }
    push_decimal(&mut label, minute);
    proof {
        assert(label@ =~= clock_text(hour as nat, minute as nat));
        if hour < 24 && minute < 60 {
            lemma_two_digits(hour as nat);
            lemma_two_digits(minute as nat);
        }
    }
    label
}

} // verus!
