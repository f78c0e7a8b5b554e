//! The record that is rendered: a quotation in three segments and the work
//! it is taken from.

use vstd::prelude::*;

verus! {

/// A quotation for one minute of the day.
///
/// `start`, `time` and `end` read as one sentence when put together in that
/// order; `time` is the phrase that names the time. Any of them may be
/// empty.
#[derive(Clone, Copy, Debug)]
pub struct Minute<'a> {
    pub start: &'a str,
    pub time: &'a str,
    pub end: &'a str,
    pub author: &'a str,
    pub title: &'a str,
}

/// The characters of a [`Minute`].
pub ghost struct MinuteText {
    pub start: Seq<char>,
    pub time: Seq<char>,
    pub end: Seq<char>,
    pub author: Seq<char>,
    pub title: Seq<char>,
}

impl<'a> View for Minute<'a> {
    type V = MinuteText;

    open spec fn view(&self) -> MinuteText {
        MinuteText {
            start: self.start@,
            time: self.time@,
            end: self.end@,
            author: self.author@,
            title: self.title@,
        }
    }
}

} // verus!
