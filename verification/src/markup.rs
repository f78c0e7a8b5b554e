//! Markup: the text of a quotation or of its attribution with one reserved
//! control character at each place where the colour changes.
//!
//! The markers travel through word wrapping as ordinary characters and are
//! exchanged for escape sequences afterwards. Text that is marked up is
//! expected not to hold a marker of its own.

use vstd::prelude::*;

verus! {

/// Stands where all colouring ends.
pub const RESET_MARK: char = '\u{0}';

/// Stands where the colour of the attribution begins.
pub const AUTHOR_MARK: char = '\u{1}';

/// Stands where the main colour of the quotation begins.
pub const MAIN_MARK: char = '\u{2}';

/// Stands where the colour of the time phrase begins.
pub const TIME_MARK: char = '\u{3}';

/// Whether `c` is one of the four markers.
pub open spec fn is_marker(c: char) -> bool {
    c == RESET_MARK || c == AUTHOR_MARK || c == MAIN_MARK || c == TIME_MARK
}

/// Whether `text` holds no marker.
pub open spec fn marker_free(text: Seq<char>) -> bool {
    forall|i: int| 0 <= i < text.len() ==> !is_marker(#[trigger] text[i])
}

/// What stands between author and title: an en dash between two spaces.
pub open spec fn attribution_separator() -> Seq<char> {
    seq![' ', '\u{2013}', ' ']
}

/// The marked-up quotation: main colour, `start`, time colour, `time`, main
/// colour again, `end`, reset.
pub open spec fn quote_markup(start: Seq<char>, time: Seq<char>, end: Seq<char>) -> Seq<char> {
    seq![MAIN_MARK] + start + seq![TIME_MARK] + time + seq![MAIN_MARK] + end + seq![RESET_MARK]
}

/// The marked-up attribution: author colour, `author`, the separator,
/// `title`, reset.
pub open spec fn footer_markup(author: Seq<char>, title: Seq<char>) -> Seq<char> {
    seq![AUTHOR_MARK] + author + attribution_separator() + title + seq![RESET_MARK]
}

/// Marks up a quotation. The three segments are taken over unchanged, so the
/// markup is four characters longer than they are together.
pub fn build_quote_markup(start: &str, time: &str, end: &str) -> (markup: String)
    ensures
        markup@ == quote_markup(start@, time@, end@),
        markup@.len() == start@.len() + time@.len() + end@.len() + 4,
{
    let mut markup = String::new();
    markup.push(MAIN_MARK);
    markup.append(start);
    markup.push(TIME_MARK);
    markup.append(time);
    markup.push(MAIN_MARK);
    markup.append(end);
    markup.push(RESET_MARK);
    assert(markup@ =~= quote_markup(start@, time@, end@));
    markup
}

/// Marks up an attribution. Author and title are taken over unchanged; with
/// the separator and the two markers the markup is five characters longer
/// than they are together.
pub fn build_footer_markup(author: &str, title: &str) -> (markup: String)
    ensures
        markup@ == footer_markup(author@, title@),
        markup@.len() == author@.len() + title@.len() + 5,
{
    let mut markup = String::new();
    markup.push(AUTHOR_MARK);
    markup.append(author);
    markup.append(" \u{2013} ");
    markup.append(title);
    markup.push(RESET_MARK);
    proof {
        reveal_strlit(" \u{2013} ");
        assert(" \u{2013} "@ =~= attribution_separator());
        assert(markup@ =~= footer_markup(author@, title@));
    }
    markup
}

} // verus!
