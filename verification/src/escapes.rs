//! What a coloured text shows: the text without its escape sequences.

use crate::colour::{colour_number, sgr};
use crate::cutting::{
    lemma_cuts_in_order,
    lemma_words_concat,
    lemma_words_spaced,
    words,
    words_of_lines,
};
use crate::formatter::{joined, page};
use crate::markup::{
    attribution_separator,
    footer_markup,
    is_marker,
    marker_free,
    quote_markup,
    AUTHOR_MARK,
    MAIN_MARK,
    RESET_MARK,
    TIME_MARK,
};
use crate::substitution::{
    lemma_substituted_concat,
    lemma_substituted_marker,
    replacement,
    substituted,
};
use crate::text::{decimal, is_digit, lemma_decimal_is_digits};
use crate::wrapping::{is_cut_at, is_cutting, is_word_start, trimmed};
use vstd::prelude::*;

verus! {

/// The character that every escape sequence begins with.
pub const ESCAPE: char = '\u{1b}';

/// Whether `text` holds no escape character.
pub open spec fn escape_free(text: Seq<char>) -> bool {
    forall|i: int| 0 <= i < text.len() ==> #[trigger] text[i] != ESCAPE
}

/// The number of digits that `text` begins with.
pub open spec fn leading_digits(text: Seq<char>) -> nat
    decreases text.len(),
{
    if text.len() > 0 && is_digit(text[0]) {
        1 + leading_digits(text.skip(1))
    } else {
        0
    }
}

/// The length of the SGR sequence that `text` begins with: the escape
/// character, an opening bracket, any number of digits and the letter `m`.
/// It is 0 where `text` does not begin with such a sequence.
pub open spec fn escape_len(text: Seq<char>) -> nat {
    if text.len() >= 2 && text[0] == ESCAPE && text[1] == '[' {
        let digits = leading_digits(text.skip(2));
        if text.len() > 2 + digits && text[2 + digits as int] == 'm' {
            digits + 3
        } else {
            0
        }
    } else {
        0
    }
}

/// `text` without the SGR sequences in it, read from left to right.
pub open spec fn without_escapes(text: Seq<char>) -> Seq<char>
    decreases text.len(),
{
    if text.len() == 0 {
        text
    } else if escape_len(text) > 0 {
        without_escapes(text.skip(escape_len(text) as int))
    } else {
        seq![text[0]] + without_escapes(text.skip(1))
    }
}

/// `text` without the markers in it.
pub open spec fn without_markers(text: Seq<char>) -> Seq<char> {
    text.filter(|c: char| !is_marker(c))
}

/// A run of digits that is followed by something else is counted whole.
proof fn lemma_leading_digits(digits: Seq<char>, rest: Seq<char>)
    requires
        forall|i: int| 0 <= i < digits.len() ==> is_digit(#[trigger] digits[i]),
        rest.len() == 0 || !is_digit(rest[0]),
    ensures
        leading_digits(digits + rest) == digits.len(),
    decreases digits.len(),
{
    if digits.len() == 0 {
        assert(digits + rest =~= rest);
    } else {
        assert((digits + rest)[0] == digits[0]);
        assert((digits + rest).skip(1) =~= digits.skip(1) + rest);
        lemma_leading_digits(digits.skip(1), rest);
    }
}

/// An escape sequence at the head of a text is recognised in its whole
/// length, whatever follows it.
proof fn lemma_escape_at_head(n: nat, rest: Seq<char>)
    ensures
        escape_len(sgr(n) + rest) == sgr(n).len(),
        sgr(n).len() >= 4,
        (sgr(n) + rest).skip(sgr(n).len() as int) == rest,
{
    let text = sgr(n) + rest;
    let digits = decimal(n);
    lemma_decimal_is_digits(n);
    let tail = seq!['m'] + rest;
    assert(text.skip(2) =~= digits + tail);
    lemma_leading_digits(digits, tail);
    assert(text[2 + digits.len() as int] == 'm');
    assert(text.skip(sgr(n).len() as int) =~= rest);
}

/// Taking the escape sequences out of a coloured text gives the text as it
/// was marked up, without its markers: colouring puts in escape sequences
/// and nothing else. This is stated of text that holds no escape character
/// of its own.
pub proof fn lemma_colouring_only_adds_escapes(
    text: Seq<char>,
    main: Seq<char>,
    time: Seq<char>,
    author: Seq<char>,
)
    requires
        escape_free(text),
    ensures
        without_escapes(substituted(text, main, time, author)) == without_markers(text),
    decreases text.len(),
{
    let keep = |c: char| !is_marker(c);
    if text.len() == 0 {
        assert(substituted(text, main, time, author) =~= text);
    } else {
        let c = text[0];
        let rest = text.skip(1);
        let coloured_rest = substituted(rest, main, time, author);
        assert(text =~= seq![c] + rest);
        lemma_substituted_concat(seq![c], rest, main, time, author);
        lemma_substituted_marker(c, main, time, author);
        lemma_colouring_only_adds_escapes(rest, main, time, author);
        Seq::filter_distributes_over_add(seq![c], rest, keep);
        assert(seq![c].filter(keep) =~= if is_marker(c) {
            Seq::<char>::empty()
        } else {
            seq![c]
        }) by {
            reveal_with_fuel(Seq::filter, 2);
            assert(seq![c].drop_last() =~= Seq::<char>::empty());
        }
        let coloured = replacement(c, main, time, author) + coloured_rest;
        if is_marker(c) {
            let n: nat = if c == RESET_MARK {
                0
            } else if c == AUTHOR_MARK {
                colour_number(author)
            } else if c == MAIN_MARK {
                colour_number(main)
            } else {
                colour_number(time)
            };
            lemma_escape_at_head(n, coloured_rest);
            assert(without_markers(text) =~= without_markers(rest));
        } else {
            assert(coloured[0] == c);
            assert(escape_len(coloured) == 0);
            assert(coloured.skip(1) =~= coloured_rest);
            assert(without_markers(text) =~= seq![c] + without_markers(rest));
        }
    }
}

/// Taking the markers out of a text that holds none changes nothing.
pub proof fn lemma_without_markers_plain(text: Seq<char>)
    requires
        marker_free(text),
    ensures
        without_markers(text) == text,
    decreases text.len(),
{
    reveal(Seq::filter);
    if text.len() > 0 {
        lemma_without_markers_plain(text.drop_last());
        assert(!is_marker(text.last()));
        assert(text.drop_last().push(text.last()) =~= text);
    }
}

/// Taking the markers out of a lone marker leaves nothing.
proof fn lemma_without_markers_marker(c: char)
    requires
        is_marker(c),
    ensures
        without_markers(seq![c]) == Seq::<char>::empty(),
{
    reveal_with_fuel(Seq::filter, 2);
    assert(seq![c].drop_last() =~= Seq::<char>::empty());
}

/// Taking the markers out goes through a text piece by piece.
pub proof fn lemma_without_markers_concat(left: Seq<char>, right: Seq<char>)
    ensures
        without_markers(left + right) == without_markers(left) + without_markers(right),
{
    Seq::filter_distributes_over_add(left, right, |c: char| !is_marker(c));
}

/// What a coloured quotation shows, once its escape sequences are taken
/// out, is its three segments put together, character for character. This
/// is stated of segments that hold neither a marker nor an escape
/// character.
pub proof fn lemma_quote_shows_its_text(
    start: Seq<char>,
    time_phrase: Seq<char>,
    end: Seq<char>,
    main: Seq<char>,
    time: Seq<char>,
    author: Seq<char>,
)
    requires
        marker_free(start) && escape_free(start),
        marker_free(time_phrase) && escape_free(time_phrase),
        marker_free(end) && escape_free(end),
    ensures
        without_escapes(substituted(quote_markup(start, time_phrase, end), main, time, author))
            == start + time_phrase + end,
{
    assert(escape_free(quote_markup(start, time_phrase, end)));
    lemma_colouring_only_adds_escapes(quote_markup(start, time_phrase, end), main, time, author);
    lemma_unmarked_quote(start, time_phrase, end);
}

/// What a coloured attribution shows, once its escape sequences are taken
/// out, is the author, the separator and the title, character for
/// character. This is stated of an author and a title that hold neither a
/// marker nor an escape character.
pub proof fn lemma_footer_shows_its_text(
    author_name: Seq<char>,
    title: Seq<char>,
    main: Seq<char>,
    time: Seq<char>,
    author: Seq<char>,
)
    requires
        marker_free(author_name) && escape_free(author_name),
        marker_free(title) && escape_free(title),
    ensures
        without_escapes(substituted(footer_markup(author_name, title), main, time, author))
            == author_name + attribution_separator() + title,
{
    assert(escape_free(footer_markup(author_name, title)));
    lemma_colouring_only_adds_escapes(footer_markup(author_name, title), main, time, author);
    lemma_unmarked_footer(author_name, title);
}

/// Whether no line of `lines` holds an escape character.
pub open spec fn escape_free_lines(lines: Seq<Seq<char>>) -> bool {
    forall|i: int| 0 <= i < lines.len() ==> escape_free(#[trigger] lines[i])
}

/// `lines`, each without its markers.
pub open spec fn unmarked_lines(lines: Seq<Seq<char>>) -> Seq<Seq<char>> {
    lines.map_values(|line: Seq<char>| without_markers(line))
}

/// Joining lines brings in no escape character, and taking the markers out
/// of joined lines keeps the lines apart.
proof fn lemma_joined_unmarked(lines: Seq<Seq<char>>)
    requires
        escape_free_lines(lines),
    ensures
        escape_free(joined(lines)),
        without_markers(joined(lines)) == joined(unmarked_lines(lines)),
    decreases lines.len(),
{
    let unmarked = unmarked_lines(lines);
    if lines.len() == 0 {
        lemma_without_markers_plain(Seq::empty());
    } else if lines.len() == 1 {
        assert(escape_free(lines[0]));
    } else {
        let head = joined(lines.drop_last());
        let line_break = seq!['\n'];
        assert(escape_free_lines(lines.drop_last()));
        assert(escape_free(lines.last()));
        assert(unmarked.drop_last() =~= unmarked_lines(lines.drop_last()));
        lemma_joined_unmarked(lines.drop_last());
        lemma_without_markers_plain(line_break);
        lemma_without_markers_concat(head, line_break);
        lemma_without_markers_concat(head + line_break, lines.last());
    }
}

/// What the text that is returned shows, once its escape sequences are
/// taken out, is the wrapped lines without their markers, laid out as they
/// were: colouring moves no character to another line. This is stated of
/// lines that hold no escape character.
pub proof fn lemma_page_shows_its_lines(
    quote_lines: Seq<Seq<char>>,
    footer_lines: Seq<Seq<char>>,
    main: Seq<char>,
    time: Seq<char>,
    author: Seq<char>,
)
    requires
        escape_free_lines(quote_lines),
        escape_free_lines(footer_lines),
    ensures
        without_escapes(substituted(page(quote_lines, footer_lines), main, time, author)) == page(
            unmarked_lines(quote_lines),
            unmarked_lines(footer_lines),
        ),
{
    let a = seq!['\n'];
    let b = a + joined(quote_lines);
    let c = b + seq!['\n', '\n'];
    let d = c + joined(footer_lines);
    lemma_joined_unmarked(quote_lines);
    lemma_joined_unmarked(footer_lines);
    assert(escape_free(page(quote_lines, footer_lines)));
    lemma_colouring_only_adds_escapes(page(quote_lines, footer_lines), main, time, author);
    lemma_without_markers_plain(seq!['\n']);
    lemma_without_markers_plain(seq!['\n', '\n']);
    lemma_without_markers_concat(a, joined(quote_lines));
    lemma_without_markers_concat(b, seq!['\n', '\n']);
    lemma_without_markers_concat(c, joined(footer_lines));
    lemma_without_markers_concat(d, seq!['\n']);
}

/// A marked-up quotation without its markers is its three segments put
/// together. This is stated of segments that hold no marker.
pub proof fn lemma_unmarked_quote(start: Seq<char>, time_phrase: Seq<char>, end: Seq<char>)
    requires
        marker_free(start),
        marker_free(time_phrase),
        marker_free(end),
    ensures
        without_markers(quote_markup(start, time_phrase, end)) == start + time_phrase + end,
{
    let a = seq![MAIN_MARK];
    let b = a + start;
    let c = b + seq![TIME_MARK];
    let d = c + time_phrase;
    let e = d + seq![MAIN_MARK];
    let f = e + end;
    lemma_without_markers_marker(MAIN_MARK);
    lemma_without_markers_marker(TIME_MARK);
    lemma_without_markers_marker(RESET_MARK);
    lemma_without_markers_plain(start);
    lemma_without_markers_plain(time_phrase);
    lemma_without_markers_plain(end);
    lemma_without_markers_concat(a, start);
    lemma_without_markers_concat(b, seq![TIME_MARK]);
    lemma_without_markers_concat(c, time_phrase);
    lemma_without_markers_concat(d, seq![MAIN_MARK]);
    lemma_without_markers_concat(e, end);
    lemma_without_markers_concat(f, seq![RESET_MARK]);
    assert(without_markers(quote_markup(start, time_phrase, end)) =~= start + time_phrase + end);
}

/// A marked-up attribution without its markers is the author, the separator
/// and the title. This is stated of an author and a title that hold no
/// marker.
pub proof fn lemma_unmarked_footer(author_name: Seq<char>, title: Seq<char>)
    requires
        marker_free(author_name),
        marker_free(title),
    ensures
        without_markers(footer_markup(author_name, title)) == author_name
            + attribution_separator() + title,
{
    let a = seq![AUTHOR_MARK];
    let b = a + author_name;
    let c = b + attribution_separator();
    let d = c + title;
    lemma_without_markers_marker(AUTHOR_MARK);
    lemma_without_markers_marker(RESET_MARK);
    lemma_without_markers_plain(author_name);
    lemma_without_markers_plain(attribution_separator());
    lemma_without_markers_plain(title);
    lemma_without_markers_concat(a, author_name);
    lemma_without_markers_concat(b, attribution_separator());
    lemma_without_markers_concat(c, title);
    lemma_without_markers_concat(d, seq![RESET_MARK]);
    assert(without_markers(footer_markup(author_name, title)) =~= author_name
        + attribution_separator() + title);
}

/// Taking the markers out keeps a space at the end of a text.
proof fn lemma_unmarked_spaced(text: Seq<char>)
    ensures
        without_markers(text.push(' ')) == without_markers(text).push(' '),
{
    reveal(Seq::filter);
    assert(text.push(' ').drop_last() =~= text);
}

/// The spaces at the end of a text add no word to it, with its markers or
/// without them.
proof fn lemma_unmarked_trimmed_words(text: Seq<char>)
    ensures
        words(without_markers(trimmed(text))) == words(without_markers(text)),
    decreases text.len(),
{
    if text.len() > 0 && text.last() == ' ' {
        let shorter = text.drop_last();
        assert(shorter.push(' ') =~= text);
        lemma_unmarked_trimmed_words(shorter);
        lemma_unmarked_spaced(shorter);
        lemma_words_spaced(without_markers(shorter));
    }
}

/// The words shown by the first `count` lines are the words of the text,
/// without its markers, up to the cut behind them.
proof fn lemma_plain_words_up_to(
    lines: Seq<Seq<char>>,
    text: Seq<char>,
    cuts: Seq<int>,
    initial_indent: Seq<char>,
    subsequent_indent: Seq<char>,
    count: int,
)
    requires
        is_cut_at(lines, text, cuts, initial_indent, subsequent_indent),
        marker_free(initial_indent),
        marker_free(subsequent_indent),
        0 <= count <= lines.len(),
    ensures
        0 <= cuts[count] <= text.len(),
        words_of_lines(
            unmarked_lines(lines.take(count)),
            initial_indent.len(),
            subsequent_indent.len(),
        ) == words(without_markers(text.subrange(0, cuts[count]))),
    decreases count,
{
    lemma_cuts_in_order(lines, text, cuts, initial_indent, subsequent_indent, count);
    if count == 0 {
        assert(unmarked_lines(lines.take(0)) =~= Seq::<Seq<char>>::empty());
        assert(text.subrange(0, 0) =~= Seq::<char>::empty());
        lemma_without_markers_plain(Seq::empty());
    } else {
        let k = count - 1;
        lemma_plain_words_up_to(lines, text, cuts, initial_indent, subsequent_indent, k);
        lemma_cuts_in_order(lines, text, cuts, initial_indent, subsequent_indent, k);
        let indent = if k == 0 {
            initial_indent
        } else {
            subsequent_indent
        };
        let before = text.subrange(0, cuts[k]);
        let piece = text.subrange(cuts[k], cuts[k + 1]);
        let shown = unmarked_lines(lines.take(count));
        assert(lines[k] == indent + trimmed(piece));
        assert(is_word_start(text, cuts[k]));
        assert(shown.drop_last() =~= unmarked_lines(lines.take(k)));
        assert(shown.last() == without_markers(lines[k]));
        lemma_without_markers_concat(indent, trimmed(piece));
        lemma_without_markers_plain(indent);
        assert(without_markers(lines[k]).skip(indent.len() as int) =~= without_markers(
            trimmed(piece),
        ));
        lemma_unmarked_trimmed_words(piece);
        assert(before + piece =~= text.subrange(0, cuts[count]));
        lemma_without_markers_concat(before, piece);
        if cuts[k] > 0 {
            assert(before.drop_last().push(' ') =~= before);
            lemma_unmarked_spaced(before.drop_last());
        } else {
            assert(before =~= Seq::<char>::empty());
            lemma_without_markers_plain(before);
        }
        lemma_words_concat(without_markers(before), without_markers(piece));
    }
}

/// Wrapping keeps what is read: the words that the lines show behind their
/// indents, once the markers are taken out, are the words of the text
/// without its markers, each of them whole, once and in its place. This is
/// stated of indents that hold no marker.
pub proof fn lemma_cutting_keeps_plain_words(
    lines: Seq<Seq<char>>,
    text: Seq<char>,
    initial_indent: Seq<char>,
    subsequent_indent: Seq<char>,
)
    requires
        is_cutting(lines, text, initial_indent, subsequent_indent),
        marker_free(initial_indent),
        marker_free(subsequent_indent),
    ensures
        words_of_lines(unmarked_lines(lines), initial_indent.len(), subsequent_indent.len())
            == words(without_markers(text)),
{
    let cuts = choose|cuts: Seq<int>|
        is_cut_at(lines, text, cuts, initial_indent, subsequent_indent);
    lemma_plain_words_up_to(
        lines,
        text,
        cuts,
        initial_indent,
        subsequent_indent,
        lines.len() as int,
    );
    assert(lines.take(lines.len() as int) =~= lines);
    assert(text.subrange(0, text.len() as int) =~= text);
}

/// Wrapping brings in no escape character: where the text and the indents
/// hold none, no line does.
pub proof fn lemma_cutting_escape_free(
    lines: Seq<Seq<char>>,
    text: Seq<char>,
    initial_indent: Seq<char>,
    subsequent_indent: Seq<char>,
)
    requires
        is_cutting(lines, text, initial_indent, subsequent_indent),
        escape_free(text),
        escape_free(initial_indent),
        escape_free(subsequent_indent),
    ensures
        escape_free_lines(lines),
{
    let cuts = choose|cuts: Seq<int>|
        is_cut_at(lines, text, cuts, initial_indent, subsequent_indent);
    assert forall|k: int| 0 <= k < lines.len() implies escape_free(#[trigger] lines[k]) by {
        lemma_cuts_in_order(lines, text, cuts, initial_indent, subsequent_indent, k);
        let indent = if k == 0 {
            initial_indent
        } else {
            subsequent_indent
        };
        let piece = text.subrange(cuts[k], cuts[k + 1]);
        crate::cutting::lemma_trimmed(piece);
        assert(lines[k] == indent + trimmed(piece));
        assert forall|i: int| 0 <= i < lines[k].len() implies #[trigger] lines[k][i]
            != ESCAPE by {
            if i >= indent.len() {
                let j = i - indent.len();
                assert(trimmed(piece)[j] == piece.subrange(0, trimmed(piece).len() as int)[j]);
                assert(piece[j] == text[cuts[k] + j]);
            }
        }
    }
}

} // verus!
