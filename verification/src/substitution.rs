//! Exchanging the markers of a marked-up text for escape sequences.

use crate::colour::{
    colour_code,
    colour_number,
    get_colour,
    lemma_reset_word,
    lemma_sgr_holds_no_marker,
    reset_code,
};
use crate::markup::{
    attribution_separator,
    footer_markup,
    is_marker,
    marker_free,
    quote_markup,
    AUTHOR_MARK,
    MAIN_MARK,
    RESET_MARK,
    TIME_MARK,
};
use vstd::prelude::*;
use vstd::seq_lib::lemma_flatten_concat;

verus! {

/// What one character of a marked-up text becomes: a marker becomes the
/// escape sequence of the colour bound to its role, any other character
/// stays as it is. The reset marker is bound to the reset sequence; the
/// other three are bound to the colours named by the caller.
pub open spec fn replacement(c: char, main: Seq<char>, time: Seq<char>, author: Seq<char>) -> Seq<
    char,
> {
    if c == RESET_MARK {
        reset_code()
    } else if c == AUTHOR_MARK {
        colour_code(author)
    } else if c == MAIN_MARK {
        colour_code(main)
    } else if c == TIME_MARK {
        colour_code(time)
    } else {
        seq![c]
    }
}

/// `text` with every character exchanged for its [`replacement`].
pub open spec fn substituted(
    text: Seq<char>,
    main: Seq<char>,
    time: Seq<char>,
    author: Seq<char>,
) -> Seq<char> {
    text.flat_map(|c: char| replacement(c, main, time, author))
}

/// Substitution of a text that ends in `c` is substitution of what stands
/// before `c`, followed by the replacement of `c`.
pub proof fn lemma_substituted_push(
    text: Seq<char>,
    c: char,
    main: Seq<char>,
    time: Seq<char>,
    author: Seq<char>,
)
    ensures
        substituted(text.push(c), main, time, author) == substituted(text, main, time, author)
            + replacement(c, main, time, author),
{
    let f = |c: char| replacement(c, main, time, author);
    assert(text.push(c).map_values(f) =~= text.map_values(f).push(f(c)));
    text.map_values(f).lemma_flatten_push(f(c));
}

/// Substitution goes through a text piece by piece.
pub proof fn lemma_substituted_concat(
    left: Seq<char>,
    right: Seq<char>,
    main: Seq<char>,
    time: Seq<char>,
    author: Seq<char>,
)
    ensures
        substituted(left + right, main, time, author) == substituted(left, main, time, author)
            + substituted(right, main, time, author),
{
    let f = |c: char| replacement(c, main, time, author);
    assert((left + right).map_values(f) =~= left.map_values(f) + right.map_values(f));
    lemma_flatten_concat(left.map_values(f), right.map_values(f));
}

/// Substitution turns a lone marker into the escape sequence of its role.
pub proof fn lemma_substituted_marker(
    c: char,
    main: Seq<char>,
    time: Seq<char>,
    author: Seq<char>,
)
    ensures
        substituted(seq![c], main, time, author) == replacement(c, main, time, author),
{
    let f = |c: char| replacement(c, main, time, author);
    assert(seq![c].map_values(f) =~= seq![f(c)]);
    seq![f(c)].lemma_flatten_one_element();
}

/// No replacement holds a marker, whatever the colours are called.
pub proof fn lemma_replacement_holds_no_marker(
    c: char,
    main: Seq<char>,
    time: Seq<char>,
    author: Seq<char>,
)
    ensures
        is_marker(c) || replacement(c, main, time, author) == seq![c],
        marker_free(replacement(c, main, time, author)),
{
    lemma_sgr_holds_no_marker(0);
    lemma_sgr_holds_no_marker(colour_number(main));
    lemma_sgr_holds_no_marker(colour_number(time));
    lemma_sgr_holds_no_marker(colour_number(author));
}

/// Substitution leaves no marker behind.
pub proof fn lemma_substituted_marker_free(
    text: Seq<char>,
    main: Seq<char>,
    time: Seq<char>,
    author: Seq<char>,
)
    ensures
        marker_free(substituted(text, main, time, author)),
    decreases text.len(),
{
    if text.len() > 0 {
        assert(text =~= text.drop_last().push(text.last()));
        lemma_substituted_push(text.drop_last(), text.last(), main, time, author);
        lemma_substituted_marker_free(text.drop_last(), main, time, author);
        lemma_replacement_holds_no_marker(text.last(), main, time, author);
    }
}

/// Substitution changes nothing in a text that holds no marker.
pub proof fn lemma_substituted_plain(
    text: Seq<char>,
    main: Seq<char>,
    time: Seq<char>,
    author: Seq<char>,
)
    requires
        marker_free(text),
    ensures
        substituted(text, main, time, author) == text,
    decreases text.len(),
{
    if text.len() > 0 {
        assert(text =~= text.drop_last().push(text.last()));
        lemma_substituted_push(text.drop_last(), text.last(), main, time, author);
        lemma_substituted_plain(text.drop_last(), main, time, author);
        assert(!is_marker(text.last()));
    } else {
        assert(substituted(text, main, time, author) =~= text);
    }
}

/// Substitution is idempotent: applied to its own result, which holds no
/// marker any more, it changes nothing. The colours named the second time
/// need not be those named the first time.
pub proof fn lemma_substitute_idempotent(
    text: Seq<char>,
    main: Seq<char>,
    time: Seq<char>,
    author: Seq<char>,
    main_again: Seq<char>,
    time_again: Seq<char>,
    author_again: Seq<char>,
)
    ensures
        substituted(
            substituted(text, main, time, author),
            main_again,
            time_again,
            author_again,
        ) == substituted(text, main, time, author),
{
    lemma_substituted_marker_free(text, main, time, author);
    lemma_substituted_plain(
        substituted(text, main, time, author),
        main_again,
        time_again,
        author_again,
    );
}

/// A coloured quotation is its three segments, unchanged and in their
/// order, with the escape sequence of the main colour before the first and
/// the third, that of the time colour before the second, and the reset
/// sequence at the end. Nothing else is put in: where a segment is empty the
/// sequences on its two sides stand next to each other.
pub proof fn lemma_coloured_quote(
    start: Seq<char>,
    time_phrase: Seq<char>,
    end: Seq<char>,
    main: Seq<char>,
    time: Seq<char>,
    author: Seq<char>,
)
    requires
        marker_free(start),
        marker_free(time_phrase),
        marker_free(end),
    ensures
        substituted(quote_markup(start, time_phrase, end), main, time, author) == colour_code(main)
            + start + colour_code(time) + time_phrase + colour_code(main) + end + reset_code(),
{
    let a = seq![MAIN_MARK];
    let b = a + start;
    let c = b + seq![TIME_MARK];
    let d = c + time_phrase;
    let e = d + seq![MAIN_MARK];
    let f = e + end;
    lemma_substituted_marker(MAIN_MARK, main, time, author);
    lemma_substituted_marker(TIME_MARK, main, time, author);
    lemma_substituted_marker(RESET_MARK, main, time, author);
    lemma_substituted_plain(start, main, time, author);
    lemma_substituted_plain(time_phrase, main, time, author);
    lemma_substituted_plain(end, main, time, author);
    lemma_substituted_concat(a, start, main, time, author);
    lemma_substituted_concat(b, seq![TIME_MARK], main, time, author);
    lemma_substituted_concat(c, time_phrase, main, time, author);
    lemma_substituted_concat(d, seq![MAIN_MARK], main, time, author);
    lemma_substituted_concat(e, end, main, time, author);
    lemma_substituted_concat(f, seq![RESET_MARK], main, time, author);
}

/// A coloured attribution is the author, the separator and the title,
/// unchanged, between the escape sequence of the author colour and the
/// reset sequence.
pub proof fn lemma_coloured_footer(
    author_name: Seq<char>,
    title: Seq<char>,
    main: Seq<char>,
    time: Seq<char>,
    author: Seq<char>,
)
    requires
        marker_free(author_name),
        marker_free(title),
    ensures
        substituted(footer_markup(author_name, title), main, time, author) == colour_code(author)
            + author_name + attribution_separator() + title + reset_code(),
{
    let a = seq![AUTHOR_MARK];
    let b = a + author_name;
    let c = b + attribution_separator();
    let d = c + title;
    lemma_substituted_marker(AUTHOR_MARK, main, time, author);
    lemma_substituted_marker(RESET_MARK, main, time, author);
    lemma_substituted_plain(author_name, main, time, author);
    lemma_substituted_plain(attribution_separator(), main, time, author);
    lemma_substituted_plain(title, main, time, author);
    lemma_substituted_concat(a, author_name, main, time, author);
    lemma_substituted_concat(b, attribution_separator(), main, time, author);
    lemma_substituted_concat(c, title, main, time, author);
    lemma_substituted_concat(d, seq![RESET_MARK], main, time, author);
}

/// Exchanges every marker in `text` for the escape sequence of its role:
/// the reset marker for the reset sequence, the author, main and time
/// markers for the sequences that `author`, `main` and `time` resolve to.
/// All other characters are kept, in their order.
pub fn substitute(text: &str, main: &str, time: &str, author: &str) -> (out: String)
    ensures
        out@ == substituted(text@, main@, time@, author@),
        marker_free(out@),
{
    let reset: &str = get_colour("reset");
    let author_code: &str = get_colour(author);
    let main_code: &str = get_colour(main);
    let time_code: &str = get_colour(time);
    proof {
        lemma_reset_word();
    }
    let mut out = String::new();
    assert(out@ =~= substituted(text@.take(0), main@, time@, author@));
    for c in it: text.chars()
        invariant
            it.seq() == text@,
            reset@ == reset_code(),
            author_code@ == colour_code(author@),
            main_code@ == colour_code(main@),
            time_code@ == colour_code(time@),
            out@ == substituted(text@.take(it.index() as int), main@, time@, author@),
    {
        proof {
            let done = text@.take(it.index() as int);
            assert(text@.take(it.index() + 1) =~= done.push(c));
            lemma_substituted_push(done, c, main@, time@, author@);
        }
        if c == RESET_MARK {
            out.append(reset);
        } else if c == AUTHOR_MARK {
            out.append(author_code);
        } else if c == MAIN_MARK {
            out.append(main_code);
        } else if c == TIME_MARK {
            out.append(time_code);
        } else {
            out.push(c);
        }
    }
    proof {
        assert(text@.take(text@.len() as int) =~= text@);
        lemma_substituted_marker_free(text@, main@, time@, author@);
    }
    out
}

} // verus!
