//! The formatter: marks up a quotation and its attribution, has both wrapped
//! to the wanted width, lays the lines out as one block and colours it.

use crate::colour::{colour_code, reset_code};
use crate::cutting::{
    first_word,
    lemma_first_line_begins_with_the_text,
    lemma_first_word,
    lemma_last_line_ends_with_the_text,
    space_free,
    words,
    words_of_lines,
};
use crate::escapes::{
    escape_free,
    lemma_cutting_escape_free,
    lemma_cutting_keeps_plain_words,
    lemma_page_shows_its_lines,
    lemma_unmarked_footer,
    lemma_unmarked_quote,
    unmarked_lines,
    without_escapes,
};
use crate::markup::{
    attribution_separator,
    build_footer_markup,
    build_quote_markup,
    footer_markup,
    is_marker,
    marker_free,
    quote_markup,
    MAIN_MARK,
    RESET_MARK,
    TIME_MARK,
};
use crate::minute::{Minute, MinuteText};
use crate::substitution::{
    lemma_substituted_concat,
    lemma_substituted_marker,
    lemma_substituted_plain,
    substitute,
    substituted,
};
use crate::wrapping::{is_cutting, wrap_lines, wrapped_lines};
use vstd::prelude::*;

verus! {

/// Starts the first line of a quotation: an opening quote mark, set in by
/// two columns.
pub const INITIAL_INDENT: &'static str = "  \" ";

/// Starts every further line of a quotation, in line with its first word.
pub const SUBSEQUENT_INDENT: &'static str = "    ";

/// Starts every line of the attribution.
pub const FOOTER_INDENT: &'static str = "        ";

/// `lines` with a line break between each two neighbours, and none before
/// the first or after the last.
pub open spec fn joined(lines: Seq<Seq<char>>) -> Seq<char>
    decreases lines.len(),
{
    if lines.len() == 0 {
        Seq::empty()
    } else if lines.len() == 1 {
        lines[0]
    } else {
        joined(lines.drop_last()) + seq!['\n'] + lines.last()
    }
}

/// The block of text that is shown: a line break, the lines of the
/// quotation, an empty line, the lines of the attribution, a line break.
pub open spec fn page(quote_lines: Seq<Seq<char>>, footer_lines: Seq<Seq<char>>) -> Seq<char> {
    seq!['\n'] + joined(quote_lines) + seq!['\n', '\n'] + joined(footer_lines) + seq!['\n']
}

/// The lines of the quotation of `minute`, marked up and wrapped to `width`
/// columns. No word is broken to make it fit.
pub open spec fn quote_lines(minute: MinuteText, width: usize) -> Seq<Seq<char>> {
    wrapped_lines(
        quote_markup(minute.start, minute.time, minute.end),
        width,
        INITIAL_INDENT@,
        SUBSEQUENT_INDENT@,
        false,
    )
}

/// The lines of the attribution of `minute`, marked up and wrapped to
/// `width` columns. No word is broken to make it fit.
pub open spec fn footer_lines(minute: MinuteText, width: usize) -> Seq<Seq<char>> {
    wrapped_lines(
        footer_markup(minute.author, minute.title),
        width,
        FOOTER_INDENT@,
        FOOTER_INDENT@,
        false,
    )
}

/// The text that [`Minute::formatted`] returns.
pub open spec fn formatted_text(
    minute: MinuteText,
    width: usize,
    main: Seq<char>,
    time: Seq<char>,
    author: Seq<char>,
) -> Seq<char> {
    substituted(page(quote_lines(minute, width), footer_lines(minute, width)), main, time, author)
}

/// `lines`, each with its markers exchanged for escape sequences.
pub open spec fn coloured_lines(
    lines: Seq<Seq<char>>,
    main: Seq<char>,
    time: Seq<char>,
    author: Seq<char>,
) -> Seq<Seq<char>> {
    lines.map_values(|line: Seq<char>| substituted(line, main, time, author))
}

/// Colouring keeps the lines apart: the coloured text of joined lines is
/// the coloured lines, joined.
pub proof fn lemma_coloured_joined(
    lines: Seq<Seq<char>>,
    main: Seq<char>,
    time: Seq<char>,
    author: Seq<char>,
)
    ensures
        substituted(joined(lines), main, time, author) == joined(
            coloured_lines(lines, main, time, author),
        ),
    decreases lines.len(),
{
    let coloured = coloured_lines(lines, main, time, author);
    if lines.len() == 0 {
        lemma_substituted_plain(Seq::empty(), main, time, author);
    } else if lines.len() > 1 {
        let head = joined(lines.drop_last());
        let line_break = seq!['\n'];
        assert(coloured.drop_last() =~= coloured_lines(lines.drop_last(), main, time, author));
        lemma_coloured_joined(lines.drop_last(), main, time, author);
        lemma_substituted_plain(line_break, main, time, author);
        lemma_substituted_concat(head, line_break, main, time, author);
        lemma_substituted_concat(head + line_break, lines.last(), main, time, author);
    }
}

/// The text that is returned is laid out as the wrapped lines are: a line
/// break, the coloured lines of the quotation, an empty line, the coloured
/// lines of the attribution, a line break. Colouring adds and removes no
/// line.
pub proof fn lemma_coloured_page(
    quote_lines: Seq<Seq<char>>,
    footer_lines: Seq<Seq<char>>,
    main: Seq<char>,
    time: Seq<char>,
    author: Seq<char>,
)
    ensures
        substituted(page(quote_lines, footer_lines), main, time, author) == page(
            coloured_lines(quote_lines, main, time, author),
            coloured_lines(footer_lines, main, time, author),
        ),
{
    let a = seq!['\n'];
    let b = a + joined(quote_lines);
    let c = b + seq!['\n', '\n'];
    let d = c + joined(footer_lines);
    lemma_coloured_joined(quote_lines, main, time, author);
    lemma_coloured_joined(footer_lines, main, time, author);
    lemma_substituted_plain(seq!['\n'], main, time, author);
    lemma_substituted_plain(seq!['\n', '\n'], main, time, author);
    lemma_substituted_concat(a, joined(quote_lines), main, time, author);
    lemma_substituted_concat(b, seq!['\n', '\n'], main, time, author);
    lemma_substituted_concat(c, joined(footer_lines), main, time, author);
    lemma_substituted_concat(d, seq!['\n'], main, time, author);
}

/// Whether `text` holds no line break.
pub open spec fn line_free(text: Seq<char>) -> bool {
    forall|i: int| 0 <= i < text.len() ==> #[trigger] text[i] != '\n'
}

/// Whether the quotation of `minute` holds no line break.
pub open spec fn quote_line_free(minute: MinuteText) -> bool {
    line_free(minute.start) && line_free(minute.time) && line_free(minute.end)
}

/// Whether the attribution of `minute` holds no line break.
pub open spec fn footer_line_free(minute: MinuteText) -> bool {
    line_free(minute.author) && line_free(minute.title)
}

/// Whether `text` holds no marker, no escape character and no line break.
pub open spec fn plain(text: Seq<char>) -> bool {
    marker_free(text) && escape_free(text) && line_free(text)
}

/// Whether the three segments of the quotation of `minute` are plain.
pub open spec fn quote_plain(minute: MinuteText) -> bool {
    plain(minute.start) && plain(minute.time) && plain(minute.end)
}

/// Whether the author and the title of `minute` are plain.
pub open spec fn footer_plain(minute: MinuteText) -> bool {
    plain(minute.author) && plain(minute.title)
}

/// The coloured lines of the quotation, as they stand in the text returned
/// between its opening line break and its empty line.
pub open spec fn quote_part(
    minute: MinuteText,
    width: usize,
    main: Seq<char>,
    time: Seq<char>,
    author: Seq<char>,
) -> Seq<char> {
    substituted(joined(quote_lines(minute, width)), main, time, author)
}

/// The coloured lines of the attribution, as they stand in the text
/// returned between its empty line and its closing line break.
pub open spec fn footer_part(
    minute: MinuteText,
    width: usize,
    main: Seq<char>,
    time: Seq<char>,
    author: Seq<char>,
) -> Seq<char> {
    substituted(joined(footer_lines(minute, width)), main, time, author)
}

/// How a quotation without a leading segment opens: the indent with the
/// quote mark, the escape sequences of the main colour and of the time
/// colour, and the first word of the time phrase.
pub open spec fn quote_opening(time_phrase: Seq<char>, main: Seq<char>, time: Seq<char>) -> Seq<
    char,
> {
    INITIAL_INDENT@ + colour_code(main) + colour_code(time) + first_word(time_phrase)
}

/// How a quotation without a trailing segment closes: the escape sequence of
/// the main colour and the reset sequence.
pub open spec fn quote_closing(main: Seq<char>) -> Seq<char> {
    colour_code(main) + reset_code()
}

/// Joined lines begin with the first of them and end with the last.
pub proof fn lemma_joined_ends(lines: Seq<Seq<char>>)
    requires
        lines.len() > 0,
    ensures
        lines[0].is_prefix_of(joined(lines)),
        lines.last().is_suffix_of(joined(lines)),
    decreases lines.len(),
{
    if lines.len() > 1 {
        lemma_joined_ends(lines.drop_last());
        let head = joined(lines.drop_last());
        assert(lines[0] == lines.drop_last()[0]);
        assert(lines[0] =~= head.subrange(0, lines[0].len() as int));
        assert(lines[0] =~= joined(lines).subrange(0, lines[0].len() as int));
    }
}

/// Colouring the beginning of a text gives the beginning of the coloured
/// text.
pub proof fn lemma_substituted_prefix(
    part: Seq<char>,
    text: Seq<char>,
    main: Seq<char>,
    time: Seq<char>,
    author: Seq<char>,
)
    requires
        part.is_prefix_of(text),
    ensures
        substituted(part, main, time, author).is_prefix_of(substituted(text, main, time, author)),
{
    let rest = text.skip(part.len() as int);
    assert(text =~= part + rest);
    lemma_substituted_concat(part, rest, main, time, author);
}

/// Colouring the end of a text gives the end of the coloured text.
pub proof fn lemma_substituted_suffix(
    part: Seq<char>,
    text: Seq<char>,
    main: Seq<char>,
    time: Seq<char>,
    author: Seq<char>,
)
    requires
        part.is_suffix_of(text),
    ensures
        substituted(part, main, time, author).is_suffix_of(substituted(text, main, time, author)),
{
    let rest = text.take(text.len() - part.len());
    assert(text =~= rest + part);
    lemma_substituted_concat(rest, part, main, time, author);
}

/// A quotation without a leading segment opens with the quote mark's
/// indent, the escape sequence of the main colour, that of the time colour
/// and the first word of the time phrase, with nothing between them,
/// wherever its lines end. This is stated of lines that are the marked-up
/// quotation cut at word starts.
pub proof fn lemma_quote_opens(
    lines: Seq<Seq<char>>,
    time_phrase: Seq<char>,
    end: Seq<char>,
    main: Seq<char>,
    time: Seq<char>,
    author: Seq<char>,
)
    requires
        is_cutting(
            lines,
            quote_markup(Seq::empty(), time_phrase, end),
            INITIAL_INDENT@,
            SUBSEQUENT_INDENT@,
        ),
        marker_free(time_phrase),
    ensures
        quote_opening(time_phrase, main, time).is_prefix_of(
            substituted(joined(lines), main, time, author),
        ),
{
    let markup = quote_markup(Seq::empty(), time_phrase, end);
    let word = first_word(time_phrase);
    let head = seq![MAIN_MARK, TIME_MARK] + word;
    lemma_first_word(time_phrase);
    assert(head =~= markup.subrange(0, head.len() as int)) by {
        assert forall|i: int| 0 <= i < head.len() implies head[i] == markup[i] by {
            if i >= 2 {
                assert(word[i - 2] == time_phrase.subrange(0, word.len() as int)[i - 2]);
            }
        }
    }
    assert(space_free(head)) by {
        assert forall|i: int| 0 <= i < head.len() implies #[trigger] head[i] != ' ' by {
            if i >= 2 {
                assert(head[i] == word[i - 2]);
            }
        }
    }
    lemma_first_line_begins_with_the_text(
        lines,
        markup,
        INITIAL_INDENT@,
        SUBSEQUENT_INDENT@,
        head,
    );
    lemma_joined_ends(lines);
    let opening = INITIAL_INDENT@ + head;
    assert(opening.is_prefix_of(joined(lines))) by {
        assert(opening =~= lines[0].subrange(0, opening.len() as int));
        assert(lines[0] =~= joined(lines).subrange(0, lines[0].len() as int));
    }
    lemma_substituted_prefix(opening, joined(lines), main, time, author);
    // The opening, coloured.
    reveal_strlit("  \" ");
    assert(marker_free(INITIAL_INDENT@));
    assert(marker_free(word)) by {
        assert forall|i: int| 0 <= i < word.len() implies !is_marker(#[trigger] word[i]) by {
            assert(word[i] == time_phrase.subrange(0, word.len() as int)[i]);
        }
    }
    let a = INITIAL_INDENT@;
    let b = a + seq![MAIN_MARK];
    let c = b + seq![TIME_MARK];
    assert(opening =~= c + word);
    lemma_substituted_plain(a, main, time, author);
    lemma_substituted_marker(MAIN_MARK, main, time, author);
    lemma_substituted_marker(TIME_MARK, main, time, author);
    lemma_substituted_plain(word, main, time, author);
    lemma_substituted_concat(a, seq![MAIN_MARK], main, time, author);
    lemma_substituted_concat(b, seq![TIME_MARK], main, time, author);
    lemma_substituted_concat(c, word, main, time, author);
}

/// A quotation without a trailing segment closes with the escape sequence
/// of the main colour and, directly behind it, the reset sequence, wherever
/// its lines end. This is stated of lines that are the marked-up quotation
/// cut at word starts.
pub proof fn lemma_quote_closes(
    lines: Seq<Seq<char>>,
    start: Seq<char>,
    time_phrase: Seq<char>,
    main: Seq<char>,
    time: Seq<char>,
    author: Seq<char>,
)
    requires
        is_cutting(
            lines,
            quote_markup(start, time_phrase, Seq::empty()),
            INITIAL_INDENT@,
            SUBSEQUENT_INDENT@,
        ),
    ensures
        quote_closing(main).is_suffix_of(substituted(joined(lines), main, time, author)),
{
    let markup = quote_markup(start, time_phrase, Seq::empty());
    let tail = seq![MAIN_MARK, RESET_MARK];
    assert(tail =~= markup.subrange(markup.len() - 2, markup.len() as int));
    assert(space_free(tail));
    lemma_last_line_ends_with_the_text(lines, markup, INITIAL_INDENT@, SUBSEQUENT_INDENT@, tail);
    lemma_joined_ends(lines);
    assert(tail.is_suffix_of(joined(lines))) by {
        let last = lines.last();
        let all = joined(lines);
        assert(tail =~= last.subrange(last.len() - 2, last.len() as int));
        assert(last =~= all.subrange(all.len() - last.len(), all.len() as int));
        assert(tail =~= all.subrange(all.len() - 2, all.len() as int));
    }
    lemma_substituted_suffix(tail, joined(lines), main, time, author);
    assert(tail =~= seq![MAIN_MARK] + seq![RESET_MARK]);
    lemma_substituted_marker(MAIN_MARK, main, time, author);
    lemma_substituted_marker(RESET_MARK, main, time, author);
    lemma_substituted_concat(seq![MAIN_MARK], seq![RESET_MARK], main, time, author);
}

/// Marking up brings in no line break.
pub proof fn lemma_markup_line_free(minute: MinuteText)
    ensures
        quote_line_free(minute) ==> line_free(
            quote_markup(minute.start, minute.time, minute.end),
        ),
        footer_line_free(minute) ==> line_free(footer_markup(minute.author, minute.title)),
{
}

/// Appends `lines` to `out`, with a line break between each two neighbours.
fn append_joined(out: &mut String, lines: &Vec<String>)
    ensures
        final(out)@ == old(out)@ + joined(lines.deep_view()),
{
    let ghost texts = lines.deep_view();
    let ghost before = out@;
    let n: usize = lines.len();
    let mut i: usize = 0;
    assert(texts.take(0) =~= Seq::<Seq<char>>::empty());
    while i < n
        invariant
            i <= n,
            n == lines.len(),
            texts == lines.deep_view(),
            out@ == before + joined(texts.take(i as int)),
        decreases n - i,
    {
        proof {
            let done = texts.take(i as int);
            let next = texts.take(i + 1);
            assert(next.drop_last() =~= done);
            assert(next.last() == lines[i as int]@);
            if i == 0 {
                assert(joined(done) =~= Seq::<char>::empty());
            }
        }
        if i > 0 {
            out.push('\n');
        }
        out.append(lines[i].as_str());
        assert(out@ =~= before + joined(texts.take(i + 1)));
        i = i + 1;
    }
    assert(texts.take(n as int) =~= texts);
}

/// Lays out the wrapped lines of a quotation and of its attribution as one
/// block and colours it: a line break, the quotation's lines, an empty line,
/// the attribution's lines and a closing line break, with every marker in
/// them exchanged for the escape sequence of its role.
pub fn render(
    quote_lines: &Vec<String>,
    footer_lines: &Vec<String>,
    main: &str,
    time: &str,
    author: &str,
) -> (out: String)
    ensures
        out@ == substituted(
            page(quote_lines.deep_view(), footer_lines.deep_view()),
            main@,
            time@,
            author@,
        ),
        marker_free(out@),
{
    let mut block = String::new();
    block.push('\n');
    append_joined(&mut block, quote_lines);
    block.push('\n');
    block.push('\n');
    append_joined(&mut block, footer_lines);
    block.push('\n');
    assert(block@ =~= page(quote_lines.deep_view(), footer_lines.deep_view()));
    substitute(block.as_str(), main, time, author)
}

impl<'a> Minute<'a> {
    /// Renders the quotation and its attribution for a terminal that is
    /// `width` columns wide.
    ///
    /// The quotation is set in the colour named `main`, its time phrase in
    /// the colour named `time`, the attribution in the colour named
    /// `author`; a name that is not in the colour table leaves the text
    /// uncoloured. The quotation opens with a quote mark and its further
    /// lines are set in by four columns, the attribution by eight.
    ///
    /// The text returned is the wrapped lines, laid out as a page and
    /// coloured. Where the lines end is the wrapping crate's choice. Whatever
    /// it chooses, the contract states, in this order:
    /// - no marker is left;
    /// - the quotation and the attribution stand between line breaks, with an
    ///   empty line between them;
    /// - the lines of a record without line breaks are its marked-up text cut
    ///   at word starts, so that no word is cut in two;
    /// - of a plain record the terminal shows the wrapped lines without their
    ///   markers, and behind the indents these hold the words of the record,
    ///   each of them whole, once and in its place;
    /// - without a leading segment, nothing stands between the indent, the
    ///   escape sequences of the main and the time colour, and the first word
    ///   of the time phrase;
    /// - without a trailing segment, the reset sequence follows that of the
    ///   main colour directly.
    ///
    /// The record is expected to hold no marker. One that it holds is
    /// coloured like the library's own.
    pub fn formatted(&self, width: usize, main: &str, time: &str, author: &str) -> (out: String)
        ensures
            out@ == formatted_text(self@, width, main@, time@, author@),
            marker_free(out@),
            out@ == seq!['\n'] + quote_part(self@, width, main@, time@, author@) + seq![
                '\n',
                '\n',
            ] + footer_part(self@, width, main@, time@, author@) + seq!['\n'],
            quote_line_free(self@) ==> is_cutting(
                quote_lines(self@, width),
                quote_markup(self.start@, self.time@, self.end@),
                INITIAL_INDENT@,
                SUBSEQUENT_INDENT@,
            ),
            footer_line_free(self@) ==> is_cutting(
                footer_lines(self@, width),
                footer_markup(self.author@, self.title@),
                FOOTER_INDENT@,
                FOOTER_INDENT@,
            ),
            quote_plain(self@) && footer_plain(self@) ==> without_escapes(out@) == page(
                unmarked_lines(quote_lines(self@, width)),
                unmarked_lines(footer_lines(self@, width)),
            ),
            quote_plain(self@) ==> words_of_lines(
                unmarked_lines(quote_lines(self@, width)),
                INITIAL_INDENT@.len(),
                SUBSEQUENT_INDENT@.len(),
            ) == words(self.start@ + self.time@ + self.end@),
            footer_plain(self@) ==> words_of_lines(
                unmarked_lines(footer_lines(self@, width)),
                FOOTER_INDENT@.len(),
                FOOTER_INDENT@.len(),
            ) == words(self.author@ + attribution_separator() + self.title@),
            self.start@.len() == 0 && quote_line_free(self@) && marker_free(self.time@)
                ==> quote_opening(self.time@, main@, time@).is_prefix_of(
                quote_part(self@, width, main@, time@, author@),
            ),
            self.end@.len() == 0 && quote_line_free(self@) ==> quote_closing(main@).is_suffix_of(
                quote_part(self@, width, main@, time@, author@),
            ),
    {
        let quote = build_quote_markup(self.start, self.time, self.end);
        let footer = build_footer_markup(self.author, self.title);
        let quote_lines = wrap_lines(
            quote.as_str(),
            width,
            INITIAL_INDENT,
            SUBSEQUENT_INDENT,
            false,
        );
        let footer_lines = wrap_lines(footer.as_str(), width, FOOTER_INDENT, FOOTER_INDENT, false);
        proof {
            let q = quote_lines.deep_view();
            let f = footer_lines.deep_view();
            lemma_markup_line_free(self@);
            assert(line_free(quote@) ==> !quote@.contains('\n'));
            assert(line_free(footer@) ==> !footer@.contains('\n'));
            lemma_coloured_page(q, f, main@, time@, author@);
            lemma_coloured_joined(q, main@, time@, author@);
            lemma_coloured_joined(f, main@, time@, author@);
            reveal_strlit("  \" ");
            reveal_strlit("    ");
            reveal_strlit("        ");
            if quote_plain(self@) {
                lemma_cutting_keeps_plain_words(q, quote@, INITIAL_INDENT@, SUBSEQUENT_INDENT@);
                lemma_unmarked_quote(self.start@, self.time@, self.end@);
                lemma_cutting_escape_free(q, quote@, INITIAL_INDENT@, SUBSEQUENT_INDENT@);
            }
            if footer_plain(self@) {
                lemma_cutting_keeps_plain_words(f, footer@, FOOTER_INDENT@, FOOTER_INDENT@);
                lemma_unmarked_footer(self.author@, self.title@);
                lemma_cutting_escape_free(f, footer@, FOOTER_INDENT@, FOOTER_INDENT@);
            }
            if quote_plain(self@) && footer_plain(self@) {
                lemma_page_shows_its_lines(q, f, main@, time@, author@);
            }
            if self.start@.len() == 0 && quote_line_free(self@) && marker_free(self.time@) {
                assert(self.start@ =~= Seq::<char>::empty());
                lemma_quote_opens(q, self.time@, self.end@, main@, time@, author@);
            }
            if self.end@.len() == 0 && quote_line_free(self@) {
                assert(self.end@ =~= Seq::<char>::empty());
                lemma_quote_closes(q, self.start@, self.time@, main@, time@, author@);
            }
        }
        render(&quote_lines, &footer_lines, main, time, author)
    }
}

} // verus!
