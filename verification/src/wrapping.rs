//! Word wrapping, which this library leaves to the `textwrap` crate.
//!
//! The crate is used without its optional features and with its splitting
//! of words at hyphens turned off. It then fills each line greedily, takes
//! words to be separated by ASCII spaces and ends a line nowhere else, and
//! counts one column for every character below U+1100, control characters
//! included. A marker therefore takes up a column of its line while the text
//! is wrapped, although the escape sequence that replaces it takes up none
//! on the terminal.

use vstd::prelude::*;

verus! {

/// Whether a line may begin at `at` in `text`: at the start of the text, or
/// at a character that is no space and stands behind a space.
pub open spec fn is_word_start(text: Seq<char>, at: int) -> bool {
    at == 0 || (0 < at < text.len() && text[at] != ' ' && text[at - 1] == ' ')
}

/// `text` without the spaces at its end.
pub open spec fn trimmed(text: Seq<char>) -> Seq<char>
    decreases text.len(),
{
    if text.len() > 0 && text.last() == ' ' {
        trimmed(text.drop_last())
    } else {
        text
    }
}

/// Whether `lines` are `text` cut into pieces at the places `cuts`: the
/// pieces follow each other from the start of the text to its end, each
/// begins at a word start and holds at least one character, and each line is
/// its indent followed by its piece without the spaces at the piece's end.
pub open spec fn is_cut_at(
    lines: Seq<Seq<char>>,
    text: Seq<char>,
    cuts: Seq<int>,
    initial_indent: Seq<char>,
    subsequent_indent: Seq<char>,
) -> bool {
    &&& cuts.len() == lines.len() + 1
    &&& cuts[0] == 0
    &&& cuts[lines.len() as int] == text.len()
    &&& forall|k: int|
        0 <= k < lines.len() ==> {
            &&& cuts[k] < cuts[k + 1]
            &&& is_word_start(text, cuts[k])
            &&& #[trigger] lines[k] == (if k == 0 {
                initial_indent
            } else {
                subsequent_indent
            }) + trimmed(text.subrange(cuts[k], cuts[k + 1]))
        }
}

/// Whether `lines` are `text` cut into pieces at word starts, each piece
/// trimmed and indented. Which word starts are taken is left open.
pub open spec fn is_cutting(
    lines: Seq<Seq<char>>,
    text: Seq<char>,
    initial_indent: Seq<char>,
    subsequent_indent: Seq<char>,
) -> bool {
    exists|cuts: Seq<int>| is_cut_at(lines, text, cuts, initial_indent, subsequent_indent)
}

/// The lines into which `textwrap::wrap` breaks `text` for a line width of
/// `width` columns, the first line starting with `initial_indent` and each
/// later one with `subsequent_indent`, with words found at ASCII spaces and
/// not split at hyphens. With `break_words` unset a word wider than a line
/// is left whole.
///
/// The wrapping algorithm is the crate's own and is not restated here; this
/// name records that the lines are a function of these five values.
pub uninterp spec fn wrapped_lines(
    text: Seq<char>,
    width: usize,
    initial_indent: Seq<char>,
    subsequent_indent: Seq<char>,
    break_words: bool,
) -> Seq<Seq<char>>;

/// Calls `textwrap::wrap` with `textwrap::Options::new(width)`, on which the
/// two indents and the `break_words` flag are set and the splitting of words
/// at hyphens is turned off, and copies each line into an owned `String`.
///
/// Trusted, of the lines returned:
/// - they are `wrapped_lines` of the arguments;
/// - where no word may be broken, and the text is not empty and holds no
///   line break, they are the text cut at word starts. The crate finds the
///   words at runs of spaces, hands whole words to its line filling, and
///   makes each line of its indent and the words of the line as they stand
///   in the text, without the spaces behind the last of them.
/// Where the lines end is not claimed.
#[verifier::external_body]
pub(crate) fn wrap_lines(
    text: &str,
    width: usize,
    initial_indent: &str,
    subsequent_indent: &str,
    break_words: bool,
) -> (lines: Vec<String>)
    ensures
        lines.deep_view() == wrapped_lines(
            text@,
            width,
            initial_indent@,
            subsequent_indent@,
            break_words,
        ),
        !break_words && text@.len() > 0 && !text@.contains('\n') ==> is_cutting(
            lines.deep_view(),
            text@,
            initial_indent@,
            subsequent_indent@,
        ),
{
    let options = textwrap::Options::new(width)
        .initial_indent(initial_indent)
        .subsequent_indent(subsequent_indent)
        .break_words(break_words)
        .word_splitter(textwrap::WordSplitter::NoHyphenation);
    textwrap::wrap(text, options).into_iter().map(|line| line.into_owned()).collect()
}

} // verus!
