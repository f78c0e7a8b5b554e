//! What follows from wrapped lines being their text cut at word starts.

use crate::wrapping::{is_cut_at, is_cutting, is_word_start, trimmed};
use vstd::prelude::*;

verus! {

/// Whether `text` holds no space.
pub open spec fn space_free(text: Seq<char>) -> bool {
    forall|i: int| 0 <= i < text.len() ==> #[trigger] text[i] != ' '
}

/// The number of characters before the first space of `text`.
pub open spec fn first_word_len(text: Seq<char>) -> nat
    decreases text.len(),
{
    if text.len() > 0 && text[0] != ' ' {
        1 + first_word_len(text.skip(1))
    } else {
        0
    }
}

/// What stands before the first space of `text`: its first word, or nothing
/// where the text begins with a space.
pub open spec fn first_word(text: Seq<char>) -> Seq<char> {
    text.take(first_word_len(text) as int)
}

/// The first word is a part of the text and holds no space.
pub proof fn lemma_first_word(text: Seq<char>)
    ensures
        first_word_len(text) <= text.len(),
        first_word(text).is_prefix_of(text),
        space_free(first_word(text)),
    decreases text.len(),
{
    if text.len() > 0 && text[0] != ' ' {
        lemma_first_word(text.skip(1));
        let rest = first_word(text.skip(1));
        assert forall|i: int| 0 <= i < first_word(text).len() implies #[trigger] first_word(
            text,
        )[i] != ' ' by {
            if i > 0 {
                assert(first_word(text)[i] == rest[i - 1]);
            }
        }
    }
}

/// Trimming takes spaces from the end and nothing else: what is left is the
/// beginning of the text and reaches beyond every character that is no
/// space.
pub proof fn lemma_trimmed(text: Seq<char>)
    ensures
        trimmed(text).is_prefix_of(text),
        forall|i: int| 0 <= i < text.len() && #[trigger] text[i] != ' ' ==> i < trimmed(text).len(),
    decreases text.len(),
{
    if text.len() > 0 && text.last() == ' ' {
        let shorter = text.drop_last();
        lemma_trimmed(shorter);
        assert forall|i: int| 0 <= i < text.len() && #[trigger] text[i] != ' ' implies i
            < trimmed(text).len() by {
            assert(shorter[i] == text[i]);
        }
    }
}

/// The first line begins with its indent and, directly behind it, the
/// beginning of the text as far as it holds no space.
pub proof fn lemma_first_line_begins_with_the_text(
    lines: Seq<Seq<char>>,
    text: Seq<char>,
    initial_indent: Seq<char>,
    subsequent_indent: Seq<char>,
    head: Seq<char>,
)
    requires
        is_cutting(lines, text, initial_indent, subsequent_indent),
        head.is_prefix_of(text),
        space_free(head),
        head.len() > 0,
    ensures
        lines.len() > 0,
        (initial_indent + head).is_prefix_of(lines[0]),
{
    let cuts = choose|cuts: Seq<int>|
        is_cut_at(lines, text, cuts, initial_indent, subsequent_indent);
    if lines.len() == 0 {
        assert(cuts[0] == text.len());
    }
    assert(lines[0] == initial_indent + trimmed(text.subrange(cuts[0], cuts[1])));
    let end = cuts[1];
    // The first piece ends at the end of the text or just behind a space, and
    // so behind `head`, which holds none.
    if lines.len() > 1 {
        assert(lines[1] == subsequent_indent + trimmed(text.subrange(cuts[1], cuts[2])));
        assert(is_word_start(text, end));
        assert(text[end - 1] == ' ');
        if end - 1 < head.len() {
            assert(head[end - 1] == text.subrange(0, head.len() as int)[end - 1]);
        }
    }
    assert(head.len() <= end <= text.len());
    let piece = text.subrange(0, end);
    lemma_trimmed(piece);
    assert(piece[head.len() - 1] == head[head.len() - 1]) by {
        assert(head[head.len() - 1] == text.subrange(0, head.len() as int)[head.len() - 1]);
    }
    assert(head.len() - 1 < trimmed(piece).len());
    assert(head =~= trimmed(piece).subrange(0, head.len() as int)) by {
        assert forall|i: int| 0 <= i < head.len() implies head[i] == trimmed(piece)[i] by {
            assert(head[i] == text.subrange(0, head.len() as int)[i]);
            assert(trimmed(piece)[i] == piece.subrange(0, trimmed(piece).len() as int)[i]);
        }
    }
    assert((initial_indent + head) =~= lines[0].subrange(
        0,
        (initial_indent + head).len() as int,
    ));
}

/// The last line ends with the end of the text as far as it holds no space.
pub proof fn lemma_last_line_ends_with_the_text(
    lines: Seq<Seq<char>>,
    text: Seq<char>,
    initial_indent: Seq<char>,
    subsequent_indent: Seq<char>,
    tail: Seq<char>,
)
    requires
        is_cutting(lines, text, initial_indent, subsequent_indent),
        tail.is_suffix_of(text),
        space_free(tail),
        tail.len() > 0,
    ensures
        lines.len() > 0,
        tail.is_suffix_of(lines.last()),
{
    let cuts = choose|cuts: Seq<int>|
        is_cut_at(lines, text, cuts, initial_indent, subsequent_indent);
    if lines.len() == 0 {
        assert(cuts[0] == text.len());
    }
    let n = lines.len() as int;
    let begin = cuts[n - 1];
    let indent = if n - 1 == 0 {
        initial_indent
    } else {
        subsequent_indent
    };
    assert(lines[n - 1] == indent + trimmed(text.subrange(cuts[n - 1], cuts[n - 1 + 1])));
    let piece = text.subrange(begin, text.len() as int);
    let from = text.len() - tail.len();
    assert forall|i: int| 0 <= i < tail.len() implies text[from + i] == #[trigger] tail[i] by {
        assert(tail[i] == text.subrange(from, text.len() as int)[i]);
    }
    // The last piece begins at the start of the text or just behind a space,
    // and so not inside `tail`, which holds none.
    assert(is_word_start(text, begin));
    if begin > from {
        assert(text[begin - 1] == tail[begin - 1 - from]);
    }
    assert(begin <= from);
    lemma_trimmed(piece);
    assert(piece[piece.len() - 1] == tail[tail.len() - 1]);
    assert(trimmed(piece) =~= piece);
    assert(tail =~= lines.last().subrange(lines.last().len() - tail.len(), lines.last().len() as int));
}

/// The words of `text`, in their order: the runs of characters other than
/// the space, each as long as it can be.
pub open spec fn words(text: Seq<char>) -> Seq<Seq<char>>
    decreases text.len(),
{
    if text.len() == 0 {
        Seq::empty()
    } else {
        let later = words(text.skip(1));
        if text[0] == ' ' {
            later
        } else if text.len() > 1 && text[1] != ' ' {
            // The first character goes before the word that follows it.
            later.update(0, seq![text[0]] + later[0])
        } else {
            seq![seq![text[0]]] + later
        }
    }
}

/// The words of `lines`, read line by line, with the first `first_indent`
/// characters of the first line and the first `later_indent` characters of
/// every other line left out.
pub open spec fn words_of_lines(
    lines: Seq<Seq<char>>,
    first_indent: nat,
    later_indent: nat,
) -> Seq<Seq<char>>
    decreases lines.len(),
{
    if lines.len() == 0 {
        Seq::empty()
    } else {
        words_of_lines(lines.drop_last(), first_indent, later_indent) + words(
            lines.last().skip(
                if lines.len() == 1 {
                    first_indent as int
                } else {
                    later_indent as int
                },
            ),
        )
    }
}

/// A text that begins with a word has a first word.
proof fn lemma_words_nonempty(text: Seq<char>)
    requires
        text.len() > 0,
        text[0] != ' ',
    ensures
        words(text).len() > 0,
    decreases text.len(),
{
    if text.len() > 1 && text[1] != ' ' {
        lemma_words_nonempty(text.skip(1));
    }
}

/// Where a text ends in a space, the words of what follows it come after its
/// own: no word reaches across the joint.
pub proof fn lemma_words_concat(left: Seq<char>, right: Seq<char>)
    requires
        left.len() == 0 || left.last() == ' ',
    ensures
        words(left + right) == words(left) + words(right),
    decreases left.len(),
{
    if left.len() == 0 {
        assert(left + right =~= right);
        assert(words(left) + words(right) =~= words(right));
    } else {
        let whole = left + right;
        let shorter = left.skip(1);
        assert(whole.skip(1) =~= shorter + right);
        assert(whole[0] == left[0]);
        lemma_words_concat(shorter, right);
        if shorter.len() == 0 {
            assert(words(shorter) =~= Seq::<Seq<char>>::empty());
            assert(words(left) =~= Seq::<Seq<char>>::empty());
        } else {
            assert(whole[1] == left[1]);
            assert(shorter[0] == left[1]);
            if left[0] != ' ' && left[1] != ' ' {
                lemma_words_nonempty(shorter);
                let x = words(shorter);
                let y = words(right);
                let word = seq![left[0]] + x[0];
                assert((x + y).update(0, word) =~= x.update(0, word) + y);
            } else if left[0] != ' ' {
                assert(seq![seq![left[0]]] + (words(shorter) + words(right)) =~= (seq![
                    seq![left[0]],
                ] + words(shorter)) + words(right));
            }
        }
    }
}

/// Spaces at the end of a text add no word.
pub proof fn lemma_words_trimmed(text: Seq<char>)
    ensures
        words(trimmed(text)) == words(text),
    decreases text.len(),
{
    if text.len() > 0 && text.last() == ' ' {
        let shorter = text.drop_last();
        lemma_words_trimmed(shorter);
        // A space behind a text adds no word to it.
        lemma_words_spaced(shorter);
        assert(shorter.push(' ') =~= text);
    }
}

/// A space behind a text adds no word to it.
pub proof fn lemma_words_spaced(text: Seq<char>)
    ensures
        words(text.push(' ')) == words(text),
    decreases text.len(),
{
    let longer = text.push(' ');
    if text.len() == 0 {
        assert(longer.skip(1) =~= text);
    } else {
        assert(longer.skip(1) =~= text.skip(1).push(' '));
        lemma_words_spaced(text.skip(1));
        assert(longer[0] == text[0]);
        if text.len() > 1 {
            assert(longer[1] == text[1]);
        } else {
            assert(longer[1] == ' ');
            assert(words(text.skip(1)) =~= Seq::<Seq<char>>::empty());
        }
    }
}

/// The words of the first `count` lines are the words of the text up to the
/// cut behind them.
proof fn lemma_words_up_to(
    lines: Seq<Seq<char>>,
    text: Seq<char>,
    cuts: Seq<int>,
    initial_indent: Seq<char>,
    subsequent_indent: Seq<char>,
    count: int,
)
    requires
        is_cut_at(lines, text, cuts, initial_indent, subsequent_indent),
        0 <= count <= lines.len(),
    ensures
        0 <= cuts[count] <= text.len(),
        words_of_lines(lines.take(count), initial_indent.len(), subsequent_indent.len())
            == words(text.subrange(0, cuts[count])),
    decreases count,
{
    lemma_cuts_in_order(lines, text, cuts, initial_indent, subsequent_indent, count);
    if count == 0 {
        assert(lines.take(0) =~= Seq::<Seq<char>>::empty());
        assert(text.subrange(0, 0) =~= Seq::<char>::empty());
    } else {
        let k = count - 1;
        lemma_words_up_to(lines, text, cuts, initial_indent, subsequent_indent, k);
        lemma_cuts_in_order(lines, text, cuts, initial_indent, subsequent_indent, k);
        let indent = if k == 0 {
            initial_indent
        } else {
            subsequent_indent
        };
        let before = text.subrange(0, cuts[k]);
        let piece = text.subrange(cuts[k], cuts[k + 1]);
        assert(lines[k] == indent + trimmed(piece));
        assert(is_word_start(text, cuts[k]));
        assert(lines.take(count).drop_last() =~= lines.take(k));
        assert(lines.take(count).last() == lines[k]);
        assert(lines[k].skip(indent.len() as int) =~= trimmed(piece));
        lemma_words_trimmed(piece);
        assert(before + piece =~= text.subrange(0, cuts[count]));
        if cuts[k] > 0 {
            assert(before.last() == text[cuts[k] - 1]);
        }
        lemma_words_concat(before, piece);
    }
}

/// The cuts stand in the text, each behind the one before it.
pub proof fn lemma_cuts_in_order(
    lines: Seq<Seq<char>>,
    text: Seq<char>,
    cuts: Seq<int>,
    initial_indent: Seq<char>,
    subsequent_indent: Seq<char>,
    at: int,
)
    requires
        is_cut_at(lines, text, cuts, initial_indent, subsequent_indent),
        0 <= at <= lines.len(),
    ensures
        0 <= cuts[at] <= text.len(),
        at < lines.len() ==> cuts[at] < cuts[at + 1] <= text.len(),
    decreases lines.len() - at,
{
    if at < lines.len() {
        assert(lines[at] == lines[at]);
        lemma_cuts_in_order(lines, text, cuts, initial_indent, subsequent_indent, at + 1);
        assert(is_word_start(text, cuts[at]));
    }
}

/// Wrapping keeps the words: the words of the lines, read line by line
/// behind their indents, are the words of the text, each of them whole, once
/// and in its place.
pub proof fn lemma_cutting_keeps_words(
    lines: Seq<Seq<char>>,
    text: Seq<char>,
    initial_indent: Seq<char>,
    subsequent_indent: Seq<char>,
)
    requires
        is_cutting(lines, text, initial_indent, subsequent_indent),
    ensures
        words_of_lines(lines, initial_indent.len(), subsequent_indent.len()) == words(text),
{
    let cuts = choose|cuts: Seq<int>|
        is_cut_at(lines, text, cuts, initial_indent, subsequent_indent);
    lemma_words_up_to(
        lines,
        text,
        cuts,
        initial_indent,
        subsequent_indent,
        lines.len() as int,
    );
    assert(lines.take(lines.len() as int) =~= lines);
    assert(text.subrange(0, text.len() as int) =~= text);
}

} // verus!
