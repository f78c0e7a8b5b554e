//! The colour table: sixteen names, each bound to one SGR escape sequence,
//! and the reset sequence for every other name.

use crate::markup::{is_marker, marker_free};
use crate::text::{decimal, digit_char, is_digit, lemma_decimal_is_digits, same_text};
use vstd::prelude::*;

verus! {

/// The recognised colour names: the eight standard colours in SGR order,
/// then their bright variants in the same order.
pub open spec fn colour_names() -> Seq<Seq<char>> {
    seq![
        "black"@,
        "red"@,
        "green"@,
        "yellow"@,
        "blue"@,
        "magenta"@,
        "cyan"@,
        "white"@,
        "bright-black"@,
        "bright-red"@,
        "bright-green"@,
        "bright-yellow"@,
        "bright-blue"@,
        "bright-magenta"@,
        "bright-cyan"@,
        "bright-white"@,
    ]
}

/// Whether `name` is one of the sixteen recognised colour names.
pub open spec fn is_colour_name(name: Seq<char>) -> bool {
    colour_names().contains(name)
}

/// The SGR parameter of the table's entry at `index`: 30 to 37 for the
/// standard foreground colours, 90 to 97 for the bright ones.
pub open spec fn sgr_parameter(index: int) -> nat
    recommends
        0 <= index < 16,
{
    if index < 8 {
        (30 + index) as nat
    } else {
        (82 + index) as nat
    }
}

/// The SGR parameter that `name` selects: that of its table entry, and 0,
/// the reset, for a name the table does not hold.
pub open spec fn colour_number(name: Seq<char>) -> nat {
    if is_colour_name(name) {
        sgr_parameter(colour_names().index_of(name))
    } else {
        0
    }
}

/// The escape sequence `ESC [ n m`.
pub open spec fn sgr(n: nat) -> Seq<char> {
    seq!['\u{1b}', '['] + decimal(n) + seq!['m']
}

/// The escape sequence that ends all colouring.
pub open spec fn reset_code() -> Seq<char> {
    sgr(0)
}

/// The escape sequence that `name` resolves to.
pub open spec fn colour_code(name: Seq<char>) -> Seq<char> {
    sgr(colour_number(name))
}

/// The characters of the names of the table.
proof fn lemma_reveal_names()
    ensures
        colour_names().len() == 16,
        colour_names()[0] =~= seq!['b', 'l', 'a', 'c', 'k'],
        colour_names()[1] =~= seq!['r', 'e', 'd'],
        colour_names()[2] =~= seq!['g', 'r', 'e', 'e', 'n'],
        colour_names()[3] =~= seq!['y', 'e', 'l', 'l', 'o', 'w'],
        colour_names()[4] =~= seq!['b', 'l', 'u', 'e'],
        colour_names()[5] =~= seq!['m', 'a', 'g', 'e', 'n', 't', 'a'],
        colour_names()[6] =~= seq!['c', 'y', 'a', 'n'],
        colour_names()[7] =~= seq!['w', 'h', 'i', 't', 'e'],
        forall|i: int|
            8 <= i < 16 ==> #[trigger] colour_names()[i] =~= seq![
                'b',
                'r',
                'i',
                'g',
                'h',
                't',
                '-',
            ] + colour_names()[i - 8],
{
    reveal_strlit("black");
    reveal_strlit("red");
    reveal_strlit("green");
    reveal_strlit("yellow");
    reveal_strlit("blue");
    reveal_strlit("magenta");
    reveal_strlit("cyan");
    reveal_strlit("white");
    reveal_strlit("bright-black");
    reveal_strlit("bright-red");
    reveal_strlit("bright-green");
    reveal_strlit("bright-yellow");
    reveal_strlit("bright-blue");
    reveal_strlit("bright-magenta");
    reveal_strlit("bright-cyan");
    reveal_strlit("bright-white");
    assert(colour_names()[8] =~= seq!['b', 'r', 'i', 'g', 'h', 't', '-'] + colour_names()[0]);
    assert(colour_names()[9] =~= seq!['b', 'r', 'i', 'g', 'h', 't', '-'] + colour_names()[1]);
    assert(colour_names()[10] =~= seq!['b', 'r', 'i', 'g', 'h', 't', '-'] + colour_names()[2]);
    assert(colour_names()[11] =~= seq!['b', 'r', 'i', 'g', 'h', 't', '-'] + colour_names()[3]);
    assert(colour_names()[12] =~= seq!['b', 'r', 'i', 'g', 'h', 't', '-'] + colour_names()[4]);
    assert(colour_names()[13] =~= seq!['b', 'r', 'i', 'g', 'h', 't', '-'] + colour_names()[5]);
    assert(colour_names()[14] =~= seq!['b', 'r', 'i', 'g', 'h', 't', '-'] + colour_names()[6]);
    assert(colour_names()[15] =~= seq!['b', 'r', 'i', 'g', 'h', 't', '-'] + colour_names()[7]);
}

/// No name stands twice in the table, so each name selects one entry.
pub proof fn lemma_names_distinct()
    ensures
        colour_names().no_duplicates(),
{
    lemma_reveal_names();
    let names = colour_names();
    let prefix = seq!['b', 'r', 'i', 'g', 'h', 't', '-'];
    assert forall|i: int, j: int| 0 <= i < 16 && 0 <= j < 16 && i != j implies names[i]
        != names[j] by {
        let a = if i < 8 { i } else { i - 8 };
        let b = if j < 8 { j } else { j - 8 };
        if (i < 8) == (j < 8) {
            // The same family: the colour words differ in their length or
            // in their first letter.
            assert(names[a].len() != names[b].len() || names[a][0] != names[b][0]);
            if i >= 8 {
                assert(names[i] == prefix + names[a]);
                assert(names[j] == prefix + names[b]);
                assert(names[i].len() == 7 + names[a].len());
                assert(names[j].len() == 7 + names[b].len());
                assert(names[i][7] == names[a][0]);
                assert(names[j][7] == names[b][0]);
            }
        } else {
            // A bright name has a hyphen at position 6; no plain name is
            // that long but "magenta", which ends in a letter.
            let (bright, plain) = if i >= 8 { (i, j) } else { (j, i) };
            assert(names[bright] == prefix + names[bright - 8]);
            assert(names[bright][6] == '-');
            assert(names[plain].len() <= 6 || names[plain][6] == 'a');
        }
    }
}

/// The name at `index` of the table resolves to the sequence with that
/// entry's parameter.
pub proof fn lemma_code_of_entry(index: int)
    requires
        0 <= index < 16,
    ensures
        is_colour_name(colour_names()[index]),
        colour_number(colour_names()[index]) == sgr_parameter(index),
        colour_code(colour_names()[index]) == sgr(sgr_parameter(index)),
{
    lemma_names_distinct();
    let names = colour_names();
    assert(names.len() == 16) by {
        lemma_reveal_names();
    }
    assert(names.contains(names[index]));
    let found = names.index_of(names[index]);
    assert(0 <= found < 16 && names[found] == names[index]);
}

/// The text of the escape sequences with a parameter of one or two digits.
proof fn lemma_sgr_text(tens: nat, units: nat)
    requires
        tens <= 9,
        units <= 9,
    ensures
        tens == 0 ==> sgr(units) =~= seq!['\u{1b}', '[', digit_char(units), 'm'],
        tens > 0 ==> sgr(10 * tens + units) =~= seq![
            '\u{1b}',
            '[',
            digit_char(tens),
            digit_char(units),
            'm',
        ],
{
    if tens > 0 {
        let n = 10 * tens + units;
        assert(n / 10 == tens && n % 10 == units);
        assert(decimal(n) =~= seq![digit_char(tens), digit_char(units)]) by {
            reveal_with_fuel(decimal, 2);
        }
    }
}

/// An escape sequence holds none of the four markers.
pub proof fn lemma_sgr_holds_no_marker(n: nat)
    ensures
        marker_free(sgr(n)),
{
    lemma_decimal_is_digits(n);
    let digits = decimal(n);
    assert forall|i: int| 0 <= i < sgr(n).len() implies !is_marker(#[trigger] sgr(n)[i]) by {
        if 2 <= i < 2 + digits.len() {
            assert(sgr(n)[i] == digits[i - 2]);
            assert(is_digit(digits[i - 2]));
        }
    }
}

/// Resolution is a table lookup with a default. A name of the table never
/// resolves to the reset sequence, two different names of the table never
/// resolve to the same sequence, and every other name resolves to the reset
/// sequence.
pub proof fn lemma_resolution(a: Seq<char>, b: Seq<char>)
    ensures
        is_colour_name(a) ==> colour_code(a) != reset_code(),
        !is_colour_name(a) ==> colour_code(a) == reset_code(),
        is_colour_name(a) && is_colour_name(b) && a != b ==> colour_code(a) != colour_code(b),
{
    lemma_reveal_names();
    lemma_sgr_text(0, 0);
    if is_colour_name(a) {
        let i = colour_names().index_of(a);
        lemma_code_of_entry(i);
        let (tens_a, units_a): (nat, nat) = if i < 8 {
            (3, i as nat)
        } else {
            (9, (i - 8) as nat)
        };
        lemma_sgr_text(tens_a, units_a);
        assert(colour_code(a).len() == 5);
        assert(reset_code().len() == 4);
        if is_colour_name(b) && a != b {
            let j = colour_names().index_of(b);
            lemma_code_of_entry(j);
            let (tens_b, units_b): (nat, nat) = if j < 8 {
                (3, j as nat)
            } else {
                (9, (j - 8) as nat)
            };
            lemma_sgr_text(tens_b, units_b);
            assert(i != j);
            assert(tens_a != tens_b || units_a != units_b);
            assert(colour_code(a)[2] == digit_char(tens_a));
            assert(colour_code(a)[3] == digit_char(units_a));
            assert(colour_code(b)[2] == digit_char(tens_b));
            assert(colour_code(b)[3] == digit_char(units_b));
        }
    }
}

/// The names of the table, written out.
pub proof fn lemma_names_written_out(name: Seq<char>)
    ensures
        is_colour_name(name) <==> (name == "black"@
            || name == "red"@
            || name == "green"@
            || name == "yellow"@
            || name == "blue"@
            || name == "magenta"@
            || name == "cyan"@
            || name == "white"@
            || name == "bright-black"@
            || name == "bright-red"@
            || name == "bright-green"@
            || name == "bright-yellow"@
            || name == "bright-blue"@
            || name == "bright-magenta"@
            || name == "bright-cyan"@
            || name == "bright-white"@),
{
    assert(colour_names().len() == 16);
    assert(colour_names()[0] == "black"@);
    assert(colour_names()[1] == "red"@);
    assert(colour_names()[2] == "green"@);
    assert(colour_names()[3] == "yellow"@);
    assert(colour_names()[4] == "blue"@);
    assert(colour_names()[5] == "magenta"@);
    assert(colour_names()[6] == "cyan"@);
    assert(colour_names()[7] == "white"@);
    assert(colour_names()[8] == "bright-black"@);
    assert(colour_names()[9] == "bright-red"@);
    assert(colour_names()[10] == "bright-green"@);
    assert(colour_names()[11] == "bright-yellow"@);
    assert(colour_names()[12] == "bright-blue"@);
    assert(colour_names()[13] == "bright-magenta"@);
    assert(colour_names()[14] == "bright-cyan"@);
    assert(colour_names()[15] == "bright-white"@);
}

/// A text of five characters that spells `ESC [ tens units m` is the
/// escape sequence of the parameter with these two digits.
proof fn lemma_sgr_spelled(code: Seq<char>, tens: nat, units: nat)
    requires
        1 <= tens <= 9,
        units <= 9,
        code.len() == 5,
        code[0] == '\u{1b}',
        code[1] == '[',
        code[2] == digit_char(tens),
        code[3] == digit_char(units),
        code[4] == 'm',
    ensures
        code == sgr(10 * tens + units),
{
    lemma_sgr_text(tens, units);
    assert(code =~= sgr(10 * tens + units));
}

/// The table, written out: the escape sequence of each of its names, and
/// the reset sequence.
pub proof fn lemma_table_written_out()
    ensures
        colour_code("black"@) == "\u{1b}[30m"@,
        colour_code("red"@) == "\u{1b}[31m"@,
        colour_code("green"@) == "\u{1b}[32m"@,
        colour_code("yellow"@) == "\u{1b}[33m"@,
        colour_code("blue"@) == "\u{1b}[34m"@,
        colour_code("magenta"@) == "\u{1b}[35m"@,
        colour_code("cyan"@) == "\u{1b}[36m"@,
        colour_code("white"@) == "\u{1b}[37m"@,
        colour_code("bright-black"@) == "\u{1b}[90m"@,
        colour_code("bright-red"@) == "\u{1b}[91m"@,
        colour_code("bright-green"@) == "\u{1b}[92m"@,
        colour_code("bright-yellow"@) == "\u{1b}[93m"@,
        colour_code("bright-blue"@) == "\u{1b}[94m"@,
        colour_code("bright-magenta"@) == "\u{1b}[95m"@,
        colour_code("bright-cyan"@) == "\u{1b}[96m"@,
        colour_code("bright-white"@) == "\u{1b}[97m"@,
        reset_code() == "\u{1b}[0m"@,
{
    lemma_code_of_entry(0);
    reveal_strlit("\u{1b}[30m");
    lemma_sgr_spelled("\u{1b}[30m"@, 3, 0);
    lemma_code_of_entry(1);
    reveal_strlit("\u{1b}[31m");
    lemma_sgr_spelled("\u{1b}[31m"@, 3, 1);
    lemma_code_of_entry(2);
    reveal_strlit("\u{1b}[32m");
    lemma_sgr_spelled("\u{1b}[32m"@, 3, 2);
    lemma_code_of_entry(3);
    reveal_strlit("\u{1b}[33m");
    lemma_sgr_spelled("\u{1b}[33m"@, 3, 3);
    lemma_code_of_entry(4);
    reveal_strlit("\u{1b}[34m");
    lemma_sgr_spelled("\u{1b}[34m"@, 3, 4);
    lemma_code_of_entry(5);
    reveal_strlit("\u{1b}[35m");
    lemma_sgr_spelled("\u{1b}[35m"@, 3, 5);
    lemma_code_of_entry(6);
    reveal_strlit("\u{1b}[36m");
    lemma_sgr_spelled("\u{1b}[36m"@, 3, 6);
    lemma_code_of_entry(7);
    reveal_strlit("\u{1b}[37m");
    lemma_sgr_spelled("\u{1b}[37m"@, 3, 7);
    lemma_code_of_entry(8);
    reveal_strlit("\u{1b}[90m");
    lemma_sgr_spelled("\u{1b}[90m"@, 9, 0);
    lemma_code_of_entry(9);
    reveal_strlit("\u{1b}[91m");
    lemma_sgr_spelled("\u{1b}[91m"@, 9, 1);
    lemma_code_of_entry(10);
    reveal_strlit("\u{1b}[92m");
    lemma_sgr_spelled("\u{1b}[92m"@, 9, 2);
    lemma_code_of_entry(11);
    reveal_strlit("\u{1b}[93m");
    lemma_sgr_spelled("\u{1b}[93m"@, 9, 3);
    lemma_code_of_entry(12);
    reveal_strlit("\u{1b}[94m");
    lemma_sgr_spelled("\u{1b}[94m"@, 9, 4);
    lemma_code_of_entry(13);
    reveal_strlit("\u{1b}[95m");
    lemma_sgr_spelled("\u{1b}[95m"@, 9, 5);
    lemma_code_of_entry(14);
    reveal_strlit("\u{1b}[96m");
    lemma_sgr_spelled("\u{1b}[96m"@, 9, 6);
    lemma_code_of_entry(15);
    reveal_strlit("\u{1b}[97m");
    lemma_sgr_spelled("\u{1b}[97m"@, 9, 7);
    assert(reset_code() =~= "\u{1b}[0m"@) by {
        lemma_sgr_text(0, 0);
        reveal_strlit("\u{1b}[0m");
    }
}

/// The word "reset" is no name of the table. It resolves to the reset
/// sequence as every other unknown name does.
pub proof fn lemma_reset_word()
    ensures
        !is_colour_name("reset"@),
        colour_code("reset"@) == reset_code(),
{
    lemma_reveal_names();
    reveal_strlit("reset");
    let word = "reset"@;
    assert forall|i: int| 0 <= i < colour_names().len() implies colour_names()[i] != word by {
        if i >= 8 {
            assert(colour_names()[i].len() == 7 + colour_names()[i - 8].len());
        }
        assert(colour_names()[i].len() != word.len() || colour_names()[i][0] != word[0]);
    }
}

/// Resolves a colour name to its escape sequence.
///
/// Each of the sixteen names of the table gives the sequence of its own
/// entry. Every other text, the empty one and the word "reset" among them,
/// gives the reset sequence.
pub fn get_colour(name: &str) -> (code: &'static str)
    ensures
        code@ == colour_code(name@),
{
    proof {
        lemma_names_written_out(name@);
        lemma_table_written_out();
    }
    if same_text(name, "black") {
        "\u{1b}[30m"
    } else if same_text(name, "red") {
        "\u{1b}[31m"
    } else if same_text(name, "green") {
        "\u{1b}[32m"
    } else if same_text(name, "yellow") {
        "\u{1b}[33m"
    } else if same_text(name, "blue") {
        "\u{1b}[34m"
    } else if same_text(name, "magenta") {
        "\u{1b}[35m"
    } else if same_text(name, "cyan") {
        "\u{1b}[36m"
    } else if same_text(name, "white") {
        "\u{1b}[37m"
    } else if same_text(name, "bright-black") {
        "\u{1b}[90m"
    } else if same_text(name, "bright-red") {
        "\u{1b}[91m"
    } else if same_text(name, "bright-green") {
        "\u{1b}[92m"
    } else if same_text(name, "bright-yellow") {
        "\u{1b}[93m"
    } else if same_text(name, "bright-blue") {
        "\u{1b}[94m"
    } else if same_text(name, "bright-magenta") {
        "\u{1b}[95m"
    } else if same_text(name, "bright-cyan") {
        "\u{1b}[96m"
    } else if same_text(name, "bright-white") {
        "\u{1b}[97m"
    } else {
        "\u{1b}[0m"
    }
}

} // verus!
