//! Text as the viewers measure and print it: lines, decimal numbers and the
//! lossy decoding of bytes.

use bstr::ByteSlice;
use vstd::prelude::*;
use vstd::utf8::{decode_utf8, valid_utf8};

verus! {

/// The byte that ends a line.
pub const NEWLINE: u8 = 10;

/// How often `x` occurs in `s`.
pub open spec fn occurrences<T>(s: Seq<T>, x: T) -> nat
    decreases s.len(),
{
    if s.len() == 0 {
        0
    } else {
        occurrences(s.drop_last(), x) + (if s.last() == x {
            1nat
        } else {
            0nat
        })
    }
}

/// The number of lines of `s`: one for every newline, and one for what follows
/// the last newline unless nothing does.
pub open spec fn line_count<T>(s: Seq<T>, newline: T) -> nat {
    occurrences(s, newline) + (if s.len() > 0 && s.last() != newline {
        1nat
    } else {
        0nat
    })
}

/// The rows that a text takes on the screen. An empty text still takes one row.
pub open spec fn text_height<T>(s: Seq<T>, newline: T) -> nat {
    if s.len() == 0 {
        1
    } else {
        line_count(s, newline)
    }
}

/// The characters that `bytes` stands for when invalid UTF-8 is replaced by
/// U+FFFD, as `bstr::ByteSlice::to_str_lossy` decodes it.
pub uninterp spec fn lossy_utf8(bytes: Seq<u8>) -> Seq<char>;

/// The text that bytes are shown as: the characters that they encode, or the
/// lossy decoding of what is no valid UTF-8.
pub open spec fn shown_text(bytes: Seq<u8>) -> Seq<char> {
    if valid_utf8(bytes) {
        decode_utf8(bytes)
    } else {
        lossy_utf8(bytes)
    }
}

/// Calls `bstr::ByteSlice::to_str_lossy`.
///
/// Trusted: the result is `lossy_utf8` of the bytes; valid UTF-8 is decoded as
/// it stands; and since only bytes that are no ASCII characters are ever
/// replaced, and each replacement leaves a character behind, the text is empty
/// exactly when there are no bytes, and has as many lines as the bytes have.
#[verifier::external_body]
pub(crate) fn to_str_lossy(bytes: &Vec<u8>) -> (text: String)
    ensures
        text@ == lossy_utf8(bytes@),
        valid_utf8(bytes@) ==> text@ == decode_utf8(bytes@),
        text@.len() == 0 <==> bytes@.len() == 0,
        line_count(text@, '\n') == line_count(bytes@, NEWLINE),
{
    bytes.to_str_lossy().into_owned()
}

/// Calls `ratatui::text::Text::raw`, then `Text::height` on its result.
///
/// Trusted: the text has one row for each line of the string, in the sense of
/// `str::lines`, and one row if the string is empty.
#[verifier::external_body]
pub(crate) fn raw_text_height(text: &str) -> (height: usize)
    ensures
        height == text_height(text@, '\n'),
{
    ratatui::text::Text::raw(text).height()
}

/// The character of a decimal digit.
pub open spec fn digit(d: nat) -> char {
    (48 + d) as char
}

/// `n` in decimal notation, without leading zeros.
pub open spec fn decimal(n: nat) -> Seq<char>
    decreases n,
{
    if n < 10 {
        seq![digit(n)]
    } else {
        decimal(n / 10).push(digit(n % 10))
    }
}

fn digit_str(d: usize) -> (s: &'static str)
    requires
        d < 10,
    ensures
        s@ == seq![digit(d as nat)],
{
    proof {
        reveal_strlit("0");
        reveal_strlit("1");
        reveal_strlit("2");
        reveal_strlit("3");
        reveal_strlit("4");
        reveal_strlit("5");
        reveal_strlit("6");
        reveal_strlit("7");
        reveal_strlit("8");
        reveal_strlit("9");
    }
    match d {
        0 => "0",
        1 => "1",
        2 => "2",
        3 => "3",
        4 => "4",
        5 => "5",
        6 => "6",
        7 => "7",
        8 => "8",
        _ => "9",
    }
}

/// `n` in decimal notation.
pub fn decimal_string(n: usize) -> (s: String)
    ensures
        s@ == decimal(n as nat),
    decreases n,
{
    if n < 10 {
        digit_str(n).to_owned()
    } else {
        let mut s = decimal_string(n / 10);
        s.append(digit_str(n % 10));
        proof {
            assert(decimal((n / 10) as nat) + seq![digit((n % 10) as nat)] =~= decimal(n as nat));
        }
        s
    }
}

/// Different numbers are written differently.
pub proof fn lemma_decimal_injective(a: nat, b: nat)
    requires
        decimal(a) == decimal(b),
    ensures
        a == b,
    decreases a,
{
    if a >= 10 && b >= 10 {
        let x = decimal(a / 10);
        let y = decimal(b / 10);
        assert(x == decimal(a).drop_last());
        assert(y == decimal(b).drop_last());
        assert(decimal(a).last() == digit(a % 10));
        assert(decimal(b).last() == digit(b % 10));
        assert(digit(a % 10) as int == 48 + a % 10);
        assert(digit(b % 10) as int == 48 + b % 10);
        lemma_decimal_injective(a / 10, b / 10);
    } else if a < 10 && b < 10 {
        assert(decimal(a)[0] == digit(a));
        assert(decimal(b)[0] == digit(b));
        assert(digit(a) as int == 48 + a);
        assert(digit(b) as int == 48 + b);
    } else if a >= 10 {
        lemma_decimal_first(a / 10);
        assert(decimal(a).len() == decimal(a / 10).len() + 1);
        assert(decimal(b).len() == 1);
    } else {
        lemma_decimal_first(b / 10);
        assert(decimal(b).len() == decimal(b / 10).len() + 1);
        assert(decimal(a).len() == 1);
    }
}

/// The notation of a number starts with a digit.
pub proof fn lemma_decimal_first(n: nat)
    ensures
        decimal(n).len() > 0,
        '0' <= decimal(n)[0] <= '9',
    decreases n,
{
    if n < 10 {
        assert(digit(n) as int == 48 + n);
    } else {
        lemma_decimal_first(n / 10);
        assert(decimal(n)[0] == decimal(n / 10)[0]);
    }
}

/// The number that digits stand for, read from left to right.
pub open spec fn digits_value(digits: Seq<char>) -> int
    decreases digits.len(),
{
    if digits.len() == 0 {
        0
    } else {
        10 * digits_value(digits.drop_last()) + (digits.last() as int - '0' as int)
    }
}

/// Decimal notation is made of digits that stand for the number, and begins
/// with a zero only for zero.
pub proof fn law_decimal_notation(n: nat)
    ensures
        digits_value(decimal(n)) == n,
        decimal(n).len() > 0,
        forall|i: int| 0 <= i < decimal(n).len() ==> '0' <= #[trigger] decimal(n)[i] <= '9',
        decimal(n)[0] == '0' ==> n == 0,
    decreases n,
{
    if n < 10 {
        assert(digit(n) as int == 48 + n);
        assert(decimal(n).drop_last() =~= Seq::empty());
        assert(digits_value(decimal(n).drop_last()) == 0);
    } else {
        law_decimal_notation(n / 10);
        assert(digit(n % 10) as int == 48 + n % 10);
        assert(decimal(n).drop_last() =~= decimal(n / 10));
        assert(decimal(n)[0] == decimal(n / 10)[0]);
    }
}

/// The lines of a text are counted by their newlines: text that begins a new
/// line adds its own lines to those before, and a line that is not ended still
/// counts.
pub proof fn law_lines<T>(s: Seq<T>, line: Seq<T>, newline: T)
    requires
        s.len() == 0 || s.last() == newline,
        !line.contains(newline),
    ensures
        line_count(Seq::<T>::empty(), newline) == 0,
        line_count(s + line + seq![newline], newline) == line_count(s, newline) + 1,
        line.len() > 0 ==> line_count(s + line, newline) == line_count(s, newline) + 1,
{
    lemma_occurrences_in_line(s, line, newline);
    let ended = s + line + seq![newline];
    assert(ended.drop_last() =~= s + line);
    if line.len() > 0 {
        assert((s + line).last() == line.last());
        assert(line.contains(line.last()));
    }
}

proof fn lemma_occurrences_in_line<T>(s: Seq<T>, line: Seq<T>, newline: T)
    requires
        !line.contains(newline),
    ensures
        occurrences(s + line, newline) == occurrences(s, newline),
    decreases line.len(),
{
    if line.len() > 0 {
        let rest = line.drop_last();
        assert forall|x: T| rest.contains(x) implies line.contains(x) by {
            let i = choose|i: int| 0 <= i < rest.len() && rest[i] == x;
            assert(line[i] == x);
        }
        lemma_occurrences_in_line(s, rest, newline);
        assert((s + line).drop_last() =~= s + rest);
        assert(line.contains(line.last()));
        assert((s + line).last() == line.last());
    } else {
        assert(s + line =~= s);
    }
}

} // verus!
