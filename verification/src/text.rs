//! Small text helpers shared by the other modules: decimal numerals and
//! joining pieces of text with a separator.

use vstd::prelude::*;
use vstd::string::*;

verus! {

/// The character of a decimal digit.
pub open spec fn digit_char(d: nat) -> char {
    if d == 0 {
        '0'
    } else if d == 1 {
        '1'
    } else if d == 2 {
        '2'
    } else if d == 3 {
        '3'
    } else if d == 4 {
        '4'
    } else if d == 5 {
        '5'
    } else if d == 6 {
        '6'
    } else if d == 7 {
        '7'
    } else if d == 8 {
        '8'
    } else {
        '9'
    }
}

/// The decimal numeral of `n`, without sign or leading zeros.
pub open spec fn decimal(n: nat) -> Seq<char>
    decreases n,
{
    if n < 10 {
        seq![digit_char(n)]
    } else {
        decimal(n / 10).push(digit_char(n % 10))
    }
}

/// The pieces of `parts` in order, with `separator` between neighbours.
pub open spec fn join(parts: Seq<Seq<char>>, separator: Seq<char>) -> Seq<char>
    decreases parts.len(),
{
    if parts.len() == 0 {
        Seq::empty()
    } else if parts.len() == 1 {
        parts[0]
    } else {
        join(parts.drop_last(), separator) + separator + parts.last()
    }
}

/// Joining after one more piece was added at the end.
pub proof fn lemma_join_push(parts: Seq<Seq<char>>, separator: Seq<char>, piece: Seq<char>)
    ensures
        join(parts.push(piece), separator) == if parts.len() == 0 {
            piece
        } else {
            join(parts, separator) + separator + piece
        },
{
    let longer = parts.push(piece);
    assert(longer.drop_last() =~= parts);
    assert(longer.last() == piece);
}

/// Joining after one more piece was added at the front.
pub proof fn lemma_join_prepend(piece: Seq<char>, parts: Seq<Seq<char>>, separator: Seq<char>)
    ensures
        join(seq![piece] + parts, separator) == if parts.len() == 0 {
            piece
        } else {
            piece + separator + join(parts, separator)
        },
    decreases parts.len(),
{
    let all = seq![piece] + parts;
    if parts.len() == 0 {
        assert(all =~= seq![piece]);
    } else {
        assert(all.drop_last() =~= seq![piece] + parts.drop_last());
        assert(all.last() == parts.last());
        lemma_join_prepend(piece, parts.drop_last(), separator);
        if parts.len() == 1 {
            assert(parts.drop_last().len() == 0);
            assert(join(parts, separator) == parts.last());
        } else {
            assert(join(all, separator) =~= piece + separator + join(parts, separator));
        }
    }
}

/// Whether a character is a decimal digit.
pub open spec fn is_digit(c: char) -> bool {
    '0' <= c <= '9'
}

/// The value of a decimal digit.
pub open spec fn digit_value(c: char) -> nat {
    (c as nat - '0' as nat) as nat
}

/// The number that a row of decimal digits stands for.
pub open spec fn digits_value(text: Seq<char>) -> nat
    decreases text.len(),
{
    if text.len() == 0 {
        0
    } else {
        digits_value(text.drop_last()) * 10 + digit_value(text.last())
    }
}

/// Whether a text is a decimal numeral: one or more digits, the first of
/// which is `0` only if it is the only one.
pub open spec fn is_numeral(text: Seq<char>) -> bool {
    &&& text.len() >= 1
    &&& forall|i: int| 0 <= i < text.len() ==> is_digit(#[trigger] text[i])
    &&& (text.len() == 1 || text[0] != '0')
}

/// The decimal numeral of a number is a numeral, and stands for that number.
pub proof fn lemma_decimal_is_numeral(n: nat)
    ensures
        is_numeral(decimal(n)),
        digits_value(decimal(n)) == n,
        n >= 10 ==> decimal(n).len() >= 2,
        n >= 1 ==> decimal(n)[0] != '0',
    decreases n,
{
    if n < 10 {
        assert(decimal(n).drop_last().len() == 0);
        assert(digits_value(decimal(n).drop_last()) == 0);
    } else {
        lemma_decimal_is_numeral(n / 10);
        let shorter = decimal(n / 10);
        let all = decimal(n);
        assert(all.drop_last() =~= shorter);
        assert(all.last() == digit_char(n % 10));
        assert(all[0] == shorter[0]);
        assert forall|i: int| 0 <= i < all.len() implies is_digit(#[trigger] all[i]) by {
            if i < shorter.len() {
                assert(all[i] == shorter[i]);
            }
        }
    }
}

/// A numeral that does not start with `0` stands for a number that is not 0.
proof fn lemma_numeral_is_positive(text: Seq<char>)
    requires
        text.len() >= 1,
        is_digit(text[0]),
        text[0] != '0',
    ensures
        digits_value(text) >= 1,
    decreases text.len(),
{
    if text.len() == 1 {
        assert(digits_value(text.drop_last()) == 0);
    } else {
        let shorter = text.drop_last();
        assert(shorter[0] == text[0]);
        lemma_numeral_is_positive(shorter);
    }
}

/// A numeral is the decimal numeral of the number that it stands for.
pub proof fn lemma_numeral_is_decimal(text: Seq<char>)
    requires
        is_numeral(text),
    ensures
        decimal(digits_value(text)) == text,
    decreases text.len(),
{
    let shorter = text.drop_last();
    let last = text.last();
    assert(is_digit(last));
    if text.len() == 1 {
        assert(digits_value(shorter) == 0);
        assert(decimal(digits_value(text)) =~= text);
    } else {
        assert(shorter[0] == text[0]);
        assert forall|i: int| 0 <= i < shorter.len() implies is_digit(#[trigger] shorter[i]) by {
            assert(shorter[i] == text[i]);
        }
        lemma_numeral_is_decimal(shorter);
        lemma_numeral_is_positive(shorter);
        let value = digits_value(text);
        assert(value / 10 == digits_value(shorter) && value % 10 == digit_value(last));
        assert(digit_char(digit_value(last)) == last);
        assert(decimal(value) =~= text);
    }
}

/// A row of digits stands for at least as much as any of its beginnings.
proof fn lemma_digits_value_grows(text: Seq<char>, k: int)
    requires
        0 <= k <= text.len(),
    ensures
        digits_value(text.take(k)) <= digits_value(text),
    decreases text.len() - k,
{
    if k == text.len() {
        assert(text.take(k) =~= text);
    } else {
        lemma_digits_value_grows(text.drop_last(), k);
        assert(text.drop_last().take(k) =~= text.take(k));
    }
}

/// Reads a decimal numeral: the number that `text` is the decimal numeral
/// of, if there is one that fits; `None` for any other text.
pub fn parse_decimal(text: &str) -> (value: Option<u64>)
    ensures
        match value {
            Some(n) => text@ == decimal(n as nat),
            None => forall|n: nat| n <= u64::MAX ==> text@ != decimal(n),
        },
{
    if !text.is_ascii() {
        assert forall|n: nat| n <= u64::MAX implies text@ != decimal(n) by {
            lemma_decimal_is_numeral(n);
        }
        return None;
    }
    let len = text.unicode_len();
    if len == 0 || (len > 1 && text.get_ascii(0) == 48) {
        assert forall|n: nat| n <= u64::MAX implies text@ != decimal(n) by {
            lemma_decimal_is_numeral(n);
        }
        return None;
    }
    let mut value: u64 = 0;
    let mut i: usize = 0;
    assert(digits_value(text@.take(0)) == 0);
    while i < len
        invariant
            text.is_ascii(),
            len == text@.len(),
            i <= len,
            len == 1 || text@[0] != '0',
            forall|j: int| 0 <= j < i ==> is_digit(#[trigger] text@[j]),
            value == digits_value(text@.take(i as int)),
        decreases len - i,
    {
        let byte = text.get_ascii(i);
        if byte < 48 || byte > 57 {
            assert(!is_digit(text@[i as int]));
            assert forall|n: nat| n <= u64::MAX implies text@ != decimal(n) by {
                lemma_decimal_is_numeral(n);
            }
            return None;
        }
        let digit: u64 = (byte - 48) as u64;
        proof {
            let longer = text@.take(i + 1);
            assert(longer.drop_last() =~= text@.take(i as int));
            assert(longer.last() == text@[i as int]);
            assert(digit_value(text@[i as int]) == digit);
            assert(digits_value(longer) == value * 10 + digit);
        }
        if value > (u64::MAX - digit) / 10 {
            assert forall|n: nat| n <= u64::MAX implies text@ != decimal(n) by {
                lemma_decimal_is_numeral(n);
                lemma_digits_value_grows(text@, i + 1);
            }
            return None;
        }
        value = value * 10 + digit;
        i = i + 1;
    }
    proof {
        assert(text@.take(len as int) =~= text@);
        lemma_numeral_is_decimal(text@);
    }
    Some(value)
}

/// The one-character text of a decimal digit.
fn digit_text(d: u64) -> (text: &'static str)
    requires
        d < 10,
    ensures
        text@ == seq![digit_char(d as nat)],
{
    proof {
        reveal_strlit("0");
        reveal_strlit("1");
        reveal_strlit("2");
        reveal_strlit("3");
        reveal_strlit("4");
        reveal_strlit("5");
        reveal_strlit("6");
        reveal_strlit("7");
        reveal_strlit("8");
        reveal_strlit("9");
    }
    let text = if d == 0 {
        "0"
    } else if d == 1 {
        "1"
    } else if d == 2 {
        "2"
    } else if d == 3 {
        "3"
    } else if d == 4 {
        "4"
    } else if d == 5 {
        "5"
    } else if d == 6 {
        "6"
    } else if d == 7 {
        "7"
    } else if d == 8 {
        "8"
    } else {
        "9"
    };
    assert(text@ =~= seq![digit_char(d as nat)]);
    text
}

/// Writes `n` as a decimal numeral.
pub fn decimal_text(n: u64) -> (text: String)
    ensures
        text@ == decimal(n as nat),
    decreases n,
{
    if n < 10 {
        String::from_str(digit_text(n))
    } else {
        let mut text = decimal_text(n / 10);
        text.append(digit_text(n % 10));
        assert(text@ =~= decimal(n as nat));
        text
    }
}

/// Joins `parts` with `separator` between neighbours.
pub fn join_texts(parts: &Vec<String>, separator: &str) -> (text: String)
    ensures
        text@ == join(texts_view(parts@), separator@),
{
    let mut text = String::new();
    let mut i: usize = 0;
    while i < parts.len()
        invariant
            i <= parts.len(),
            text@ == join(texts_view(parts@).take(i as int), separator@),
        decreases parts.len() - i,
    {
        proof {
            let all = texts_view(parts@);
            assert(all.take(i + 1) =~= all.take(i as int).push(all[i as int]));
            lemma_join_push(all.take(i as int), separator@, all[i as int]);
        }
        if i > 0 {
            text.append(separator);
        }
        text.append(parts[i].as_str());
        assert(text@ =~= join(texts_view(parts@).take(i + 1), separator@));
        i = i + 1;
    }
    assert(texts_view(parts@).take(i as int) =~= texts_view(parts@));
    text
}

/// The texts of a list of strings.
pub open spec fn texts_view(texts: Seq<String>) -> Seq<Seq<char>> {
    Seq::new(texts.len(), |i: int| texts[i]@)
}

} // verus!
