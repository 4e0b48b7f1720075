//! Reading the pieces of a line of input: decimal numbers and the words of
//! a command, and writing a number back in decimal.

use vstd::prelude::*;
use vstd::string::StrSliceExecFns;
use vstd::string::StringSliceAdditionalSpecFns;
use vstd::string::StringExecFns;
use vstd::utf8::encode_utf8_decode_utf8;

verus! {

/// Whether `c` is one of the ten decimal digits.
pub open spec fn is_digit(c: char) -> bool {
    '0' <= c <= '9'
}

/// The number that the digit `c` stands for.
pub open spec fn digit_value(c: char) -> nat {
    (c as nat - '0' as nat) as nat
}

/// The number that a row of digits stands for, read in base ten. The empty
/// row stands for zero.
pub open spec fn digits_value(digits: Seq<char>) -> nat
    decreases digits.len(),
{
    if digits.len() == 0 {
        0
    } else {
        digits_value(digits.drop_last()) * 10 + digit_value(digits.last())
    }
}

/// Whether `text` consists of decimal digits only.
pub open spec fn all_digits(text: Seq<char>) -> bool {
    forall|i: int| 0 <= i < text.len() ==> is_digit(#[trigger] text[i])
}

/// `text` without the plus sign that may lead a number.
pub open spec fn unsigned_part(text: Seq<char>) -> Seq<char> {
    if text.len() > 0 && text[0] == '+' {
        text.drop_first()
    } else {
        text
    }
}

/// The number written in `text`, if `text` is a number: at least one
/// decimal digit, with at most one plus sign in front and nothing else
/// around, not even a blank.
pub open spec fn number_of(text: Seq<char>) -> Option<nat> {
    let digits = unsigned_part(text);
    if digits.len() > 0 && all_digits(digits) {
        Some(digits_value(digits))
    } else {
        None
    }
}

/// The number written in `text`, if there is one and the machine can hold it.
pub open spec fn machine_number_of(text: Seq<char>) -> Option<u64> {
    match number_of(text) {
        Some(n) if n <= u64::MAX => Some(n as u64),
        _ => None,
    }
}

/// A row of digits stands for at least as much as any of its beginnings.
proof fn lemma_digits_value_grows(digits: Seq<char>, k: int)
    requires
        0 <= k <= digits.len(),
    ensures
        digits_value(digits.take(k)) <= digits_value(digits),
    decreases digits.len() - k,
{
    if k == digits.len() {
        assert(digits.take(k) == digits);
    } else {
        lemma_digits_value_grows(digits.drop_last(), k);
        assert(digits.drop_last().take(k) == digits.take(k));
    }
}

/// Reads the number written in `text`.
pub fn parse_number(text: &str) -> (number: Option<u64>)
    ensures
        number == machine_number_of(text@),
{
    let length = text.unicode_len();
    let mut value: u64 = 0;
    let mut seen: usize = 0;
    let mut signed = false;
    for c in it: text.chars()
        invariant
            it.seq() == text@,
            length == text@.len(),
            seen == it.index(),
            seen <= length,
            signed == (seen > 0 && text@[0] == '+'),
            all_digits(unsigned_part(text@.take(seen as int))),
            value == digits_value(unsigned_part(text@.take(seen as int))),
    {
        let ghost before = unsigned_part(text@.take(seen as int));
        let ghost after = unsigned_part(text@.take(seen + 1));
        if seen == 0 && c == '+' {
            signed = true;
        } else {
            assert(after == before.push(c));
            assert(after.drop_last() == before);
            if !('0' <= c && c <= '9') {
                proof {
                    let digits = unsigned_part(text@);
                    let at = seen - if signed { 1int } else { 0int };
                    assert(digits[at] == c);
                }
                return None;
            }
            let digit: u64 = (c as u32 - '0' as u32) as u64;
            let grown = match value.checked_mul(10) {
                Some(tenfold) => tenfold.checked_add(digit),
                None => None,
            };
            match grown {
                Some(sum) => {
                    value = sum;
                },
                None => {
                    proof {
                        let digits = unsigned_part(text@);
                        let upto = seen + 1 - if signed { 1int } else { 0int };
                        assert(digits.take(upto) == after);
                        lemma_digits_value_grows(digits, upto);
                    }
                    return None;
                },
            }
        }
        seen = seen + 1;
    }
    assert(text@.take(seen as int) == text@);
    if (signed && seen == 1) || seen == 0 {
        None
    } else {
        Some(value)
    }
}

/// The character that writes the digit `d`.
pub open spec fn digit_char(d: nat) -> char {
    ('0' as nat + d) as char
}

/// `n` written in base ten, without a sign and without leading zeros.
pub open spec fn decimal_digits(n: nat) -> Seq<char>
    decreases n,
{
    if n < 10 {
        seq![digit_char(n)]
    } else {
        decimal_digits(n / 10).push(digit_char(n % 10))
    }
}

/// What is written by `decimal_digits` is read back by `number_of` as the
/// same number.
pub proof fn lemma_decimal_round_trip(n: nat)
    ensures
        number_of(decimal_digits(n)) == Some(n),
        all_digits(decimal_digits(n)),
        decimal_digits(n).len() > 0,
    decreases n,
{
    let written = decimal_digits(n);
    if n < 10 {
        assert(digits_value(written) == n) by {
            reveal_with_fuel(digits_value, 2);
        }
    } else {
        lemma_decimal_round_trip(n / 10);
        assert(written.drop_last() == decimal_digits(n / 10));
    }
}

/// Writes `n` in base ten at the end of `text`.
pub fn append_decimal(text: &mut String, n: u64)
    ensures
        final(text)@ == old(text)@ + decimal_digits(n as nat),
    decreases n,
{
    if n >= 10 {
        append_decimal(text, n / 10);
    }
    let d: usize = (n % 10) as usize;
    proof {
        reveal_strlit("0123456789");
    }
    let digit = "0123456789".substring_ascii(d, d + 1);
    text.append(digit);
}

/// Whether two texts are the same, character by character.
pub fn same_text(left: &str, right: &str) -> (same: bool)
    ensures
        same == (left@ == right@),
{
    let a = left.as_bytes();
    let b = right.as_bytes();
    proof {
        encode_utf8_decode_utf8(left@);
        encode_utf8_decode_utf8(right@);
    }
    if a.len() != b.len() {
        return false;
    }
    for i in 0..a.len()
        invariant
            a@.len() == b@.len(),
            a@ == left.spec_bytes(),
            b@ == right.spec_bytes(),
            left@ == right@ ==> left.spec_bytes() == right.spec_bytes(),
            forall|j: int| 0 <= j < i ==> a@[j] == b@[j],
    {
        if a[i] != b[i] {
            return false;
        }
    }
    assert(a@ =~= b@);
    true
}

/// The words of `line`: the pieces that its blanks separate, in order. Each
/// single blank separates, so a line with `k` blanks has `k + 1` words, and
/// a word is empty where two blanks meet or where the line begins or ends
/// with one.
pub open spec fn words(line: Seq<char>) -> Seq<Seq<char>>
    decreases line.len(),
{
    if line.len() == 0 {
        seq![Seq::empty()]
    } else {
        let before = words(line.drop_last());
        if line.last() == ' ' {
            before.push(Seq::empty())
        } else {
            before.drop_last().push(before.last().push(line.last()))
        }
    }
}

/// Words put back into one line, with a single blank between neighbours.
pub open spec fn joined(pieces: Seq<Seq<char>>) -> Seq<char>
    decreases pieces.len(),
{
    if pieces.len() == 0 {
        Seq::empty()
    } else if pieces.len() == 1 {
        pieces[0]
    } else {
        joined(pieces.drop_last()) + seq![' '] + pieces.last()
    }
}

/// A line has at least one word, no word holds a blank, and the words
/// joined by blanks give the line back.
pub proof fn lemma_words_rejoin(line: Seq<char>)
    ensures
        words(line).len() >= 1,
        forall|i: int, j: int|
            0 <= i < words(line).len() && 0 <= j < words(line)[i].len() ==> words(line)[i][j]
                != ' ',
        joined(words(line)) == line,
    decreases line.len(),
{
    if line.len() > 0 {
        let shorter = line.drop_last();
        lemma_words_rejoin(shorter);
        assert(line == shorter.push(line.last()));
        if line.last() == ' ' {
            assert(words(line).drop_last() == words(shorter));
        } else if words(shorter).len() > 1 {
            assert(words(line).drop_last() == words(shorter).drop_last());
        }
    }
}

/// A line has at least as many words as any of its beginnings.
proof fn lemma_word_count_grows(line: Seq<char>, k: int)
    requires
        0 <= k <= line.len(),
    ensures
        1 <= words(line.take(k)).len() <= words(line).len(),
    decreases line.len() - k,
{
    if k == line.len() {
        assert(line.take(k) == line);
        lemma_words_rejoin(line);
    } else {
        lemma_word_count_grows(line.drop_last(), k);
        assert(line.drop_last().take(k) == line.take(k));
    }
}

/// Splits `line` into its words, unless there are more than `limit` of them.
pub fn split_words<'a>(line: &'a str, limit: usize) -> (pieces: Option<Vec<&'a str>>)
    ensures
        pieces is Some <==> words(line@).len() <= limit,
        pieces matches Some(found) ==> {
            &&& found@.len() == words(line@).len()
            &&& forall|i: int| 0 <= i < found@.len() ==> (#[trigger] found@[i])@ == words(line@)[i]
        },
{
    proof {
        lemma_word_count_grows(line@, 0);
    }
    if limit == 0 {
        return None;
    }
    let length = line.unicode_len();
    let mut found: Vec<&'a str> = Vec::new();
    let mut start: usize = 0;
    let mut at: usize = 0;
    for c in it: line.chars()
        invariant
            it.seq() == line@,
            length == line@.len(),
            at == it.index(),
            start <= at <= length,
            found@.len() + 1 <= limit,
            words(line@.take(at as int)).len() == found@.len() + 1,
            forall|i: int|
                0 <= i < found@.len() ==> (#[trigger] found@[i])@ == words(line@.take(at as int))[i],
            words(line@.take(at as int)).last() == line@.subrange(start as int, at as int),
    {
        assert(line@.take(at + 1).drop_last() == line@.take(at as int));
        if c == ' ' {
            if found.len() + 1 >= limit {
                proof {
                    lemma_word_count_grows(line@, at + 1);
                }
                return None;
            }
            found.push(line.substring_char(start, at));
            start = at + 1;
        }
        at = at + 1;
    }
    assert(line@.take(at as int) == line@);
    found.push(line.substring_char(start, at));
    Some(found)
}

} // verus!
