//! Decimal numbers and separated fields in text.

use vstd::prelude::*;
use vstd::string::*;
use vstd::utf8::is_ascii_chars;

verus! {

/// The character of the decimal digit `d`.
pub open spec fn digit_char(d: nat) -> char {
    if d == 0 {
        '0'
    } else if d == 1 {
        '1'
    } else if d == 2 {
        '2'
    } else if d == 3 {
        '3'
    } else if d == 4 {
        '4'
    } else if d == 5 {
        '5'
    } else if d == 6 {
        '6'
    } else if d == 7 {
        '7'
    } else if d == 8 {
        '8'
    } else {
        '9'
    }
}

/// `n` written in decimal, without sign or leading zeros.
pub open spec fn decimal_text(n: nat) -> Seq<char>
    decreases n,
{
    if n < 10 {
        seq![digit_char(n)]
    } else {
        decimal_text(n / 10).push(digit_char(n % 10))
    }
}

fn digit_str(d: u64) -> (text: &'static str)
    requires
        d < 10,
    ensures
        text@ == seq![digit_char(d as nat)],
{
    proof {
        reveal_strlit("0");
        reveal_strlit("1");
        reveal_strlit("2");
        reveal_strlit("3");
        reveal_strlit("4");
        reveal_strlit("5");
        reveal_strlit("6");
        reveal_strlit("7");
        reveal_strlit("8");
        reveal_strlit("9");
    }
    let text = if d == 0 {
        "0"
    } else if d == 1 {
        "1"
    } else if d == 2 {
        "2"
    } else if d == 3 {
        "3"
    } else if d == 4 {
        "4"
    } else if d == 5 {
        "5"
    } else if d == 6 {
        "6"
    } else if d == 7 {
        "7"
    } else if d == 8 {
        "8"
    } else {
        "9"
    };
    assert(text@ =~= seq![digit_char(d as nat)]);
    text
}

/// Appends the decimal digit `d` to `text`.
pub fn push_digit(text: &mut String, d: u64)
    requires
        d < 10,
    ensures
        final(text)@ == old(text)@.push(digit_char(d as nat)),
{
    text.append(digit_str(d));
    assert(text@ =~= old(text)@.push(digit_char(d as nat)));
}

/// Appends `n` in decimal to `text`.
pub fn push_decimal(text: &mut String, n: u64)
    ensures
        final(text)@ == old(text)@ + decimal_text(n as nat),
    decreases n,
{
    if n >= 10 {
        push_decimal(text, n / 10);
    }
    text.append(digit_str(n % 10));
    assert(text@ =~= old(text)@ + decimal_text(n as nat));
}

/// Whether `b` is an ASCII decimal digit.
pub open spec fn is_digit(b: u8) -> bool {
    48 <= b <= 57
}

/// Whether every byte of `s` is a decimal digit.
pub open spec fn all_digits(s: Seq<u8>) -> bool {
    forall|i: int| 0 <= i < s.len() ==> is_digit(#[trigger] s[i])
}

/// What the digit `b` counts for; 0 for any byte below `'0'`.
pub open spec fn digit_value(b: u8) -> nat {
    if b >= 48 {
        (b - 48) as nat
    } else {
        0
    }
}

/// The number that the digits of `s` write in decimal.
pub open spec fn decimal_value(s: Seq<u8>) -> nat
    decreases s.len(),
{
    if s.len() == 0 {
        0
    } else {
        decimal_value(s.drop_last()) * 10 + digit_value(s.last())
    }
}

/// `s` without a plus sign in front.
pub open spec fn unsigned_part(s: Seq<u8>) -> Seq<u8> {
    if s.len() > 0 && s[0] == 43 {
        s.subrange(1, s.len() as int)
    } else {
        s
    }
}

/// The `u64` that `s` writes: an optional plus sign, then one decimal digit
/// or more, the number no larger than `u64::MAX`. `None` for any other text.
pub open spec fn parse_u64_spec(s: Seq<u8>) -> Option<u64> {
    let digits = unsigned_part(s);
    if digits.len() > 0 && all_digits(digits) && decimal_value(digits) <= u64::MAX {
        Some(decimal_value(digits) as u64)
    } else {
        None
    }
}

/// A number never gets smaller by more digits behind it.
pub proof fn lemma_decimal_value_prefix(s: Seq<u8>, k: int)
    requires
        0 <= k <= s.len(),
    ensures
        decimal_value(s.take(k)) <= decimal_value(s),
    decreases s.len() - k,
{
    if k == s.len() {
        assert(s.take(k) =~= s);
    } else {
        lemma_decimal_value_prefix(s.drop_last(), k);
        assert(s.drop_last().take(k) =~= s.take(k));
    }
}

/// Reads a `u64` from its decimal text.
pub fn parse_u64(bytes: &[u8]) -> (number: Option<u64>)
    ensures
        number == parse_u64_spec(bytes@),
{
    let n = bytes.len();
    let start: usize = if n > 0 && bytes[0] == 43 {
        1
    } else {
        0
    };
    if start == n {
        return None;
    }
    let ghost digits = unsigned_part(bytes@);
    assert(digits =~= bytes@.subrange(start as int, n as int));
    assert(digits.take(0) =~= Seq::<u8>::empty());
    let mut value: u64 = 0;
    let mut i: usize = start;
    while i < n
        invariant
            start <= i <= n,
            n == bytes@.len(),
            digits == unsigned_part(bytes@),
            digits == bytes@.subrange(start as int, n as int),
            all_digits(digits.take(i - start)),
            value == decimal_value(digits.take(i - start)),
        decreases n - i,
    {
        let b = bytes[i];
        let ghost seen = digits.take(i - start);
        let ghost next = digits.take(i + 1 - start);
        proof {
            assert(next.drop_last() =~= seen);
            assert(next.last() == b);
        }
        if b < 48 || b > 57 {
            assert(!is_digit(digits[i - start]));
            return None;
        }
        let d = (b - 48) as u64;
        if value > (u64::MAX - d) / 10 {
            proof {
                lemma_decimal_value_prefix(digits, i + 1 - start);
            }
            return None;
        }
        value = value * 10 + d;
        i += 1;
    }
    assert(digits.take(i - start) =~= digits);
    Some(value)
}

/// The parts of `s` between the separators: one more than there are
/// separators in `s`, from left to right, none holding a separator.
pub open spec fn split_fields(s: Seq<u8>, sep: u8) -> Seq<Seq<u8>>
    decreases s.len(),
{
    if s.len() == 0 {
        seq![Seq::<u8>::empty()]
    } else {
        let before = split_fields(s.drop_last(), sep);
        if s.last() == sep {
            before.push(Seq::<u8>::empty())
        } else {
            before.drop_last().push(before.last().push(s.last()))
        }
    }
}

/// The contents of a list of byte vectors.
pub open spec fn contents(fields: Seq<Vec<u8>>) -> Seq<Seq<u8>> {
    Seq::new(fields.len(), |i: int| fields[i]@)
}

/// Cuts `bytes` at every `sep`.
pub fn split(bytes: &[u8], sep: u8) -> (fields: Vec<Vec<u8>>)
    ensures
        contents(fields@) == split_fields(bytes@, sep),
{
    let mut fields: Vec<Vec<u8>> = Vec::new();
    let mut current: Vec<u8> = Vec::new();
    let n = bytes.len();
    let mut i: usize = 0;
    assert(bytes@.take(0) =~= Seq::<u8>::empty());
    assert(contents(fields@).push(current@) =~= split_fields(bytes@.take(0), sep));
    while i < n
        invariant
            i <= n,
            n == bytes@.len(),
            contents(fields@).push(current@) == split_fields(bytes@.take(i as int), sep),
        decreases n - i,
    {
        let b = bytes[i];
        proof {
            assert(bytes@.take(i + 1).drop_last() =~= bytes@.take(i as int));
            assert(bytes@.take(i + 1).last() == b);
        }
        let ghost before = contents(fields@).push(current@);
        if b == sep {
            fields.push(current);
            current = Vec::new();
            assert(contents(fields@) =~= before);
        } else {
            current.push(b);
            assert(contents(fields@).push(current@) =~= before.drop_last().push(
                before.last().push(b),
            ));
        }
        i += 1;
    }
    let ghost before = contents(fields@).push(current@);
    fields.push(current);
    assert(contents(fields@) =~= before);
    assert(bytes@.take(n as int) =~= bytes@);
    fields
}

/// Whether `wanted` occurs in `text`.
pub fn has_char(text: &str, wanted: char) -> (found: bool)
    ensures
        found == text@.contains(wanted),
{
    let n = text.unicode_len();
    let mut i: usize = 0;
    while i < n
        invariant
            i <= n,
            n == text@.len(),
            forall|j: int| 0 <= j < i ==> text@[j] != wanted,
        decreases n - i,
    {
        if text.get_char(i) == wanted {
            return true;
        }
        i += 1;
    }
    false
}

/// Appends `count` spaces to `text`.
pub fn push_spaces(text: &mut String, count: usize)
    ensures
        final(text)@ == old(text)@ + Seq::new(count as nat, |i: int| ' '),
{
    let mut done: usize = 0;
    assert(text@ =~= old(text)@ + Seq::new(0, |i: int| ' '));
    while done < count
        invariant
            done <= count,
            text@ == old(text)@ + Seq::new(done as nat, |i: int| ' '),
        decreases count - done,
    {
        proof {
            reveal_strlit(" ");
        }
        text.append(" ");
        done += 1;
        assert(text@ =~= old(text)@ + Seq::new(done as nat, |i: int| ' '));
    }
}

/// The bytes of a text of ASCII characters.
pub open spec fn ascii_bytes(text: Seq<char>) -> Seq<u8> {
    Seq::new(text.len(), |i: int| text[i] as u8)
}

/// A number that is written in decimal reads back as itself.
pub proof fn lemma_decimal_reads_back(n: u64)
    ensures
        parse_u64_spec(ascii_bytes(decimal_text(n as nat))) == Some(n),
        is_ascii_chars(decimal_text(n as nat)),
        all_digits(ascii_bytes(decimal_text(n as nat))),
{
    lemma_decimal_digits(n as nat);
    let written = ascii_bytes(decimal_text(n as nat));
    assert(is_digit(written[0]));
    assert(unsigned_part(written) == written);
}

proof fn lemma_decimal_digits(n: nat)
    ensures
        decimal_text(n).len() >= 1,
        is_ascii_chars(decimal_text(n)),
        all_digits(ascii_bytes(decimal_text(n))),
        decimal_value(ascii_bytes(decimal_text(n))) == n,
    decreases n,
{
    let digit = digit_char(n % 10);
    assert(digit as u8 == 48 + n % 10);
    let bytes = ascii_bytes(decimal_text(n));
    if n >= 10 {
        lemma_decimal_digits(n / 10);
        let front = decimal_text(n / 10);
        assert(decimal_text(n) == front.push(digit));
        assert(bytes =~= ascii_bytes(front).push(digit as u8));
        assert(bytes.drop_last() =~= ascii_bytes(front));
        assert(bytes.last() == digit as u8);
        assert(decimal_value(bytes) == decimal_value(bytes.drop_last()) * 10 + digit_value(
            bytes.last(),
        ));
    } else {
        assert(bytes =~= seq![digit as u8]);
        assert(bytes.drop_last() =~= Seq::<u8>::empty());
        assert(decimal_value(bytes.drop_last()) == 0);
        assert(decimal_value(bytes) == decimal_value(bytes.drop_last()) * 10 + digit_value(
            bytes.last(),
        ));
    }
}

/// There is always a field, however short the text.
pub proof fn lemma_split_fields_nonempty(s: Seq<u8>, sep: u8)
    ensures
        split_fields(s, sep).len() >= 1,
    decreases s.len(),
{
    if s.len() > 0 {
        lemma_split_fields_nonempty(s.drop_last(), sep);
    }
}

/// A text without a separator is one field.
pub proof fn lemma_split_fields_one(field: Seq<u8>, sep: u8)
    requires
        !field.contains(sep),
    ensures
        split_fields(field, sep) == seq![field],
    decreases field.len(),
{
    if field.len() > 0 {
        let front = field.drop_last();
        assert forall|i: int| 0 <= i < front.len() implies front[i] != sep by {
            assert(field.contains(field[i]));
        }
        assert(!front.contains(sep));
        lemma_split_fields_one(front, sep);
        assert(field.contains(field.last()));
        assert(front.push(field.last()) =~= field);
        assert(seq![front].drop_last().push(field) =~= seq![field]);
    } else {
        assert(field =~= Seq::<u8>::empty());
    }
}

/// The fields of two texts with a separator between them are the fields of
/// the one and then the fields of the other.
pub proof fn lemma_split_fields_concat(a: Seq<u8>, b: Seq<u8>, sep: u8)
    ensures
        split_fields(a + seq![sep] + b, sep) == split_fields(a, sep) + split_fields(b, sep),
    decreases b.len(),
{
    let whole = a + seq![sep] + b;
    if b.len() == 0 {
        assert(whole.drop_last() =~= a);
        assert(split_fields(a, sep).push(Seq::<u8>::empty()) =~= split_fields(a, sep) + seq![
            Seq::<u8>::empty(),
        ]);
    } else {
        let front = b.drop_last();
        lemma_split_fields_concat(a, front, sep);
        lemma_split_fields_nonempty(front, sep);
        assert(whole.drop_last() =~= a + seq![sep] + front);
        assert(whole.last() == b.last());
        let first = split_fields(a, sep);
        let second = split_fields(front, sep);
        if b.last() == sep {
            assert((first + second).push(Seq::<u8>::empty()) =~= first + second.push(
                Seq::<u8>::empty(),
            ));
        } else {
            assert((first + second).drop_last() =~= first + second.drop_last());
            assert((first + second).last() == second.last());
            assert((first + second.drop_last()).push(second.last().push(b.last())) =~= first
                + second.drop_last().push(second.last().push(b.last())));
        }
    }
}

} // verus!
