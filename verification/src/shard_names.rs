//! The names of shard files: a decimal number, a dot, and an extension.
//!
//! A name is read by its stem, the bytes before its first dot. The stem
//! names a number when it is a run of decimal digits, which one plus sign
//! may precede.
use vstd::prelude::*;
use vstd::string::StringExecFns;
use vstd::string::StringSliceAdditionalSpecFns;
use vstd::utf8::{encode_utf8, is_ascii_chars, is_ascii_chars_encode_utf8};

verus! {

/// The byte of a dot.
pub const DOT: u8 = 0x2e;

/// The byte of a plus sign.
pub const PLUS: u8 = 0x2b;

/// The byte of the digit zero.
pub const ZERO: u8 = 0x30;

/// The byte of the digit nine.
pub const NINE: u8 = 0x39;

/// The number of bytes of `name` before its first dot; all of them when it
/// has none.
pub open spec fn stem_len(name: Seq<u8>) -> nat
    decreases name.len(),
{
    if name.len() == 0 || name[0] == DOT {
        0
    } else {
        1 + stem_len(name.drop_first())
    }
}

/// The bytes of `name` before its first dot.
pub open spec fn name_stem(name: Seq<u8>) -> Seq<u8> {
    name.take(stem_len(name) as int)
}

/// `byte` is a decimal digit.
pub open spec fn is_digit(byte: u8) -> bool {
    ZERO <= byte <= NINE
}

/// Every byte of `digits` is a decimal digit.
pub open spec fn is_digits(digits: Seq<u8>) -> bool {
    forall|i: int| 0 <= i < digits.len() ==> is_digit(#[trigger] digits[i])
}

/// The number that a run of decimal digits spells.
pub open spec fn decimal_value(digits: Seq<u8>) -> nat
    decreases digits.len(),
{
    if digits.len() == 0 {
        0
    } else {
        decimal_value(digits.drop_last()) * 10 + (digits.last() - ZERO) as nat
    }
}

/// The digits of a stem: the stem without the plus sign that may lead it.
pub open spec fn stem_digits(stem: Seq<u8>) -> Seq<u8> {
    if stem.len() > 0 && stem[0] == PLUS {
        stem.drop_first()
    } else {
        stem
    }
}

/// The number that the name of a file gives it, if its stem names one.
pub open spec fn file_number(name: Seq<u8>) -> Option<nat> {
    let digits = stem_digits(name_stem(name));
    if digits.len() > 0 && is_digits(digits) {
        Some(decimal_value(digits))
    } else {
        None
    }
}

/// The number of a file where it is below `limit`, and nothing otherwise.
pub open spec fn file_number_below(name: Seq<u8>, limit: nat) -> Option<usize> {
    match file_number(name) {
        Some(number) => if number < limit && number <= usize::MAX {
            Some(number as usize)
        } else {
            None
        },
        None => None,
    }
}

/// The stem ends at the first dot: no byte before its end is a dot, and
/// the byte at its end, if there is one, is a dot.
pub proof fn lemma_stem_len(name: Seq<u8>)
    ensures
        stem_len(name) <= name.len(),
        forall|i: int| 0 <= i < stem_len(name) ==> name[i] != DOT,
        stem_len(name) < name.len() ==> name[stem_len(name) as int] == DOT,
    decreases name.len(),
{
    if name.len() == 0 || name[0] == DOT {
    } else {
        let rest = name.drop_first();
        lemma_stem_len(rest);
        assert forall|i: int| 0 <= i < stem_len(name) implies name[i] != DOT by {
            if i > 0 {
                assert(name[i] == rest[i - 1]);
            }
        }
        if stem_len(name) < name.len() {
            assert(name[stem_len(name) as int] == rest[stem_len(rest) as int]);
        }
    }
}

/// A position that no dot precedes, and at which the name ends or has a
/// dot, is the end of the stem.
pub proof fn lemma_stem_len_is(name: Seq<u8>, end: int)
    requires
        0 <= end <= name.len(),
        forall|i: int| 0 <= i < end ==> name[i] != DOT,
        end < name.len() ==> name[end] == DOT,
    ensures
        stem_len(name) == end,
{
    lemma_stem_len(name);
    let found = stem_len(name) as int;
    if found < end {
        assert(name[found] == DOT);
    } else if end < found {
        assert(name[end] != DOT);
    }
}

/// A run of digits spells no less than any run it begins with.
pub proof fn lemma_decimal_prefix(digits: Seq<u8>, len: int)
    requires
        is_digits(digits),
        0 <= len <= digits.len(),
    ensures
        decimal_value(digits.take(len)) <= decimal_value(digits),
    decreases digits.len(),
{
    if len == digits.len() {
        assert(digits.take(len) =~= digits);
    } else {
        let shorter = digits.drop_last();
        assert(shorter.take(len) =~= digits.take(len));
        assert(is_digits(shorter));
        lemma_decimal_prefix(shorter, len);
        assert(is_digit(digits.last()));
    }
}

/// Reads the number that the name of a file gives it, where that number is
/// below `limit`.
pub fn extract_file_num(name: &str, limit: usize) -> (number: Option<usize>)
    ensures
        number == file_number_below(name.spec_bytes(), limit as nat),
{
    let bytes: &[u8] = name.as_bytes();
    let mut end: usize = 0;
    while end < bytes.len() && bytes[end] != DOT
        invariant
            end <= bytes@.len(),
            forall|i: int| 0 <= i < end ==> bytes@[i] != DOT,
        decreases bytes@.len() - end,
    {
        end = end + 1;
    }
    proof {
        lemma_stem_len_is(bytes@, end as int);
    }
    let ghost stem = name_stem(bytes@);
    let ghost digits = stem_digits(stem);
    let first: usize = if end > 0 && bytes[0] == PLUS {
        1
    } else {
        0
    };
    assert(digits =~= bytes@.subrange(first as int, end as int));
    if first == end {
        return None;
    }
    let mut i: usize = first;
    let mut value: usize = 0;
    while i < end
        invariant
            first <= i <= end <= bytes@.len(),
            bytes@ == name.spec_bytes(),
            digits == stem_digits(name_stem(bytes@)),
            digits == bytes@.subrange(first as int, end as int),
            is_digits(digits.take(i - first)),
            value == decimal_value(digits.take(i - first)),
            i > first ==> value < limit,
        decreases end - i,
    {
        let byte: u8 = bytes[i];
        let ghost seen = digits.take(i - first);
        let ghost more = digits.take(i + 1 - first);
        assert(digits[i - first] == byte);
        if byte < ZERO || byte > NINE {
            return None;
        }
        proof {
            assert(more.drop_last() =~= seen);
            assert(more.last() == byte);
            assert forall|j: int| 0 <= j < more.len() implies is_digit(#[trigger] more[j]) by {
                if j < seen.len() {
                    assert(more[j] == seen[j]);
                }
            }
            if is_digits(digits) {
                lemma_decimal_prefix(digits, i + 1 - first);
            }
        }
        let digit: usize = (byte - ZERO) as usize;
        if value > (usize::MAX - digit) / 10 {
            return None;
        }
        value = value * 10 + digit;
        if value >= limit {
            return None;
        }
        i = i + 1;
    }
    assert(digits.take(end - first) =~= digits);
    Some(value)
}

/// The character of a decimal digit.
pub open spec fn digit_char(digit: nat) -> char {
    if digit == 0 {
        '0'
    } else if digit == 1 {
        '1'
    } else if digit == 2 {
        '2'
    } else if digit == 3 {
        '3'
    } else if digit == 4 {
        '4'
    } else if digit == 5 {
        '5'
    } else if digit == 6 {
        '6'
    } else if digit == 7 {
        '7'
    } else if digit == 8 {
        '8'
    } else {
        '9'
    }
}

/// The decimal spelling of a number, without leading zeros.
pub open spec fn decimal_chars(number: nat) -> Seq<char>
    decreases number,
{
    if number < 10 {
        seq![digit_char(number)]
    } else {
        decimal_chars(number / 10).push(digit_char(number % 10))
    }
}

/// The extension of a shard file, with its dot.
pub open spec fn shard_extension() -> Seq<char> {
    seq!['.', 'k', 'e', 'k']
}

/// The name of the file of shard number `index`.
pub open spec fn shard_name(index: nat) -> Seq<char> {
    decimal_chars(index) + shard_extension()
}

/// Appends the decimal spelling of `number` to `text`.
fn push_decimal(text: &mut String, number: usize)
    ensures
        final(text)@ == old(text)@ + decimal_chars(number as nat),
    decreases number,
{
    if number >= 10 {
        push_decimal(text, number / 10);
    }
    let ghost before = text@;
    let digit: usize = number % 10;
    proof {
        reveal_strlit("0");
        reveal_strlit("1");
        reveal_strlit("2");
        reveal_strlit("3");
        reveal_strlit("4");
        reveal_strlit("5");
        reveal_strlit("6");
        reveal_strlit("7");
        reveal_strlit("8");
        reveal_strlit("9");
    }
    let glyph: &str = if digit == 0 {
        "0"
    } else if digit == 1 {
        "1"
    } else if digit == 2 {
        "2"
    } else if digit == 3 {
        "3"
    } else if digit == 4 {
        "4"
    } else if digit == 5 {
        "5"
    } else if digit == 6 {
        "6"
    } else if digit == 7 {
        "7"
    } else if digit == 8 {
        "8"
    } else {
        "9"
    };
    assert(glyph@ =~= seq![digit_char(digit as nat)]);
    text.append(glyph);
    proof {
        if number >= 10 {
            assert(text@ =~= old(text)@ + decimal_chars(number as nat));
        } else {
            assert(text@ =~= old(text)@ + decimal_chars(number as nat));
        }
    }
}

/// The name of the file of shard number `index`: its decimal spelling
/// followed by `.kek`.
pub fn shard_file_name(index: usize) -> (name: String)
    ensures
        name@ == shard_name(index as nat),
{
    let mut name = String::new();
    push_decimal(&mut name, index);
    proof {
        reveal_strlit(".kek");
    }
    name.append(".kek");
    assert(name@ =~= shard_name(index as nat));
    name
}

/// The bytes of a run of ASCII characters.
pub open spec fn ascii_bytes(chars: Seq<char>) -> Seq<u8> {
    Seq::new(chars.len(), |i: int| chars[i] as u8)
}

/// The decimal spelling of a number is a run of digits that spells it.
pub proof fn lemma_decimal_chars(number: nat)
    ensures
        decimal_chars(number).len() >= 1,
        is_ascii_chars(decimal_chars(number)),
        is_digits(ascii_bytes(decimal_chars(number))),
        decimal_value(ascii_bytes(decimal_chars(number))) == number,
    decreases number,
{
    let chars = decimal_chars(number);
    let bytes = ascii_bytes(chars);
    if number < 10 {
        assert(bytes.drop_last() =~= Seq::<u8>::empty());
        assert(decimal_value(Seq::<u8>::empty()) == 0);
        assert(bytes.last() == digit_char(number) as u8);
        assert(digit_char(number) as u8 == ZERO + number);
    } else {
        let front = decimal_chars(number / 10);
        lemma_decimal_chars(number / 10);
        assert(bytes.drop_last() =~= ascii_bytes(front));
        assert(bytes.last() == digit_char(number % 10) as u8);
        assert(digit_char(number % 10) as u8 == ZERO + number % 10);
        assert forall|i: int| 0 <= i < chars.len() implies '\0' <= #[trigger] chars[i]
            <= '\u{7f}' by {
            if i < front.len() {
                assert(chars[i] == front[i]);
            }
        }
        assert forall|i: int| 0 <= i < bytes.len() implies is_digit(#[trigger] bytes[i]) by {
            if i < front.len() {
                assert(bytes[i] == ascii_bytes(front)[i]);
            }
        }
    }
}

/// The name that a shard file is given is read back as the number of the
/// shard.
pub proof fn lemma_shard_name_number(index: nat)
    ensures
        file_number(encode_utf8(shard_name(index))) == Some(index),
{
    let digits = decimal_chars(index);
    let name = shard_name(index);
    lemma_decimal_chars(index);
    assert(is_ascii_chars(name)) by {
        assert forall|i: int| 0 <= i < name.len() implies '\0' <= #[trigger] name[i]
            <= '\u{7f}' by {
            if i < digits.len() {
                assert(name[i] == digits[i]);
            } else {
                assert(name[i] == shard_extension()[i - digits.len()]);
            }
        }
    }
    is_ascii_chars_encode_utf8(name);
    let bytes = encode_utf8(name);
    assert(bytes =~= ascii_bytes(name));
    let end = digits.len() as int;
    assert forall|i: int| 0 <= i < end implies bytes[i] != DOT by {
        assert(bytes[i] == ascii_bytes(digits)[i]);
        assert(is_digit(ascii_bytes(digits)[i]));
    }
    assert(name[end] == shard_extension()[0]);
    assert(bytes[end] == DOT);
    lemma_stem_len_is(bytes, end);
    assert(name_stem(bytes) =~= ascii_bytes(digits));
    assert(is_digit(ascii_bytes(digits)[0]));
}

} // verus!
