//! Numbers as decimal text, and text as sequences of characters.

use vstd::prelude::*;
use vstd::string::StringExecFns;

verus! {

/// The character of a decimal digit.
pub open spec fn digit_char(d: int) -> char {
    if d == 0 {
        '0'
    } else if d == 1 {
        '1'
    } else if d == 2 {
        '2'
    } else if d == 3 {
        '3'
    } else if d == 4 {
        '4'
    } else if d == 5 {
        '5'
    } else if d == 6 {
        '6'
    } else if d == 7 {
        '7'
    } else if d == 8 {
        '8'
    } else {
        '9'
    }
}

/// A number in decimal, without sign or leading zeros.
pub open spec fn decimal(n: nat) -> Seq<char>
    decreases n,
{
    if n < 10 {
        seq![digit_char(n as int)]
    } else {
        decimal(n / 10).push(digit_char((n % 10) as int))
    }
}

/// A byte that is a decimal digit.
pub open spec fn is_digit(b: u8) -> bool {
    48 <= b <= 57
}

/// Every byte is a decimal digit.
pub open spec fn all_digits(bytes: Seq<u8>) -> bool {
    forall|i: int| 0 <= i < bytes.len() ==> is_digit(#[trigger] bytes[i])
}

/// The number that decimal digits spell.
pub open spec fn digits_value(bytes: Seq<u8>) -> nat
    decreases bytes.len(),
{
    if bytes.len() == 0 {
        0
    } else {
        (digits_value(bytes.drop_last()) * 10 + (bytes.last() - 48)) as nat
    }
}

/// The digits of a number text: the text without a leading plus sign.
pub open spec fn unsigned_part(bytes: Seq<u8>) -> Seq<u8> {
    if bytes.len() > 0 && bytes[0] == 43 {
        bytes.drop_first()
    } else {
        bytes
    }
}

/// The number that a text spells: an optional plus sign, then one decimal
/// digit or more, of a value that 64 bits hold. Any other text spells none.
pub open spec fn parsed_u64(bytes: Seq<u8>) -> Option<u64> {
    let digits = unsigned_part(bytes);
    if digits.len() > 0 && all_digits(digits) && digits_value(digits) <= u64::MAX {
        Some(digits_value(digits) as u64)
    } else {
        None
    }
}

/// Dropping digits from the end of a number never makes it larger.
pub proof fn lemma_digits_value_grows(bytes: Seq<u8>, k: int)
    requires
        all_digits(bytes),
        0 <= k <= bytes.len(),
    ensures
        digits_value(bytes.take(k)) <= digits_value(bytes),
    decreases bytes.len(),
{
    if k == bytes.len() {
        assert(bytes.take(k) =~= bytes);
    } else {
        assert(bytes.drop_last().take(k) =~= bytes.take(k));
        assert(is_digit(bytes.last()));
        lemma_digits_value_grows(bytes.drop_last(), k);
    }
}

/// Reads a number from its decimal text.
pub fn parse_u64(bytes: &[u8]) -> (r: Option<u64>)
    ensures
        r == parsed_u64(bytes@),
{
    let ghost digits = unsigned_part(bytes@);
    let first: usize = if bytes.len() > 0 && bytes[0] == 43 {
        1
    } else {
        0
    };
    if first == bytes.len() {
        return None;
    }
    let mut value: u64 = 0;
    let mut i: usize = first;
    while i < bytes.len()
        invariant
            first <= i <= bytes@.len(),
            digits == bytes@.subrange(first as int, bytes@.len() as int),
            digits == unsigned_part(bytes@),
            all_digits(digits.take(i - first)),
            value == digits_value(digits.take(i - first)),
        decreases bytes@.len() - i,
    {
        let b = bytes[i];
        let ghost upto = digits.take(i - first + 1);
        proof {
            assert(upto.drop_last() =~= digits.take(i - first));
            assert(upto.last() == b);
        }
        if b < 48 || b > 57 {
            assert(!is_digit(digits[i - first]));
            return None;
        }
        if value > 1844674407370955161 || (value == 1844674407370955161 && b > 53) {
            proof {
                assert(all_digits(digits) ==> digits_value(digits) > u64::MAX) by {
                    if all_digits(digits) {
                        assert(digits.take(digits.len() as int) =~= digits);
                        assert(digits.take(i - first + 1) =~= upto);
                        lemma_digits_value_grows(digits, i - first + 1);
                    }
                }
            }
            return None;
        }
        value = value * 10 + (b - 48) as u64;
        i = i + 1;
        proof {
            assert forall|j: int| 0 <= j < upto.len() implies is_digit(#[trigger] upto[j]) by {
                if j < upto.len() - 1 {
                    assert(digits.take(i - 1 - first)[j] == upto[j]);
                }
            }
        }
    }
    proof {
        assert(digits.take(i - first) =~= digits);
    }
    Some(value)
}

/// The text of one decimal digit.
fn digit_text(d: u64) -> (s: &'static str)
    requires
        d < 10,
    ensures
        s@ == seq![digit_char(d as int)],
{
    proof {
        reveal_strlit("0");
        reveal_strlit("1");
        reveal_strlit("2");
        reveal_strlit("3");
        reveal_strlit("4");
        reveal_strlit("5");
        reveal_strlit("6");
        reveal_strlit("7");
        reveal_strlit("8");
        reveal_strlit("9");
    }
    let s = if d == 0 {
        "0"
    } else if d == 1 {
        "1"
    } else if d == 2 {
        "2"
    } else if d == 3 {
        "3"
    } else if d == 4 {
        "4"
    } else if d == 5 {
        "5"
    } else if d == 6 {
        "6"
    } else if d == 7 {
        "7"
    } else if d == 8 {
        "8"
    } else {
        "9"
    };
    assert(s@ =~= seq![digit_char(d as int)]);
    s
}

/// Appends a number in decimal to a text.
pub fn append_decimal(text: &mut String, n: u64)
    ensures
        final(text)@ == old(text)@ + decimal(n as nat),
    decreases n,
{
    if n >= 10 {
        append_decimal(text, n / 10);
    }
    text.append(digit_text(n % 10));
    assert(text@ =~= old(text)@ + decimal(n as nat));
}

/// Writes a number in decimal.
pub fn to_decimal(n: u64) -> (s: String)
    ensures
        s@ == decimal(n as nat),
{
    let mut s = String::new();
    append_decimal(&mut s, n);
    assert(s@ =~= decimal(n as nat));
    s
}

/// The characters of a text, in order.
pub fn chars_of(s: &str) -> (v: Vec<char>)
    ensures
        v@ == s@,
{
    let mut v: Vec<char> = Vec::new();
    for c in it: s.chars()
        invariant
            v@ == it.seq().take(it.index() as int),
            it.seq() == s@,
    {
        v.push(c);
    }
    v
}

} // verus!
