//! Hexadecimal vendor and product identifiers.
use vstd::prelude::*;
use vstd::string::StrSliceExecFns;

verus! {

/// The error of an identifier that is not one to four significant
/// hexadecimal digits, with or without a `0x` prefix.
#[derive(Debug, Clone, Copy, PartialEq, Eq)]
pub struct InvalidIdentifierFormat;

/// The value of a hexadecimal digit, in either case.
pub open spec fn hex_digit(c: char) -> Option<nat> {
    if '0' <= c <= '9' {
        Some((c as nat - '0' as nat) as nat)
    } else if 'a' <= c <= 'f' {
        Some((c as nat - 'a' as nat + 10) as nat)
    } else if 'A' <= c <= 'F' {
        Some((c as nat - 'A' as nat + 10) as nat)
    } else {
        None
    }
}

/// Every character of `s` is a hexadecimal digit.
pub open spec fn all_hex(s: Seq<char>) -> bool {
    forall|i: int| 0 <= i < s.len() ==> hex_digit(#[trigger] s[i]) is Some
}

/// The number that the hexadecimal digits `s` denote, most significant
/// digit first.
pub open spec fn hex_value(s: Seq<char>) -> nat
    decreases s.len(),
{
    if s.len() == 0 {
        0
    } else {
        16 * hex_value(s.drop_last()) + hex_digit(s.last()).unwrap_or(0)
    }
}

/// `s` starts with `0x` or `0X`.
pub open spec fn has_hex_prefix(s: Seq<char>) -> bool {
    s.len() >= 2 && s[0] == '0' && (s[1] == 'x' || s[1] == 'X')
}

/// The digits of an identifier: what follows the prefix where there is
/// one, else the whole text.
pub open spec fn hex_digits_of(s: Seq<char>) -> Seq<char> {
    if has_hex_prefix(s) {
        s.skip(2)
    } else {
        s
    }
}

/// The identifier that `s` denotes: its digits, at least one and all
/// hexadecimal, read in base 16, provided the value fits in 16 bits.
pub open spec fn identifier(s: Seq<char>) -> Option<u16> {
    let digits = hex_digits_of(s);
    if digits.len() > 0 && all_hex(digits) && hex_value(digits) <= u16::MAX {
        Some(hex_value(digits) as u16)
    } else {
        None
    }
}

/// Reading further digits never lowers the value.
pub proof fn lemma_hex_value_grows(s: Seq<char>, k: int)
    requires
        0 <= k <= s.len(),
    ensures
        hex_value(s.take(k)) <= hex_value(s),
    decreases s.len() - k,
{
    if k == s.len() {
        assert(s.take(k) =~= s);
    } else {
        lemma_hex_value_grows(s.drop_last(), k);
        assert(s.drop_last().take(k) =~= s.take(k));
    }
}

/// The value of one hexadecimal digit, or `None` for any other character.
pub fn hex_digit_value(c: char) -> (v: Option<u8>)
    ensures
        v is Some <==> hex_digit(c) is Some,
        v matches Some(d) ==> d as nat == hex_digit(c).unwrap() && d < 16,
{
    if '0' <= c && c <= '9' {
        Some((c as u32 - '0' as u32) as u8)
    } else if 'a' <= c && c <= 'f' {
        Some((c as u32 - 'a' as u32 + 10) as u8)
    } else if 'A' <= c && c <= 'F' {
        Some((c as u32 - 'A' as u32 + 10) as u8)
    } else {
        None
    }
}

/// Reads a vendor or product identifier.
///
/// The text is hexadecimal, in either case, with an optional `0x` or `0X`
/// in front. It is refused where no digit follows the prefix, where any
/// character is not a hexadecimal digit, and where the value does not fit
/// in 16 bits.
pub fn parse_id(text: &str) -> (id: Result<u16, InvalidIdentifierFormat>)
    ensures
        match identifier(text@) {
            Some(v) => id == Ok::<u16, InvalidIdentifierFormat>(v),
            None => id is Err,
        },
{
    let total: usize = text.unicode_len();
    let mut skip: usize = 0;
    if total >= 2 && text.get_char(0) == '0' {
        let second = text.get_char(1);
        if second == 'x' || second == 'X' {
            skip = 2;
        }
    }
    if total == skip {
        return Err(InvalidIdentifierFormat);
    }
    let ghost digits = hex_digits_of(text@);
    let mut value: u32 = 0;
    let mut at: usize = 0;
    for c in it: text.chars()
        invariant
            it.seq() == text@,
            text@.len() == total,
            at == it.index(),
            skip <= total,
            digits == hex_digits_of(text@),
            digits == text@.skip(skip as int),
            at >= skip ==> all_hex(digits.take(at - skip)),
            at >= skip ==> value == hex_value(digits.take(at - skip)),
            at < skip ==> value == 0,
            value <= u16::MAX,
    {
        if at >= skip {
            let ghost k = at - skip;
            proof {
                assert(digits[k] == c);
                assert(digits.take(k + 1).drop_last() =~= digits.take(k));
            }
            match hex_digit_value(c) {
                Some(d) => {
                    let next: u32 = value * 16 + d as u32;
                    if next > 0xFFFF {
                        proof {
                            lemma_hex_value_grows(digits, k + 1);
                        }
                        return Err(InvalidIdentifierFormat);
                    }
                    value = next;
                    proof {
                        assert forall|i: int| 0 <= i < k + 1 implies hex_digit(
                            #[trigger] digits.take(k + 1)[i],
                        ) is Some by {
                            if i < k {
                                assert(digits.take(k + 1)[i] == digits.take(k)[i]);
                            }
                        }
                    }
                },
                None => {
                    return Err(InvalidIdentifierFormat);
                },
            }
        }
        at = at + 1;
    }
    proof {
        assert(digits.take(total - skip) =~= digits);
    }
    Ok(value as u16)
}

} // verus!
