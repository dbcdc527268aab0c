//! Functions of the standard library on which the verified code relies, with
//! the contracts that it takes on trust.

use vstd::prelude::*;
use vstd::utf8::{encode_utf8, is_ascii_chars, valid_utf8};

verus! {

/// The error of `String::from_utf8`; nothing of it is looked at.
#[verifier::external_type_specification]
#[verifier::external_body]
pub struct ExFromUtf8Error(std::string::FromUtf8Error);

/// The error of `u8::from_str_radix`; nothing of it is looked at.
#[verifier::external_type_specification]
#[verifier::external_body]
pub struct ExParseIntError(std::num::ParseIntError);

/// `String::push` appends one character to the end of the string.
pub assume_specification[ String::push ](s: &mut String, c: char)
    ensures
        final(s)@ == old(s)@.push(c),
;

/// `String::from_utf8` accepts exactly the well-formed UTF-8 byte sequences,
/// and the string that it returns is the one those bytes encode.
pub assume_specification[ String::from_utf8 ](vec: Vec<u8>) -> (res: Result<
    String,
    std::string::FromUtf8Error,
>)
    ensures
        res is Ok <==> valid_utf8(vec@),
        res matches Ok(s) ==> encode_utf8(s@) == vec@,
;

/// The characters with the Unicode property `White_Space`.
pub open spec fn is_white_space(c: char) -> bool {
    ||| '\u{9}' <= c <= '\u{D}'
    ||| c == '\u{20}'
    ||| c == '\u{85}'
    ||| c == '\u{A0}'
    ||| c == '\u{1680}'
    ||| '\u{2000}' <= c <= '\u{200A}'
    ||| c == '\u{2028}'
    ||| c == '\u{2029}'
    ||| c == '\u{202F}'
    ||| c == '\u{205F}'
    ||| c == '\u{3000}'
}

/// `char::is_whitespace` tells whether a character has the Unicode property
/// `White_Space`; the property's characters are listed in [`is_white_space`].
pub assume_specification[ char::is_whitespace ](c: char) -> (b: bool)
    ensures
        b == is_white_space(c),
;

/// An ASCII letter in lower case; any other character unchanged.
pub open spec fn ascii_lower(c: char) -> char {
    if 'A' <= c <= 'Z' {
        (c as u32 + 32) as char
    } else {
        c
    }
}

/// An ASCII letter in upper case; any other character unchanged.
pub open spec fn ascii_upper(c: char) -> char {
    if 'a' <= c <= 'z' {
        (c as u32 - 32) as char
    } else {
        c
    }
}

/// What `str::to_uppercase` makes of a text.
pub uninterp spec fn uppercase(text: Seq<char>) -> Seq<char>;

/// What `str::to_lowercase` makes of a text.
pub uninterp spec fn lowercase(text: Seq<char>) -> Seq<char>;

/// Whether a text holds none of the letters `a` to `z`.
pub open spec fn no_lower(s: Seq<char>) -> bool {
    forall|i: int| 0 <= i < s.len() ==> !('a' <= #[trigger] s[i] <= 'z')
}

/// `str::to_uppercase` maps a text by Unicode's rules for upper case. The
/// result is a function of the text alone, none of the letters `a` to `z` is
/// left in it, and on ASCII text it is the text with these letters replaced by
/// `A` to `Z`.
pub assume_specification[ str::to_uppercase ](s: &str) -> (res: String)
    ensures
        res@ == uppercase(s@),
        no_lower(res@),
        is_ascii_chars(s@) ==> res@ == s@.map_values(|c: char| ascii_upper(c)),
;

/// `str::to_lowercase` maps a text by Unicode's rules for lower case. The
/// result is a function of the text alone, and on ASCII text it is the text
/// with the letters `A` to `Z` replaced by `a` to `z`.
pub assume_specification[ str::to_lowercase ](s: &str) -> (res: String)
    ensures
        res@ == lowercase(s@),
        is_ascii_chars(s@) ==> res@ == s@.map_values(|c: char| ascii_lower(c)),
;

/// The value of a character as a digit: `0` to `9`, and from ten on the
/// letters of either case; 99 where the character is no digit in any base.
pub open spec fn digit_value(c: char) -> int {
    if '0' <= c <= '9' {
        c as int - '0' as int
    } else if 'a' <= c <= 'z' {
        c as int - 'a' as int + 10
    } else if 'A' <= c <= 'Z' {
        c as int - 'A' as int + 10
    } else {
        99
    }
}

/// The number that a run of digits stands for.
pub open spec fn number_value(digits: Seq<char>, radix: int) -> int
    decreases digits.len(),
{
    if digits.len() == 0 {
        0
    } else {
        number_value(digits.drop_last(), radix) * radix + digit_value(digits.last())
    }
}

/// Whether the characters are one digit or more, each below the base.
pub open spec fn is_number(digits: Seq<char>, radix: int) -> bool {
    &&& digits.len() > 0
    &&& forall|i: int| 0 <= i < digits.len() ==> digit_value(#[trigger] digits[i]) < radix
}

/// A text without one leading plus sign.
pub open spec fn without_plus(s: Seq<char>) -> Seq<char> {
    if s.len() > 0 && s[0] == '+' {
        s.skip(1)
    } else {
        s
    }
}

/// The number that a text gives in a base: an optional `+`, then digits of
/// the base, at least one and nothing else. `None` for any other text.
pub open spec fn read_number(s: Seq<char>, radix: int) -> Option<int> {
    if is_number(without_plus(s), radix) {
        Some(number_value(without_plus(s), radix))
    } else {
        None
    }
}

/// Whether a text gives a number from 0 to 255 in a base.
pub open spec fn reads_as_byte(s: Seq<char>, radix: int) -> bool {
    read_number(s, radix) matches Some(n) && n <= 255
}

/// `u8::from_str_radix` reads a number as [`read_number`] says, and fails on
/// any other text and on a number above 255. It panics outside bases 2 to 36.
pub assume_specification[ u8::from_str_radix ](src: &str, radix: u32) -> (res: Result<
    u8,
    std::num::ParseIntError,
>)
    requires
        2 <= radix <= 36,
    ensures
        res is Ok <==> reads_as_byte(src@, radix as int),
        res matches Ok(n) ==> read_number(src@, radix as int) == Some(n as int),
;

} // verus!
