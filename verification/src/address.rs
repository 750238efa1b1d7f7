//! Account addresses, their hexadecimal text and how it is read.

use crate::text::{
    is_white_space, law_one_0x_is_dropped, law_trim_takes_the_white_space_around, strip_0x, trim,
    trimmed, without_0x,
};
use vstd::prelude::*;
use vstd::string::*;

verus! {

/// A twenty-byte account address.
#[derive(Clone, Copy, Debug, PartialEq, Eq)]
pub struct Address {
    pub bytes: [u8; 20],
}

impl Address {
    /// Whether both are the same address.
    pub fn same(&self, other: &Address) -> (res: bool)
        ensures
            res == (*self == *other),
    {
        let mut i: usize = 0;
        while i < 20
            invariant
                i <= 20,
                forall|j: int| 0 <= j < i ==> self.bytes[j] == other.bytes[j],
            decreases 20 - i,
        {
            if self.bytes[i] != other.bytes[i] {
                return false;
            }
            i = i + 1;
        }
        assert(self.bytes =~= other.bytes);
        true
    }
}

/// What is wrong with a text that should be hexadecimal.
#[derive(Clone, Copy, Debug, PartialEq, Eq, Structural)]
pub enum HexError {
    /// The first byte that is no hexadecimal digit, and where it stands.
    InvalidHexCharacter { c: char, index: usize },
    /// The number of digits is odd.
    OddLength,
    /// The digits do not fill the container they are meant for.
    InvalidStringLength,
}

/// What is wrong with a text that should be an address.
#[derive(Clone, Copy, Debug, PartialEq, Eq, Structural)]
pub enum AddressError {
    /// It is not hexadecimal.
    BadHex(HexError),
    /// It is hexadecimal, but not of twenty bytes.
    WrongLength,
}

impl AddressError {
    /// What to tell the operator.
    pub fn message(&self) -> (res: &'static str)
        ensures
            res@ == match *self {
                AddressError::BadHex(_) => "bad hex address"@,
                AddressError::WrongLength => "address must be 20 bytes"@,
            },
    {
        match self {
            AddressError::BadHex(_) => "bad hex address",
            AddressError::WrongLength => "address must be 20 bytes",
        }
    }
}

/// The value of the hexadecimal digit that the byte `b` encodes.
pub open spec fn hex_digit(b: u8) -> Option<u8> {
    if '0' as u8 <= b <= '9' as u8 {
        Some((b - '0' as u8) as u8)
    } else if 'a' as u8 <= b <= 'f' as u8 {
        Some((b - 'a' as u8 + 10) as u8)
    } else if 'A' as u8 <= b <= 'F' as u8 {
        Some((b - 'A' as u8 + 10) as u8)
    } else {
        None
    }
}

/// The first position from `from` on that holds no hexadecimal digit.
pub open spec fn first_non_digit(text: Seq<u8>, from: nat) -> Option<nat>
    decreases text.len() - from,
{
    if from >= text.len() {
        None
    } else if hex_digit(text[from as int]) is None {
        Some(from)
    } else {
        first_non_digit(text, from + 1)
    }
}

/// The bytes that the digit pairs of `text` stand for, or the first thing wrong with it.
pub open spec fn hex_decoded(text: Seq<u8>) -> Result<Seq<u8>, HexError> {
    if text.len() % 2 != 0 {
        Err(HexError::OddLength)
    } else {
        match first_non_digit(text, 0) {
            Some(i) => Err(
                HexError::InvalidHexCharacter { c: text[i as int] as char, index: i as usize },
            ),
            None => Ok(
                Seq::new(
                    text.len() / 2,
                    |k: int|
                        (hex_digit(text[2 * k]).unwrap() * 16 + hex_digit(
                            text[2 * k + 1],
                        ).unwrap()) as u8,
                ),
            ),
        }
    }
}

/// `hex::decode`: two digits of either case make one byte; an odd number of digits is refused
/// first, then the first byte of the text's UTF-8 form that is no digit, which the error gives as
/// the character of that code with its position.
#[verifier::external_body]
fn decode_hex(text: &str) -> (res: Result<Vec<u8>, HexError>)
    ensures
        match res {
            Ok(bytes) => hex_decoded(text.spec_bytes()) == Ok::<Seq<u8>, HexError>(bytes@),
            Err(e) => hex_decoded(text.spec_bytes()) == Err::<Seq<u8>, HexError>(e),
        },
{
    match hex::decode(text) {
        Ok(bytes) => Ok(bytes),
        Err(hex::FromHexError::InvalidHexCharacter { c, index }) => Err(
            HexError::InvalidHexCharacter { c, index },
        ),
        Err(hex::FromHexError::OddLength) => Err(HexError::OddLength),
        Err(hex::FromHexError::InvalidStringLength) => Err(HexError::InvalidStringLength),
    }
}

/// `ethers::types::Address::from_slice`: the address of these twenty bytes, in their order. It
/// panics on any other length.
#[verifier::external_body]
fn address_from_slice(bytes: &[u8]) -> (res: Address)
    requires
        bytes@.len() == 20,
    ensures
        res.bytes@ == bytes@,
{
    Address { bytes: ethers::types::Address::from_slice(bytes).0 }
}

/// The bytes of the address that `text` gives: hexadecimal, with or without `0x`, with or without
/// white space around it.
pub open spec fn address_in(text: Seq<char>) -> Result<Seq<u8>, AddressError> {
    match hex_decoded(vstd::utf8::encode_utf8(without_0x(trimmed(text)))) {
        Err(e) => Err(AddressError::BadHex(e)),
        Ok(bytes) => if bytes.len() == 20 {
            Ok(bytes)
        } else {
            Err(AddressError::WrongLength)
        },
    }
}

/// Reads an address.
pub fn parse_address(s: &str) -> (res: Result<Address, AddressError>)
    ensures
        match res {
            Ok(a) => address_in(s@) == Ok::<Seq<u8>, AddressError>(a.bytes@),
            Err(e) => address_in(s@) == Err::<Seq<u8>, AddressError>(e),
        },
{
    let digits = strip_0x(trim(s));
    match decode_hex(digits) {
        Err(e) => Err(AddressError::BadHex(e)),
        Ok(bytes) => {
            if bytes.len() != 20 {
                Err(AddressError::WrongLength)
            } else {
                Ok(address_from_slice(bytes.as_slice()))
            }
        },
    }
}

/// The lower-case hexadecimal digit of value `d`.
pub open spec fn hex_char(d: int) -> char
    recommends
        0 <= d < 16,
{
    if d < 10 {
        (('0' as int) + d) as char
    } else {
        (('a' as int) + d - 10) as char
    }
}

/// `0x` and two lower-case digits for each byte.
pub open spec fn address_text(bytes: Seq<u8>) -> Seq<char> {
    seq!['0', 'x'] + Seq::new(
        2 * bytes.len(),
        |i: int|
            if i % 2 == 0 {
                hex_char(bytes[i / 2] as int / 16)
            } else {
                hex_char(bytes[i / 2] as int % 16)
            },
    )
}

impl Address {
    /// The text by which this address is shown and told apart from others.
    pub open spec fn shown(self) -> Seq<char> {
        address_text(self.bytes@)
    }
}

/// The `Debug` of `ethers::types::Address`: `0x` and the forty lower-case digits of its bytes.
#[verifier::external_body]
pub(crate) fn shown_address(a: &Address) -> (res: String)
    ensures
        res@ == a.shown(),
{
    format!("{:?}", ethers::types::Address::from(a.bytes))
}

proof fn lemma_hex_char(d: int)
    requires
        0 <= d < 16,
    ensures
        hex_char(d) <= '\u{7f}',
        hex_digit(hex_char(d) as u8) == Some(d as u8),
        !crate::text::is_white_space(hex_char(d)),
{
}

proof fn lemma_all_digits(text: Seq<u8>, from: nat)
    requires
        forall|i: int| from <= i < text.len() ==> hex_digit(#[trigger] text[i]) is Some,
    ensures
        first_non_digit(text, from) is None,
    decreases text.len() - from,
{
    if from < text.len() {
        lemma_all_digits(text, from + 1);
    }
}

/// The text by which an address is shown reads back as that address.
pub proof fn law_shown_address_reads_back(a: Address)
    ensures
        address_in(a.shown()) == Ok::<Seq<u8>, AddressError>(a.bytes@),
{
    let bytes = a.bytes@;
    let shown = a.shown();
    let digits = shown.skip(2);
    assert(bytes.len() == 20);
    assert forall|i: int| 0 <= i < 40 implies {
        &&& digits[i] <= '\u{7f}'
        &&& hex_digit(#[trigger] digits[i] as u8) == Some(
            (if i % 2 == 0 {
                bytes[i / 2] as int / 16
            } else {
                bytes[i / 2] as int % 16
            }) as u8,
        )
        &&& !crate::text::is_white_space(digits[i])
    } by {
        let b = bytes[i / 2] as int;
        assert(0 <= b < 256);
        lemma_hex_char(b / 16);
        lemma_hex_char(b % 16);
    }
    assert(!crate::text::is_white_space(shown.first()));
    assert(shown.last() == digits[39]);
    assert(trimmed(shown) == shown);
    assert(without_0x(shown) == digits);
    assert(vstd::utf8::is_ascii_chars(digits));
    vstd::utf8::is_ascii_chars_encode_utf8(digits);
    let text = vstd::utf8::encode_utf8(digits);
    assert(text.len() == 40);
    assert forall|i: int| 0 <= i < 40 implies #[trigger] text[i] == digits[i] as u8 by {}
    assert forall|i: int| 0 <= i < text.len() implies hex_digit(#[trigger] text[i]) is Some by {
        assert(hex_digit(digits[i] as u8) is Some);
    }
    lemma_all_digits(text, 0);
    let decoded = hex_decoded(text);
    assert forall|k: int| 0 <= k < 20 implies #[trigger] decoded->Ok_0[k] == bytes[k] by {
        let b = bytes[k] as int;
        assert((2 * k) / 2 == k && (2 * k) % 2 == 0);
        assert((2 * k + 1) / 2 == k && (2 * k + 1) % 2 == 1);
        assert(hex_digit(digits[2 * k] as u8) == Some((b / 16) as u8));
        assert(hex_digit(digits[2 * k + 1] as u8) == Some((b % 16) as u8));
        assert(text[2 * k] == digits[2 * k] as u8);
        assert(text[2 * k + 1] == digits[2 * k + 1] as u8);
    }
    assert(decoded->Ok_0 =~= bytes);
}

/// Different addresses are shown differently.
pub proof fn law_shown_address_is_unique(a: Address, b: Address)
    ensures
        a.shown() == b.shown() <==> a == b,
{
    if a.shown() == b.shown() {
        law_shown_address_reads_back(a);
        law_shown_address_reads_back(b);
        assert(a.bytes@ =~= b.bytes@);
        assert forall|i: int| 0 <= i < 20 implies a.bytes[i] == b.bytes[i] by {
            assert(a.bytes@[i] == b.bytes@[i]);
        }
        assert(a.bytes =~= b.bytes);
    }
}

/// An address is shown as `0x` and forty digits, two lower-case hexadecimal ones for each byte, in
/// the order of the bytes, the high digit first.
pub proof fn law_shown_address_has_the_digits(a: Address)
    ensures
        a.shown().len() == 42,
        a.shown()[0] == '0',
        a.shown()[1] == 'x',
        forall|k: int|
            0 <= k < 20 ==> a.shown()[2 + 2 * k] == "0123456789abcdef"@[(
            #[trigger] a.bytes@[k]) as int / 16],
        forall|k: int|
            0 <= k < 20 ==> a.shown()[3 + 2 * k] == "0123456789abcdef"@[(
            #[trigger] a.bytes@[k]) as int % 16],
{
    reveal_strlit("0123456789abcdef");
    assert forall|k: int| 0 <= k < 20 implies {
        &&& a.shown()[2 + 2 * k] == "0123456789abcdef"@[(#[trigger] a.bytes@[k]) as int / 16]
        &&& a.shown()[3 + 2 * k] == "0123456789abcdef"@[a.bytes@[k] as int % 16]
    } by {
        assert((2 * k) / 2 == k && (2 * k) % 2 == 0);
        assert((2 * k + 1) / 2 == k && (2 * k + 1) % 2 == 1);
        let b = a.bytes@[k] as int;
        assert(0 <= b / 16 < 16 && 0 <= b % 16 < 16);
    }
}

/// Forty hexadecimal digits, in either case, with or without `0x`, and with any white space around
/// them, are read as the twenty bytes that they spell, two digits each, the high one first.
pub proof fn law_digits_are_read_as_bytes(
    before: Seq<char>,
    prefixed: bool,
    digits: Seq<char>,
    values: Seq<int>,
    after: Seq<char>,
)
    requires
        forall|i: int| 0 <= i < before.len() ==> is_white_space(#[trigger] before[i]),
        forall|i: int| 0 <= i < after.len() ==> is_white_space(#[trigger] after[i]),
        digits.len() == 40,
        values.len() == 40,
        forall|i: int|
            0 <= i < 40 ==> {
                &&& 0 <= #[trigger] values[i] < 16
                &&& digits[i] == "0123456789abcdef"@[values[i]] || digits[i]
                    == "0123456789ABCDEF"@[values[i]]
            },
    ensures
        ({
            let text = before + (if prefixed {
                seq!['0', 'x']
            } else {
                seq![]
            }) + digits + after;
            &&& address_in(text) is Ok
            &&& address_in(text)->Ok_0.len() == 20
            &&& forall|k: int|
                0 <= k < 20 ==> #[trigger] address_in(text)->Ok_0[k] == 16 * values[2 * k]
                    + values[2 * k + 1]
        }),
{
    reveal_strlit("0123456789abcdef");
    reveal_strlit("0123456789ABCDEF");
    let prefix: Seq<char> = if prefixed {
        seq!['0', 'x']
    } else {
        seq![]
    };
    assert forall|i: int| 0 <= i < digits.len() implies same_digit(#[trigger] digits[i], digits[i])
        && hex_digit(digits[i] as u8) == Some(values[i] as u8) by {
        let v = values[i];
        assert(0 <= v < 16);
    }
    lemma_digits_as_they_are(digits);
    let middle = prefix + digits;
    let text = before + prefix + digits + after;
    assert(same_digit(digits[0], digits[0]) && same_digit(digits[39], digits[39]));
    assert(middle[middle.len() - 1] == digits[39]);
    assert(text =~= before + middle + after);
    law_trim_takes_the_white_space_around(before, middle, after);
    if prefixed {
        law_one_0x_is_dropped(digits);
    } else {
        assert(middle =~= digits);
    }
    let bytes = vstd::utf8::encode_utf8(digits);
    assert forall|k: int| 0 <= k < 20 implies #[trigger] address_in(text)->Ok_0[k] == 16
        * values[2 * k] + values[2 * k + 1] by {
        assert(hex_digit(digits[2 * k] as u8) == Some(values[2 * k] as u8));
        assert(hex_digit(digits[2 * k + 1] as u8) == Some(values[2 * k + 1] as u8));
        assert(bytes[2 * k] == digits[2 * k] as u8);
        assert(bytes[2 * k + 1] == digits[2 * k + 1] as u8);
        assert(0 <= values[2 * k] < 16 && 0 <= values[2 * k + 1] < 16);
    }
}

/// Whatever is read as an address is twenty bytes, and spelt by forty hexadecimal digits once white
/// space and one `0x` are taken away. An odd number of bytes is refused as such; else the first
/// byte that is no digit is named with its place; else the number of digits is wrong.
pub proof fn law_only_digits_are_read(text: Seq<char>)
    ensures
        ({
            let left = vstd::utf8::encode_utf8(without_0x(trimmed(text)));
            match address_in(text) {
                Ok(bytes) => {
                    &&& bytes.len() == 20
                    &&& left.len() == 40
                    &&& forall|i: int|
                        0 <= i < 40 ==> {
                            ||| 48 <= #[trigger] left[i] <= 57
                            ||| 65 <= left[i] <= 70
                            ||| 97 <= left[i] <= 102
                        }
                },
                Err(AddressError::BadHex(HexError::OddLength)) => left.len() % 2 == 1,
                Err(AddressError::BadHex(HexError::InvalidHexCharacter { c, index })) => {
                    exists|i: int|
                        {
                            &&& 0 <= i < left.len()
                            &&& left.len() % 2 == 0
                            &&& index == i as usize
                            &&& c == #[trigger] left[i] as char
                            &&& !(48 <= left[i] <= 57 || 65 <= left[i] <= 70 || 97 <= left[i]
                                <= 102)
                            &&& forall|j: int|
                                0 <= j < i ==> {
                                    ||| 48 <= #[trigger] left[j] <= 57
                                    ||| 65 <= left[j] <= 70
                                    ||| 97 <= left[j] <= 102
                                }
                        }
                },
                Err(AddressError::BadHex(HexError::InvalidStringLength)) => false,
                Err(AddressError::WrongLength) => {
                    &&& left.len() % 2 == 0
                    &&& left.len() != 40
                    &&& forall|i: int|
                        0 <= i < left.len() ==> {
                            ||| 48 <= #[trigger] left[i] <= 57
                            ||| 65 <= left[i] <= 70
                            ||| 97 <= left[i] <= 102
                        }
                },
            }
        }),
{
    let left = vstd::utf8::encode_utf8(without_0x(trimmed(text)));
    lemma_first_non_digit(left, 0);
    match first_non_digit(left, 0) {
        Some(i) => {
            assert(left[i as int] as char == left[i as int] as char);
        },
        None => {},
    }
}

proof fn lemma_first_non_digit(text: Seq<u8>, from: nat)
    ensures
        match first_non_digit(text, from) {
            Some(i) => {
                &&& from <= i < text.len()
                &&& hex_digit(text[i as int]) is None
                &&& forall|j: int| from <= j < i ==> hex_digit(#[trigger] text[j]) is Some
            },
            None => forall|j: int| from <= j < text.len() ==> hex_digit(#[trigger] text[j]) is Some,
        },
    decreases text.len() - from,
{
    if from < text.len() && hex_digit(text[from as int]) is Some {
        lemma_first_non_digit(text, from + 1);
    }
}

/// White space around the text of an address does not matter.
pub proof fn law_address_ignores_white_space(text: Seq<char>)
    ensures
        address_in(trimmed(text)) == address_in(text),
{
    crate::text::lemma_trimmed_once(text);
}

/// A `0x` before the digits of an address does not matter.
pub proof fn law_address_prefix_is_optional(digits: Seq<char>)
    requires
        digits.len() > 0,
        trimmed(digits) == digits,
        without_0x(digits) == digits,
    ensures
        address_in(seq!['0', 'x'] + digits) == address_in(digits),
{
    let prefixed = seq!['0', 'x'] + digits;
    crate::text::lemma_trimmed_ends(digits);
    assert(prefixed.last() == digits.last());
    assert(trimmed(prefixed) == prefixed);
    assert(without_0x(prefixed) =~= digits);
}

/// Whether both are ASCII characters for the same hexadecimal digit, in either case.
pub open spec fn same_digit(a: char, b: char) -> bool {
    &&& '\0' <= a <= '\u{7f}'
    &&& '\0' <= b <= '\u{7f}'
    &&& hex_digit(a as u8) is Some
    &&& hex_digit(a as u8) == hex_digit(b as u8)
}

/// The case of the letters among the digits of an address does not matter.
pub proof fn law_address_ignores_case(a: Seq<char>, b: Seq<char>)
    requires
        a.len() == b.len(),
        forall|i: int| 0 <= i < a.len() ==> same_digit(#[trigger] a[i], b[i]),
    ensures
        address_in(a) == address_in(b),
{
    assert forall|i: int| 0 <= i < a.len() implies same_digit(#[trigger] a[i], a[i]) by {
        assert(same_digit(a[i], b[i]));
    }
    lemma_digits_as_they_are(a);
    assert forall|i: int| 0 <= i < b.len() implies same_digit(#[trigger] b[i], b[i]) by {
        assert(same_digit(a[i], b[i]));
    }
    lemma_digits_as_they_are(b);
    let x = hex_decoded(vstd::utf8::encode_utf8(a));
    let y = hex_decoded(vstd::utf8::encode_utf8(b));
    if a.len() % 2 == 0 {
        assert forall|k: int| 0 <= k < a.len() / 2 implies #[trigger] x->Ok_0[k] == y->Ok_0[k] by {
            assert(same_digit(a[2 * k], b[2 * k]));
            assert(same_digit(a[2 * k + 1], b[2 * k + 1]));
        }
        assert(x->Ok_0 =~= y->Ok_0);
    }
}

/// A text of digits alone has nothing to trim or strip, and is its own UTF-8 form.
proof fn lemma_digits_as_they_are(s: Seq<char>)
    requires
        forall|i: int| 0 <= i < s.len() ==> same_digit(#[trigger] s[i], s[i]),
    ensures
        trimmed(s) == s,
        without_0x(s) == s,
        vstd::utf8::encode_utf8(s).len() == s.len(),
        forall|i: int|
            0 <= i < s.len() ==> #[trigger] vstd::utf8::encode_utf8(s)[i] == s[i] as u8,
        s.len() % 2 == 0 ==> hex_decoded(vstd::utf8::encode_utf8(s)) is Ok,
{
    let text = vstd::utf8::encode_utf8(s);
    assert(vstd::utf8::is_ascii_chars(s));
    vstd::utf8::is_ascii_chars_encode_utf8(s);
    assert forall|i: int| 0 <= i < text.len() implies hex_digit(#[trigger] text[i]) is Some by {
        assert(hex_digit(s[i] as u8) is Some);
    }
    lemma_all_digits(text, 0);
}

} // verus!
