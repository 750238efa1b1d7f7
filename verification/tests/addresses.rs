use en_2fa_monitor::address::{parse_address, Address, AddressError, HexError};

const LOWER: &str = "0xdc26b08f0335b68721f64001c38b05d0bc9b539d";

fn sample() -> Address {
    Address {
        bytes: [
            0xdc, 0x26, 0xb0, 0x8f, 0x03, 0x35, 0xb6, 0x87, 0x21, 0xf6, 0x40, 0x01, 0xc3, 0x8b,
            0x05, 0xd0, 0xbc, 0x9b, 0x53, 0x9d,
        ],
    }
}

#[test]
fn parse_address_reads_either_case_with_or_without_prefix() {
    assert_eq!(parse_address(LOWER), Ok(sample()));
    assert_eq!(parse_address("0xdC26B08F0335b68721F64001C38b05D0BC9B539d"), Ok(sample()));
    assert_eq!(parse_address("dc26b08f0335b68721f64001c38b05d0bc9b539d"), Ok(sample()));
    assert_eq!(parse_address("  0xdc26b08f0335b68721f64001c38b05d0bc9b539d\n"), Ok(sample()));
}

#[test]
fn parse_address_refuses_other_lengths() {
    assert_eq!(parse_address("0xdc26"), Err(AddressError::WrongLength));
    assert_eq!(parse_address(""), Err(AddressError::WrongLength));
    assert_eq!(parse_address("0xdc26b08f0335b68721f64001c38b05d0bc9b539d00"), Err(AddressError::WrongLength));
}

#[test]
fn parse_address_refuses_what_is_not_hexadecimal() {
    assert_eq!(parse_address("0xabc"), Err(AddressError::BadHex(HexError::OddLength)));
    assert_eq!(
        parse_address("0xzz"),
        Err(AddressError::BadHex(HexError::InvalidHexCharacter { c: 'z', index: 0 }))
    );
    assert_eq!(
        parse_address("0xabcg!!"),
        Err(AddressError::BadHex(HexError::InvalidHexCharacter { c: 'g', index: 3 }))
    );
    // An odd number of digits is noticed before a character that is none.
    assert_eq!(parse_address("0xzzz"), Err(AddressError::BadHex(HexError::OddLength)));
    // Only one prefix is dropped, and only in lower case.
    assert_eq!(
        parse_address("0x0xab"),
        Err(AddressError::BadHex(HexError::InvalidHexCharacter { c: 'x', index: 1 }))
    );
    assert_eq!(
        parse_address("0Xab"),
        Err(AddressError::BadHex(HexError::InvalidHexCharacter { c: 'X', index: 1 }))
    );
}

#[test]
fn parse_address_reports_the_bytes_of_other_characters() {
    assert_eq!(
        parse_address("é"),
        Err(AddressError::BadHex(HexError::InvalidHexCharacter { c: '\u{c3}', index: 0 }))
    );
}

#[test]
fn address_errors_have_messages() {
    assert_eq!(AddressError::BadHex(HexError::OddLength).message(), "bad hex address");
    assert_eq!(AddressError::WrongLength.message(), "address must be 20 bytes");
}

#[test]
fn addresses_are_the_same_if_all_bytes_are() {
    let a = sample();
    let mut b = sample();
    assert!(a.same(&b));
    b.bytes[19] = 0;
    assert!(!a.same(&b));
}
