use en_2fa_monitor::address::{parse_address, Address, AddressError, HexError};
use en_2fa_monitor::signers::{parse_signers, signer_name, Roster, SignersError};

const A: &str = "0xaaaaaaaaaaaaaaaaaaaaaaaaaaaaaaaaaaaaaaaa";
const B: &str = "0xbbbbbbbbbbbbbbbbbbbbbbbbbbbbbbbbbbbbbbbb";

fn roster(entries: &[&str]) -> Roster {
    let entries: Vec<String> = entries.iter().map(|e| e.to_string()).collect();
    match parse_signers(&entries) {
        Ok(r) => r,
        Err(e) => panic!("{}", e.message()),
    }
}

fn error(entries: &[&str]) -> SignersError {
    let entries: Vec<String> = entries.iter().map(|e| e.to_string()).collect();
    match parse_signers(&entries) {
        Ok(_) => panic!("accepted"),
        Err(e) => e,
    }
}

fn address(text: &str) -> Address {
    parse_address(text).unwrap()
}

#[test]
fn labelled_and_bare_entries() {
    let r = roster(&["@alice = 0xaaaaaaaaaaaaaaaaaaaaaaaaaaaaaaaaaaaaaaaa", B]);
    assert_eq!(r.signers, vec![address(A), address(B)]);
    assert_eq!(signer_name(&address(A), &r.labels), format!("@alice ({A})"));
    assert_eq!(signer_name(&address(B), &r.labels), B);
}

#[test]
fn mentions_are_labels() {
    let r = roster(&["carol <@U0C4R0L>=0xAAAAAAAAAAAAAAAAAAAAAAAAAAAAAAAAAAAAAAAA"]);
    assert_eq!(signer_name(&address(A), &r.labels), format!("carol <@U0C4R0L> ({A})"));
}

#[test]
fn a_blank_label_is_none() {
    let r = roster(&["  =0xaaaaaaaaaaaaaaaaaaaaaaaaaaaaaaaaaaaaaaaa"]);
    assert_eq!(signer_name(&address(A), &r.labels), A);
}

#[test]
fn the_last_label_of_an_address_counts() {
    let first = format!("first={A}");
    let last = format!("last={A}");
    let r = roster(&[&first, &last, A]);
    assert_eq!(r.signers.len(), 3);
    assert_eq!(signer_name(&address(A), &r.labels), format!("last ({A})"));
}

#[test]
fn an_empty_list_is_refused() {
    let e = error(&[]);
    assert!(matches!(e, SignersError::NoSigners));
    assert_eq!(e.message(), "no signers configured; set --signers / SIGNERS");
}

#[test]
fn the_first_bad_address_is_reported() {
    let e = error(&[A, "bob= 0xzz ", "0x1"]);
    assert_eq!(e.message(), "bad signer address 0xzz");
    match e {
        SignersError::BadAddress { text, cause } => {
            assert_eq!(text, "0xzz");
            assert_eq!(
                cause,
                AddressError::BadHex(HexError::InvalidHexCharacter { c: 'z', index: 0 })
            );
        }
        SignersError::NoSigners => panic!("no signers"),
    }
}

#[test]
fn a_second_separator_belongs_to_the_address() {
    let e = error(&["a=b=0xaaaaaaaaaaaaaaaaaaaaaaaaaaaaaaaaaaaaaaaa"]);
    assert_eq!(e.message(), "bad signer address b=0xaaaaaaaaaaaaaaaaaaaaaaaaaaaaaaaaaaaaaaaa");
}

#[test]
fn shown_addresses_read_back() {
    let r = roster(&["0x00ff10ABcdef00112233445566778899aAbBcCdD"]);
    let shown = signer_name(&r.signers[0], &r.labels);
    assert_eq!(shown, "0x00ff10abcdef00112233445566778899aabbccdd");
    assert_eq!(address(&shown), r.signers[0]);
}

#[test]
fn equal_labels_do_not_make_equal_names() {
    let a = format!("ops={A}");
    let b = format!("ops={B}");
    let r = roster(&[&a, &b]);
    assert_eq!(signer_name(&address(A), &r.labels), format!("ops ({A})"));
    assert_eq!(signer_name(&address(B), &r.labels), format!("ops ({B})"));
    let posing = format!("{B}={A}");
    let r = roster(&[&posing, B]);
    assert_ne!(signer_name(&address(A), &r.labels), signer_name(&address(B), &r.labels));
}
