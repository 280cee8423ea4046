use miniproxy::cipher::CiperTcpStream;
use miniproxy::password::{decode_password, new, password_text, PasswordError};

#[test]
fn new_password_is_a_permutation() {
    let text = new();
    assert_eq!(text.len(), 344);
    assert!(text.ends_with("=="));
    assert!(!text[..342].contains('='));
    let mut table = decode_password(&text).unwrap();
    assert_eq!(table.len(), 256);
    table.sort();
    let identity: Vec<u8> = (0..=255u8).collect();
    assert_eq!(table, identity);
}

#[test]
fn new_passwords_differ() {
    // two shuffles of 256 bytes agreeing is practically impossible
    assert_ne!(new(), new());
}

#[test]
fn decode_known_text() {
    assert_eq!(decode_password("aGVsbG8=").unwrap(), b"hello".to_vec());
    assert_eq!(decode_password("").unwrap(), Vec::<u8>::new());
}

#[test]
fn decode_invalid_byte() {
    assert_eq!(decode_password("aGV*bG8="), Err(PasswordError::InvalidByte(3, b'*')));
}

#[test]
fn decode_invalid_length() {
    assert_eq!(decode_password("aGVsb"), Err(PasswordError::InvalidLength));
}

#[test]
fn decode_invalid_last_symbol() {
    assert!(matches!(decode_password("aGVsbG9="), Err(PasswordError::InvalidLastSymbol(_, _))));
}

#[test]
fn password_round_trip_through_cipher() {
    let text = new();
    let table = decode_password(&text).unwrap();
    let a = CiperTcpStream::new((), table.clone());
    let b = CiperTcpStream::new((), table);
    let all: Vec<u8> = (0..=255u8).collect();
    let mut wire = a.encode(&all);
    b.decode_in_place(&mut wire);
    assert_eq!(wire, all);
}

#[test]
fn password_text_is_standard_base64() {
    assert_eq!(password_text(b"hello"), "aGVsbG8=");
    assert_eq!(password_text(b"hell"), "aGVsbA==");
    assert_eq!(password_text(b"hel"), "aGVs");
    assert_eq!(password_text(&[255, 254]), "//4=");
    assert_eq!(password_text(&[]), "");
}

#[test]
fn password_text_decodes_back() {
    for n in 0..20usize {
        let bytes: Vec<u8> = (0..n).map(|i| (i * 37 + 11) as u8).collect();
        let text = password_text(&bytes);
        assert_eq!(text.len(), 4 * ((n + 2) / 3));
        assert_eq!(decode_password(&text).unwrap(), bytes);
    }
}
