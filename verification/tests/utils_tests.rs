use async_chat_server::client_server_utils::{
    decrypt_password_rsa, format_ipv4, get_ipv4, password_matches, InterfaceAddr, PasswordError,
};
use openssl::rsa::{Padding, Rsa};

fn key_and_secret(secret: &[u8]) -> (Vec<u8>, Vec<u8>) {
    let key = Rsa::generate(2048).unwrap();
    let pem = key.private_key_to_pem().unwrap();
    let mut encrypted = vec![0u8; key.size() as usize];
    let n = key.public_encrypt(secret, &mut encrypted, Padding::PKCS1).unwrap();
    encrypted.truncate(n);
    (pem, encrypted)
}

#[test]
fn right_password_is_accepted() {
    let (pem, enc) = key_and_secret(b"letmein\n");
    assert_eq!(decrypt_password_rsa("letmein", &pem, &enc), Ok(true));
}

#[test]
fn a_pkcs8_key_file_works_too() {
    let key = Rsa::generate(2048).unwrap();
    let pkey = openssl::pkey::PKey::from_rsa(key.clone()).unwrap();
    let pem = pkey.private_key_to_pem_pkcs8().unwrap();
    let mut encrypted = vec![0u8; key.size() as usize];
    let n = key.public_encrypt(b"pw\n", &mut encrypted, Padding::PKCS1).unwrap();
    encrypted.truncate(n);
    assert_eq!(decrypt_password_rsa("pw", &pem, &encrypted), Ok(true));
}

#[test]
fn surrounding_whitespace_is_ignored() {
    let (pem, enc) = key_and_secret(b"  letmein ");
    assert_eq!(decrypt_password_rsa(" \tletmein\r\n", &pem, &enc), Ok(true));
}

#[test]
fn wrong_password_is_refused() {
    let (pem, enc) = key_and_secret(b"letmein");
    assert_eq!(decrypt_password_rsa("letmeout", &pem, &enc), Ok(false));
    assert_eq!(decrypt_password_rsa("let me in", &pem, &enc), Ok(false));
}

#[test]
fn a_text_that_is_no_key_is_an_error() {
    let (_, enc) = key_and_secret(b"letmein");
    assert_eq!(
        decrypt_password_rsa("letmein", b"not a key", &enc),
        Err(PasswordError::InvalidPrivateKey)
    );
}

#[test]
fn readme_style_password_file() {
    let (pem, enc) = key_and_secret(b"hunter2\n");
    assert_eq!(decrypt_password_rsa("hunter2", &pem, &enc), Ok(true));
    assert_eq!(decrypt_password_rsa("  hunter2\r\n", &pem, &enc), Ok(true));
    assert_eq!(decrypt_password_rsa("Hunter2", &pem, &enc), Ok(false));
    assert_eq!(decrypt_password_rsa("hunter", &pem, &enc), Ok(false));
}

#[test]
fn a_ciphertext_longer_than_the_modulus_is_an_error() {
    let (pem, _) = key_and_secret(b"letmein");
    let too_long = vec![7u8; 300];
    assert_eq!(
        decrypt_password_rsa("letmein", &pem, &too_long),
        Err(PasswordError::DecryptionFailed)
    );
}

#[test]
fn password_matches_examples() {
    assert!(password_matches("abc", b"abc"));
    assert!(password_matches(" abc ", b"\nabc\n"));
    assert!(!password_matches("abc", b"abd"));
    assert!(password_matches("\u{fffd}", b"\xff"));
    assert!(password_matches("héllo", "héllo".as_bytes()));
}

#[test]
fn formats_dotted_decimal() {
    assert_eq!(format_ipv4([192, 168, 1, 20]), "192.168.1.20");
    assert_eq!(format_ipv4([0, 0, 0, 0]), "0.0.0.0");
    assert_eq!(format_ipv4([255, 10, 100, 7]), "255.10.100.7");
    for a in 0u8..=255 {
        let o = [a, 255 - a, a / 3, 9];
        let expected = format!("{}.{}.{}.{}", o[0], o[1], o[2], o[3]);
        assert_eq!(format_ipv4(o), expected);
    }
}

#[test]
fn first_public_ipv4_is_chosen() {
    let ifaces = vec![
        InterfaceAddr::V4([127, 0, 0, 1]),
        InterfaceAddr::V6([0, 0, 0, 0, 0, 0, 0, 1]),
        InterfaceAddr::V6([0xfe80, 0, 0, 0, 1, 2, 3, 4]),
        InterfaceAddr::V4([10, 0, 0, 5]),
        InterfaceAddr::V4([192, 168, 0, 2]),
    ];
    assert_eq!(get_ipv4(&ifaces), Some("10.0.0.5".to_string()));
}

#[test]
fn no_public_ipv4_gives_none() {
    assert_eq!(get_ipv4(&vec![]), None);
    let ifaces = vec![
        InterfaceAddr::V4([127, 1, 2, 3]),
        InterfaceAddr::V6([0x2001, 0xdb8, 0, 0, 0, 0, 0, 1]),
    ];
    assert_eq!(get_ipv4(&ifaces), None);
}

#[test]
fn loopback_examples() {
    assert!(InterfaceAddr::V4([127, 9, 9, 9]).is_loopback());
    assert!(!InterfaceAddr::V4([128, 0, 0, 1]).is_loopback());
    assert!(InterfaceAddr::V6([0, 0, 0, 0, 0, 0, 0, 1]).is_loopback());
    assert!(!InterfaceAddr::V6([0, 0, 0, 0, 0, 0, 1, 0]).is_loopback());
}
