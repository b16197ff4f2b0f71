use hat::connection::{authenticate, Admission};
use hat::frame::frame;
use hat::token::{generate_token, token_from, token_of, TOKEN_BYTES};

#[test]
fn token_has_32_hexadecimal_digits() {
    let token = generate_token().ok().unwrap();
    assert_eq!(token.len(), 2 * TOKEN_BYTES);
    assert_eq!(token.len(), 32);
    assert!(token.chars().all(|c| c.is_ascii_digit() || ('A'..='F').contains(&c)));
}

#[test]
fn tokens_differ() {
    assert_ne!(generate_token().ok().unwrap(), generate_token().ok().unwrap());
    // Bytes that were not filled would all be zero.
    assert_ne!(generate_token().ok().unwrap(), "0".repeat(32));
}

#[test]
fn token_is_made_of_its_bytes() {
    assert_eq!(token_of(&[0xde, 0xad, 0xbe, 0xef]), "DEADBEEF");
    assert_ne!(token_of(&[1; 16]), token_of(&[2; 16]));
}

#[test]
fn token_is_accepted_as_a_line() {
    let token = generate_token().ok().unwrap();
    assert!(matches!(authenticate(&frame(&token), &token), Admission::Accept(_)));
}

#[test]
fn token_is_made_where_the_bytes_were_filled() {
    let bytes = [0xab; 16];
    assert_eq!(token_from(Ok(()), &bytes).ok(), Some("AB".repeat(16)));
    let failed = token_from(Err(getrandom::Error::UNSUPPORTED), &bytes);
    assert_eq!(failed.err().unwrap().cause, getrandom::Error::UNSUPPORTED);
}
