//! The access token: random bytes, in hexadecimal.

use vstd::prelude::*;
use crate::number::to_hex;
#[allow(unused_imports)]
use crate::number::{hex, is_hex_digit, law_hex_digits, law_hex_is_unique};

verus! {

/// How many random bytes a token is made of.
pub const TOKEN_BYTES: usize = 16;

/// `getrandom::Error`: why there are no random bytes.
#[verifier::external_type_specification]
#[verifier::external_body]
pub struct ExRandomError(getrandom::Error);

/// `getrandom::fill`: it fills the slice in place, with bytes of which nothing
/// is said, or fails; the slice is as long as before.
pub assume_specification[ getrandom::fill ](dest: &mut [u8]) -> (filled: Result<
    (),
    getrandom::Error,
>)
    ensures
        final(dest)@.len() == old(dest)@.len(),
;

/// Why there is no token.
pub struct TokenError {
    pub cause: getrandom::Error,
}

/// A token that is made of some bytes.
pub open spec fn is_token(token: Seq<char>) -> bool {
    exists|bytes: Seq<u8>| bytes.len() == TOKEN_BYTES && token == #[trigger] hex(bytes)
}

/// The token that is made of these bytes.
pub fn token_of(bytes: &[u8]) -> (token: String)
    ensures
        token@ == hex(bytes@),
{
    to_hex(bytes)
}

/// A token that is made of random bytes. Whether there are such bytes, and which,
/// is up to the machine; what comes of them is what `token_from` says.
pub fn generate_token() -> (token: Result<String, TokenError>)
    ensures
        token matches Ok(token) ==> is_token(token@),
{
    let mut bytes: Vec<u8> = vec![0u8; TOKEN_BYTES];
    let filled: Result<(), getrandom::Error> = getrandom::fill(bytes.as_mut_slice());
    let token: Result<String, TokenError> = token_from(filled, bytes.as_slice());
    assert(token matches Ok(token) ==> token@ == hex(bytes@));
    token
}

/// The token that is made of bytes, if they were filled; or else why there is
/// none.
pub fn token_from(filled: Result<(), getrandom::Error>, bytes: &[u8]) -> (token: Result<
    String,
    TokenError,
>)
    ensures
        match filled {
            Ok(()) => token matches Ok(token) && token@ == hex(bytes@),
            Err(cause) => token matches Err(error) && error.cause == cause,
        },
{
    match filled {
        Ok(()) => Ok(token_of(bytes)),
        Err(cause) => Err(TokenError { cause }),
    }
}

/// A token has 32 characters, all of them hexadecimal digits.
pub proof fn law_token_has_32_hex_digits(token: Seq<char>)
    requires
        is_token(token),
    ensures
        token.len() == 32,
        forall|i: int| 0 <= i < token.len() ==> is_hex_digit(#[trigger] token[i]),
{
    let bytes = choose|bytes: Seq<u8>|
        bytes.len() == TOKEN_BYTES && token == #[trigger] hex(bytes);
    law_hex_digits(bytes);
}

/// Tokens that are made of different bytes are different.
pub proof fn law_tokens_are_distinct(a: Seq<u8>, b: Seq<u8>)
    requires
        a != b,
    ensures
        hex(a) != hex(b),
{
    if hex(a) == hex(b) {
        law_hex_is_unique(a, b);
    }
}

/// A token opens the door to the one who sends it as a line.
pub proof fn law_token_is_accepted(token: Seq<char>)
    requires
        is_token(token),
    ensures
        crate::connection::knows_token(crate::frame::framed(token), token),
{
    law_token_has_32_hex_digits(token);
    assert(is_hex_digit(token[31]));
    crate::connection::law_token_opens_the_door(token);
}

} // verus!
