//! Access tokens: a video's name, encrypted under a key derived from a
//! password.
//!
//! The key comes from PBKDF2-HMAC-SHA256 over the password, a salt and an
//! iteration count. The name is sealed with AES-256-GCM under a 96-bit nonce
//! that is drawn anew for every token. The iteration count is not stored in
//! the token: changing it makes every earlier token unreadable.

use crate::error::Error;
use crate::hex::{decode_hex, encode_hex, hex_decode, hex_lower, is_lower_hex, lemma_hex_round_trip};
use aes_gcm::aead::{Aead, OsRng};
use aes_gcm::{AeadCore, Aes256Gcm, Key, KeyInit, Nonce};
use pbkdf2::pbkdf2_hmac;
use sha2::Sha256;
use vstd::prelude::*;
use vstd::utf8::{decode_utf8, encode_utf8, encode_utf8_decode_utf8, encode_utf8_valid_utf8, valid_utf8};

verus! {

/// An access token: the nonce and the sealed name, both in lowercase
/// hexadecimal.
#[derive(Debug)]
pub struct Encrypted {
    pub iv: String,
    pub ciphertext: String,
}

/// The longest plaintext, in bytes, that AES-GCM seals.
pub const MAX_PLAINTEXT_LEN: u64 = 0x10_0000_0000;

/// The 32 bytes that PBKDF2-HMAC-SHA256 derives.
pub uninterp spec fn pbkdf2_sha256(password: Seq<u8>, salt: Seq<u8>, rounds: u32) -> Seq<u8>;

/// What AES-256-GCM makes of a plaintext: the ciphertext, then the tag.
pub uninterp spec fn aes256_gcm_seal(key: Seq<u8>, nonce: Seq<u8>, plaintext: Seq<u8>) -> Seq<u8>;

/// What AES-256-GCM recovers from a ciphertext and its tag, if the tag is the
/// right one.
pub uninterp spec fn aes256_gcm_open(key: Seq<u8>, nonce: Seq<u8>, sealed: Seq<u8>) -> Option<
    Seq<u8>,
>;

/// The key that a password, a salt and an iteration count stand for.
pub open spec fn derived_key(password: Seq<char>, salt: Seq<char>, iterations: u32) -> Seq<u8> {
    pbkdf2_sha256(encode_utf8(password), encode_utf8(salt), iterations)
}

/// A plaintext of `len` bytes can be sealed: the cipher takes it, and it and
/// its tag fit in one allocation.
pub open spec fn sealable(len: nat) -> bool {
    len <= MAX_PLAINTEXT_LEN && len + 16 <= usize::MAX / 2
}

/// The nonce of the token, in hexadecimal.
pub open spec fn token_iv(nonce: Seq<u8>) -> Seq<char> {
    hex_lower(nonce)
}

/// The sealed name of the token, in hexadecimal.
pub open spec fn token_ciphertext(
    password: Seq<char>,
    salt: Seq<char>,
    iterations: u32,
    nonce: Seq<u8>,
    plaintext: Seq<char>,
) -> Seq<char> {
    hex_lower(
        aes256_gcm_seal(derived_key(password, salt, iterations), nonce, encode_utf8(plaintext)),
    )
}

/// The token was made for `plaintext` under the key of `password`: its `iv`
/// spells a 12-byte nonce, and its `ciphertext` is what the cipher makes of
/// the plaintext under that key and nonce.
pub open spec fn is_token_for(
    iv: Seq<char>,
    ciphertext: Seq<char>,
    password: Seq<char>,
    salt: Seq<char>,
    iterations: u32,
    plaintext: Seq<char>,
) -> bool {
    let nonce = hex_decode(iv);
    &&& nonce.len() == 12
    &&& iv == token_iv(nonce)
    &&& ciphertext == token_ciphertext(password, salt, iterations, nonce, plaintext)
}

/// What a token decrypts to under a password, a salt and an iteration count.
pub open spec fn decrypted(
    password: Seq<char>,
    salt: Seq<char>,
    iterations: u32,
    iv: Seq<char>,
    ciphertext: Seq<char>,
) -> Result<Seq<char>, Error> {
    if !is_lower_hex(iv) || iv.len() != 24 || !is_lower_hex(ciphertext) {
        Err(Error::MalformedToken)
    } else {
        match aes256_gcm_open(
            derived_key(password, salt, iterations),
            hex_decode(iv),
            hex_decode(ciphertext),
        ) {
            None => Err(Error::AuthenticationFailure),
            Some(bytes) => if valid_utf8(bytes) {
                Ok(decode_utf8(bytes))
            } else {
                Err(Error::InvalidText)
            },
        }
    }
}

/// `pbkdf2::pbkdf2_hmac` with SHA-256 and a 32-byte output: the result is a
/// function of the password, the salt and the number of rounds. It takes any
/// password, salt and number of rounds.
#[verifier::external_body]
fn pbkdf2_key(password: &[u8], salt: &[u8], rounds: u32) -> (key: Vec<u8>)
    ensures
        key@ == pbkdf2_sha256(password@, salt@, rounds),
        key@.len() == 32,
{
    let mut key = vec![0u8; 32];
    pbkdf2_hmac::<Sha256>(password, salt, rounds, &mut key);
    key
}

/// `AeadCore::generate_nonce` of `Aes256Gcm` over the operating system's
/// random source: 12 bytes, of which nothing else is known.
#[verifier::external_body]
fn fresh_nonce() -> (nonce: [u8; 12]) {
    Aes256Gcm::generate_nonce(&mut OsRng).into()
}

/// `Aead::encrypt` of an `Aes256Gcm` made from the key by `KeyInit::new`,
/// without associated data. It succeeds where the plaintext is no longer than
/// 2^36 bytes, and then gives the ciphertext followed by its 16-byte tag,
/// which `Aead::decrypt` under the same key and nonce accepts and turns back
/// into the plaintext. The plaintext and its tag must fit in one allocation.
#[verifier::external_body]
fn seal(key: &[u8], nonce: &[u8], plaintext: &[u8]) -> (out: Option<Vec<u8>>)
    requires
        key@.len() == 32,
        nonce@.len() == 12,
        plaintext@.len() + 16 <= usize::MAX / 2,
    ensures
        out is Some <==> plaintext@.len() <= MAX_PLAINTEXT_LEN,
        out is Some ==> out.unwrap()@ == aes256_gcm_seal(key@, nonce@, plaintext@),
        out is Some ==> out.unwrap()@.len() == plaintext@.len() + 16,
        out is Some ==> aes256_gcm_open(key@, nonce@, out.unwrap()@) == Some(plaintext@),
{
    let cipher = Aes256Gcm::new(Key::<Aes256Gcm>::from_slice(key));
    cipher.encrypt(Nonce::from_slice(nonce), plaintext).ok()
}

/// `Aead::decrypt` of an `Aes256Gcm` made from the key by `KeyInit::new`,
/// without associated data: the plaintext where the tag at the end of
/// `sealed` is the right one, nothing otherwise.
#[verifier::external_body]
fn open(key: &[u8], nonce: &[u8], sealed: &[u8]) -> (out: Option<Vec<u8>>)
    requires
        key@.len() == 32,
        nonce@.len() == 12,
    ensures
        out is Some <==> aes256_gcm_open(key@, nonce@, sealed@) is Some,
        out is Some ==> out.unwrap()@ == aes256_gcm_open(key@, nonce@, sealed@).unwrap(),
{
    let cipher = Aes256Gcm::new(Key::<Aes256Gcm>::from_slice(key));
    cipher.decrypt(Nonce::from_slice(nonce), sealed).ok()
}

/// `String::from_utf8`: the text where the bytes are valid UTF-8, nothing
/// otherwise.
#[verifier::external_body]
fn text_of_utf8(bytes: Vec<u8>) -> (out: Option<String>)
    ensures
        out is Some <==> valid_utf8(bytes@),
        out is Some ==> out.unwrap()@ == decode_utf8(bytes@),
{
    String::from_utf8(bytes).ok()
}

/// Derives the 256-bit key of a password.
pub fn derive_key(password: &str, salt: &str, iterations: u32) -> (key: Vec<u8>)
    ensures
        key@ == derived_key(password@, salt@, iterations),
        key@.len() == 32,
{
    pbkdf2_key(password.as_bytes(), salt.as_bytes(), iterations)
}

/// Whether `plaintext` is short enough to be sealed.
pub fn can_seal(plaintext: &str) -> (r: bool)
    ensures
        r == sealable(encode_utf8(plaintext@).len()),
{
    let len = plaintext.as_bytes().len();
    len <= usize::MAX / 2 - 16 && len as u64 <= MAX_PLAINTEXT_LEN
}

/// Encrypts `plaintext` under the key of `password` and the given nonce.
/// Fails where the plaintext is too long to be sealed, and only there.
pub fn encrypt_with_nonce(
    password: &str,
    salt: &str,
    iterations: u32,
    nonce: &[u8; 12],
    plaintext: &str,
) -> (r: Result<Encrypted, Error>)
    ensures
        match r {
            Ok(token) => {
                &&& sealable(encode_utf8(plaintext@).len())
                &&& token.iv@ == token_iv(nonce@)
                &&& token.ciphertext@ == token_ciphertext(
                    password@,
                    salt@,
                    iterations,
                    nonce@,
                    plaintext@,
                )
                &&& is_token_for(
                    token.iv@,
                    token.ciphertext@,
                    password@,
                    salt@,
                    iterations,
                    plaintext@,
                )
                &&& token.iv@.len() == 24
                &&& token.ciphertext@.len() == 2 * encode_utf8(plaintext@).len() + 32
                &&& decrypted(password@, salt@, iterations, token.iv@, token.ciphertext@) == Ok::<
                    Seq<char>,
                    Error,
                >(plaintext@)
            },
            Err(e) => e == Error::PlaintextTooLong && !sealable(encode_utf8(plaintext@).len()),
        },
{
    if !can_seal(plaintext) {
        return Err(Error::PlaintextTooLong);
    }
    let bytes = plaintext.as_bytes();
    let key = derive_key(password, salt, iterations);
    match seal(key.as_slice(), nonce.as_slice(), bytes) {
        None => Err(Error::PlaintextTooLong),
        Some(sealed) => {
            let iv = encode_hex(nonce.as_slice());
            let ciphertext = encode_hex(sealed.as_slice());
            proof {
                lemma_hex_round_trip(nonce@);
                lemma_hex_round_trip(sealed@);
                encode_utf8_valid_utf8(plaintext@);
                encode_utf8_decode_utf8(plaintext@);
            }
            Ok(Encrypted { iv, ciphertext })
        },
    }
}

/// Encrypts `plaintext` under the key of `password` and a nonce drawn for
/// this call. Fails where the plaintext is too long to be sealed, and only
/// there. Whatever nonce was drawn, the token decrypts to the plaintext.
pub fn encrypt(password: &str, salt: &str, iterations: u32, plaintext: &str) -> (r: Result<
    Encrypted,
    Error,
>)
    ensures
        match r {
            Ok(token) => {
                &&& sealable(encode_utf8(plaintext@).len())
                &&& is_token_for(
                    token.iv@,
                    token.ciphertext@,
                    password@,
                    salt@,
                    iterations,
                    plaintext@,
                )
                &&& token.iv@.len() == 24
                &&& token.ciphertext@.len() == 2 * encode_utf8(plaintext@).len() + 32
                &&& decrypted(password@, salt@, iterations, token.iv@, token.ciphertext@) == Ok::<
                    Seq<char>,
                    Error,
                >(plaintext@)
            },
            Err(e) => e == Error::PlaintextTooLong && !sealable(encode_utf8(plaintext@).len()),
        },
{
    let nonce = fresh_nonce();
    encrypt_with_nonce(password, salt, iterations, &nonce, plaintext)
}

/// Decrypts a token. Fails with `MalformedToken` where the token is not
/// hexadecimal or its nonce is not 12 bytes long, with `AuthenticationFailure`
/// where the sealed name does not open under the key of `password`, and with
/// `InvalidText` where what it opens to is not UTF-8.
pub fn decrypt(password: &str, salt: &str, iterations: u32, encrypted: &Encrypted) -> (r: Result<
    String,
    Error,
>)
    ensures
        match r {
            Ok(text) => decrypted(
                password@,
                salt@,
                iterations,
                encrypted.iv@,
                encrypted.ciphertext@,
            ) == Ok::<Seq<char>, Error>(text@),
            Err(e) => decrypted(
                password@,
                salt@,
                iterations,
                encrypted.iv@,
                encrypted.ciphertext@,
            ) == Err::<Seq<char>, Error>(e),
        },
{
    let key = derive_key(password, salt, iterations);
    let iv = match decode_hex(encrypted.iv.as_str()) {
        None => {
            return Err(Error::MalformedToken);
        },
        Some(iv) => iv,
    };
    if iv.len() != 12 {
        return Err(Error::MalformedToken);
    }
    let sealed = match decode_hex(encrypted.ciphertext.as_str()) {
        None => {
            return Err(Error::MalformedToken);
        },
        Some(sealed) => sealed,
    };
    let bytes = match open(key.as_slice(), iv.as_slice(), sealed.as_slice()) {
        None => {
            return Err(Error::AuthenticationFailure);
        },
        Some(bytes) => bytes,
    };
    match text_of_utf8(bytes) {
        None => Err(Error::InvalidText),
        Some(text) => Ok(text),
    }
}

} // verus!
