//! WireGuard keys: base64 notation, public keys and wiping.
use base64::engine::general_purpose::STANDARD;
use base64::{DecodeSliceError, Engine};
use boringtun::x25519::{PublicKey, StaticSecret};
use crate::text::without_last;
use vstd::prelude::*;
use vstd::string::*;
use zeroize::Zeroize;

verus! {

/// The error of a failed base64 decoding.
#[verifier::external_type_specification]
#[verifier::external_body]
pub struct ExDecodeSliceError(DecodeSliceError);

/// Whether a character can stand in base64 notation.
pub open spec fn is_key_character_spec(c: char) -> bool {
    'a' <= c <= 'z' || 'A' <= c <= 'Z' || '0' <= c <= '9' || c == '+' || c == '/' || c == '='
}

/// Whether all characters can stand in base64 notation.
pub open spec fn all_key_characters(s: Seq<char>) -> bool {
    forall|i: int| 0 <= i < s.len() ==> is_key_character_spec(#[trigger] s[i])
}

/// The bytes that a text denotes in padded standard base64, if it is well formed.
pub uninterp spec fn base64_bytes(text: Seq<char>) -> Option<Seq<u8>>;

/// The padded standard base64 notation of some bytes.
pub uninterp spec fn base64_text(bytes: Seq<u8>) -> Seq<char>;

/// The X25519 public key that belongs to a private key.
pub uninterp spec fn x25519_public(private_key: Seq<u8>) -> Seq<u8>;

/// Whether a text is the notation of some 32 bytes.
pub open spec fn is_key_notation(text: Seq<char>) -> bool {
    exists|bytes: Seq<u8>| bytes.len() == 32 && #[trigger] base64_text(bytes) == text
}

/// `Engine::decode_slice` of base64's `STANDARD`: decodes a well-formed text of at most 32 bytes
/// into the front of the buffer, and leaves what is behind alone. Padding is required and the bits
/// behind the last byte must be zero, so that a well-formed text is the notation of its bytes and of
/// no others: base64 characters alone, four for every three bytes begun. It fails on every other
/// text; what the buffer then holds is not stated.
#[verifier::external_body]
pub(crate) fn decode_base64(text: &str, bytes: &mut [u8; 32]) -> (r: Result<usize, DecodeSliceError>)
    ensures
        match r {
            Ok(n) => n <= 32 && all_key_characters(text@) && text@.len() == 4 * ((n + 2) / 3) && (
            base64_bytes(text@) matches Some(decoded) && decoded.len() == n && final(bytes)@
                == decoded + old(bytes)@.skip(n as int) && base64_text(decoded) == text@
                && forall|other: Seq<u8>| #[trigger] base64_text(other) == text@ ==> other
                == decoded),
            Err(_) => (base64_bytes(text@) matches Some(decoded) ==> decoded.len() > 32)
                && forall|other: Seq<u8>| #[trigger] base64_text(other) == text@ ==> other.len()
                > 32,
        },
{
    STANDARD.decode_slice(text, bytes)
}

/// `Engine::encode` of base64's `STANDARD`: the notation of the key, 44 characters, which decodes to
/// the key.
#[verifier::external_body]
pub(crate) fn encode_base64(bytes: &[u8; 32]) -> (r: String)
    ensures
        r@ == base64_text(bytes@),
        r@.len() == 44,
        base64_bytes(r@) == Some(bytes@),
{
    STANDARD.encode(bytes)
}

/// `PublicKey::from(&StaticSecret)` of X25519: a function of the private key alone.
#[verifier::external_body]
pub(crate) fn public_key_of(private_key: &[u8; 32]) -> (r: [u8; 32])
    ensures
        r@ == x25519_public(private_key@),
{
    PublicKey::from(&StaticSecret::from(*private_key)).to_bytes()
}

/// `Zeroize::zeroize` of a byte array: every byte becomes zero.
#[verifier::external_body]
pub(crate) fn wipe_key(bytes: &mut [u8; 32])
    ensures
        forall|i: int| 0 <= i < 32 ==> #[trigger] final(bytes)@[i] == 0,
    opens_invariants none
    no_unwind
{
    bytes.zeroize();
}

/// A key read from its base64 notation.
pub open spec fn key_spec(text: Seq<char>) -> Option<Seq<u8>> {
    match base64_bytes(text) {
        Some(bytes) => if bytes.len() == 32 {
            Some(bytes)
        } else {
            None
        },
        None => None,
    }
}

/// Reads a key from its base64 notation into `bytes`. Where the text denotes no 32 bytes, the
/// buffer is wiped and the result is false.
pub fn decode_key(text: &str, bytes: &mut [u8; 32]) -> (r: bool)
    ensures
        r == (key_spec(text@) is Some),
        r == is_key_notation(text@),
        r ==> all_key_characters(text@) && text@.len() == 44,
        match key_spec(text@) {
            Some(key) => final(bytes)@ == key && base64_text(key) == text@,
            None => forall|i: int| 0 <= i < 32 ==> #[trigger] final(bytes)@[i] == 0,
        },
{
    let decoded = decode_base64(text, bytes);
    match decoded {
        Ok(length) => {
            if length == 32 {
                assert(bytes@ =~= base64_bytes(text@).unwrap());
                return true;
            }
            wipe_key(bytes);
            false
        },
        Err(_) => {
            wipe_key(bytes);
            false
        },
    }
}

/// A key that is wiped from memory when it is no longer used.
pub struct SecretKey {
    bytes: [u8; 32],
}

impl View for SecretKey {
    type V = Seq<u8>;

    closed spec fn view(&self) -> Seq<u8> {
        self.bytes@
    }
}

impl Drop for SecretKey {
    fn drop(&mut self)
        opens_invariants none
        no_unwind
    {
        wipe_key(&mut self.bytes);
    }
}

impl SecretKey {
    /// The key that a base64 text denotes.
    pub fn from_base64(text: &str) -> (r: Option<SecretKey>)
        ensures
            match r {
                Some(key) => key_spec(text@) == Some(key@) && key@.len() == 32
                    && all_key_characters(text@),
                None => key_spec(text@) is None,
            },
    {
        let mut key = SecretKey { bytes: [0; 32] };
        if decode_key(text, &mut key.bytes) {
            Some(key)
        } else {
            None
        }
    }

    pub fn bytes(&self) -> (r: &[u8; 32])
        ensures
            r@ == self@,
    {
        &self.bytes
    }

    /// The base64 notation of the public key that belongs to this private key.
    pub fn public_key_text(&self) -> (r: String)
        ensures
            r@ == base64_text(x25519_public(self@)),
            key_spec(r@) == Some(x25519_public(self@)),
    {
        let public_key = public_key_of(&self.bytes);
        encode_base64(&public_key)
    }
}

/// `Zeroize::zeroize` of a `String`: the text becomes empty, and its memory is wiped.
#[verifier::external_body]
pub(crate) fn wipe_text(text: &mut String)
    ensures
        final(text)@.len() == 0,
    opens_invariants none
    no_unwind
{
    text.zeroize();
}

/// A text that is wiped from memory when it is no longer used.
pub struct SecretText {
    text: String,
}

impl View for SecretText {
    type V = Seq<char>;

    closed spec fn view(&self) -> Seq<char> {
        self.text@
    }
}

impl Drop for SecretText {
    fn drop(&mut self)
        opens_invariants none
        no_unwind
    {
        wipe_text(&mut self.text);
    }
}

impl SecretText {
    pub fn new(text: String) -> (r: SecretText)
        ensures
            r@ == text@,
    {
        SecretText { text }
    }

    pub fn from_text(text: &str) -> (r: SecretText)
        ensures
            r@ == text@,
    {
        SecretText { text: text.to_string() }
    }

    pub fn as_str(&self) -> (r: &str)
        ensures
            r@ == self@,
    {
        self.text.as_str()
    }

    /// Adds a character.
    pub fn push(&mut self, c: char)
        ensures
            final(self)@ == old(self)@.push(c),
    {
        self.text.push(c);
    }

    /// Removes the last character, if there is one.
    pub fn pop(&mut self)
        ensures
            final(self)@ == without_last(old(self)@),
    {
        self.text.pop();
    }

    /// Replaces the text; the old one is wiped.
    pub fn set(&mut self, text: &str)
        ensures
            final(self)@ == text@,
    {
        wipe_text(&mut self.text);
        self.text.append(text);
        assert(self.text@ =~= text@);
    }

    pub fn is_empty(&self) -> (r: bool)
        ensures
            r == (self@.len() == 0),
    {
        self.text.as_str().is_empty()
    }

    /// Removes everything, and wipes it.
    pub fn clear(&mut self)
        ensures
            final(self)@.len() == 0,
    {
        wipe_text(&mut self.text);
    }
}

} // verus!
