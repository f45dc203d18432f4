//! The calls into other crates, each with what is known of it.

use vstd::prelude::*;

use crate::names;
use crate::shell;
use crate::text;

verus! {

// ---------------------------------------------------------------------------
// uuid
// ---------------------------------------------------------------------------
pub open spec fn lower_hex(c: char) -> bool {
    '0' <= c <= '9' || 'a' <= c <= 'f'
}

/// The text of a random UUID: groups of 8, 4, 4, 4 and 12 lower-case hexadecimal digits with
/// hyphens between them, with the version and the variant of random ones.
pub open spec fn is_random_uuid(s: Seq<char>) -> bool {
    &&& s.len() == 36
    &&& s[8] == '-'
    &&& s[13] == '-'
    &&& s[18] == '-'
    &&& s[23] == '-'
    &&& forall|i: int|
        0 <= i < 36 && i != 8 && i != 13 && i != 18 && i != 23 ==> lower_hex(#[trigger] s[i])
    &&& s[14] == '4'
    &&& s[19] == '8' || s[19] == '9' || s[19] == 'a' || s[19] == 'b'
}

/// `uuid::Uuid::new_v4`, printed. Every outcome has the shape of a random UUID. Which one comes is
/// left to chance, so no two calls are known to differ or to agree.
#[verifier::external_body]
pub(crate) fn random_uuid() -> (r: String)
    ensures
        is_random_uuid(r@),
{
    uuid::Uuid::new_v4().to_string()
}

// ---------------------------------------------------------------------------
// rand
// ---------------------------------------------------------------------------
/// `rand::thread_rng` and `RngCore::fill_bytes`: bytes that are left to chance, of which nothing is
/// known.
#[verifier::external_body]
pub(crate) fn random_nonce() -> (r: [u8; 24]) {
    let mut nonce = [0u8; 24];
    rand::RngCore::fill_bytes(&mut rand::thread_rng(), &mut nonce);
    nonce
}

// ---------------------------------------------------------------------------
// sha2 and hkdf
// ---------------------------------------------------------------------------
/// The length, in bytes, that SHA-256 cannot take any more: its length in bits does not fit.
pub const HASH_LIMIT: u64 = 0x2000_0000_0000_0000;

/// The SHA-256 digest of a text of bytes.
pub uninterp spec fn sha256(bytes: Seq<u8>) -> Seq<u8>;

/// `sha2::Sha256::digest`: the digest depends on the bytes alone.
#[verifier::external_body]
pub(crate) fn sha256_digest(bytes: &[u8]) -> (r: [u8; 32])
    requires
        bytes@.len() < HASH_LIMIT,
    ensures
        r@ == sha256(bytes@),
{
    <sha2::Sha256 as sha2::Digest>::digest(bytes).into()
}

/// The first 32 bytes that HKDF with SHA-256 derives from a salt, a secret and an info.
pub uninterp spec fn hkdf_sha256(salt: Seq<u8>, secret: Seq<u8>, info: Seq<u8>) -> Seq<u8>;

/// `hkdf::Hkdf::<Sha256>::new` and `expand` into 32 bytes, which is never too long: the bytes
/// depend on the salt, the secret and the info alone.
#[verifier::external_body]
pub(crate) fn hkdf_derive(salt: &[u8], secret: &[u8], info: &[u8]) -> (r: Option<[u8; 32]>)
    requires
        salt@.len() < HASH_LIMIT,
        secret@.len() + 64 < HASH_LIMIT,
        info@.len() + 97 < HASH_LIMIT,
    ensures
        r is Some,
        r.unwrap()@ == hkdf_sha256(salt@, secret@, info@),
{
    let mut key = [0u8; 32];
    hkdf::Hkdf::<sha2::Sha256>::new(Some(salt), secret).expand(info, &mut key).ok()?;
    Some(key)
}

// ---------------------------------------------------------------------------
// chacha20poly1305
// ---------------------------------------------------------------------------
/// The longest plaintext, in bytes, that the key stream lasts for.
pub const CIPHER_LIMIT: u64 = 0x3f_ffff_ff80;

/// The ciphertext and tag of XChaCha20-Poly1305.
pub uninterp spec fn cipher_sealed(key: Seq<u8>, nonce: Seq<u8>, plaintext: Seq<u8>) -> Seq<u8>;

/// The plaintext of a ciphertext and tag of XChaCha20-Poly1305, where the tag is right.
pub uninterp spec fn cipher_opened(key: Seq<u8>, nonce: Seq<u8>, ciphertext: Seq<u8>) -> Option<
    Seq<u8>,
>;

/// `chacha20poly1305::XChaCha20Poly1305::encrypt`: the ciphertext depends on the key, the nonce and
/// the plaintext alone, is 16 bytes longer than the plaintext, and decrypts to it.
#[verifier::external_body]
pub(crate) fn cipher_seal(key: &[u8; 32], nonce: &[u8; 24], plaintext: &[u8]) -> (r: Option<
    Vec<u8>,
>)
    requires
        plaintext@.len() <= CIPHER_LIMIT,
        plaintext@.len() + 16 <= isize::MAX,
    ensures
        r is Some,
        r.unwrap()@ == cipher_sealed(key@, nonce@, plaintext@),
        r.unwrap()@.len() == plaintext@.len() + 16,
        cipher_opened(key@, nonce@, r.unwrap()@) == Some(plaintext@),
{
    let cipher = <chacha20poly1305::XChaCha20Poly1305 as chacha20poly1305::KeyInit>::new(key.into());
    let nonce = chacha20poly1305::XNonce::from_slice(nonce);
    chacha20poly1305::aead::Aead::encrypt(&cipher, nonce, plaintext).ok()
}

/// `chacha20poly1305::XChaCha20Poly1305::decrypt`: what comes out, if anything, depends on the key,
/// the nonce and the ciphertext alone.
#[verifier::external_body]
pub(crate) fn cipher_open(key: &[u8; 32], nonce: &[u8; 24], ciphertext: &[u8]) -> (r: Option<
    Vec<u8>,
>)
    requires
        ciphertext@.len() <= CIPHER_LIMIT + 16,
    ensures
        match r {
            Some(plaintext) => cipher_opened(key@, nonce@, ciphertext@) == Some(plaintext@),
            None => cipher_opened(key@, nonce@, ciphertext@) is None,
        },
{
    let cipher = <chacha20poly1305::XChaCha20Poly1305 as chacha20poly1305::KeyInit>::new(key.into());
    let nonce = chacha20poly1305::XNonce::from_slice(nonce);
    chacha20poly1305::aead::Aead::decrypt(&cipher, nonce, ciphertext).ok()
}

// ---------------------------------------------------------------------------
// base64
// ---------------------------------------------------------------------------
/// The standard base64 text of bytes, with padding.
pub uninterp spec fn base64_encoded(bytes: Seq<u8>) -> Seq<char>;

/// The bytes of a standard base64 text, or what is said of a text that is none.
pub uninterp spec fn base64_decoded(s: Seq<char>) -> Result<Seq<u8>, Seq<char>>;

/// `base64::Engine::encode` of the standard engine: the text depends on the bytes alone, and
/// decodes to them. A text whose length does not fit is left out.
#[verifier::external_body]
pub(crate) fn base64_encode(bytes: &[u8]) -> (r: String)
    requires
        bytes@.len() <= isize::MAX / 4 * 3,
    ensures
        r@ == base64_encoded(bytes@),
        base64_decoded(r@) is Ok,
        base64_decoded(r@)->Ok_0 == bytes@,
{
    base64::Engine::encode(&base64::engine::general_purpose::STANDARD, bytes)
}

/// `base64::Engine::decode` of the standard engine, with its error as text: what comes out depends
/// on the text alone.
#[verifier::external_body]
pub(crate) fn base64_decode(s: &str) -> (r: Result<Vec<u8>, String>)
    ensures
        match r {
            Ok(bytes) => base64_decoded(s@) == Ok::<Seq<u8>, Seq<char>>(bytes@),
            Err(message) => base64_decoded(s@) == Err::<Seq<u8>, Seq<char>>(message@),
        },
{
    base64::Engine::decode(&base64::engine::general_purpose::STANDARD, s).map_err(|e| e.to_string())
}

// ---------------------------------------------------------------------------
// bip39
// ---------------------------------------------------------------------------
/// The text is an English mnemonic: known words, of a number that is allowed, with the right
/// checksum.
pub uninterp spec fn is_mnemonic(s: Seq<char>) -> bool;

/// How many words a mnemonic may have.
pub open spec fn word_count_allowed(n: int) -> bool {
    12 <= n <= 24 && n % 3 == 0
}

/// `bip39::Mnemonic::parse_in_normalized` in English: whether a text is accepted depends on the
/// text alone, and one with a number of words that is not allowed is not.
#[verifier::external_body]
pub(crate) fn mnemonic_accepted(s: &str) -> (r: bool)
    ensures
        r == is_mnemonic(s@),
        r ==> word_count_allowed(text::words_of(s@).len() as int),
{
    bip39::Mnemonic::parse_in_normalized(bip39::Language::English, s).is_ok()
}

/// `bip39::Mnemonic::generate_in` in English, printed: there is a mnemonic for every number of
/// words that is allowed, and it has that many, with a space between one and the next. Which one
/// comes is left to chance.
#[verifier::external_body]
pub(crate) fn random_mnemonic(words: usize) -> (r: Option<String>)
    requires
        word_count_allowed(words as int),
    ensures
        r is Some,
        is_mnemonic(r.unwrap()@),
        text::split_on(r.unwrap()@, ' ').len() == words,
{
    bip39::Mnemonic::generate_in(bip39::Language::English, words).ok().map(|m| m.to_string())
}

// ---------------------------------------------------------------------------
// shlex
// ---------------------------------------------------------------------------
/// The words that a POSIX shell reads from a text, `None` where a quotation or an escape is not
/// finished.
pub uninterp spec fn shell_words(s: Seq<char>) -> Option<Seq<Seq<char>>>;

/// A beginning of a word that means itself: letters, digits, `_`, `-`, `.` and `=`, or nothing.
pub open spec fn plain_start(s: Seq<char>) -> bool {
    forall|i: int| 0 <= i < s.len() ==> names::name_char(#[trigger] s[i]) || s[i] == '='
}

/// A text in single quotes, alone or behind a plain beginning, is one word.
pub open spec fn quoted_is_one_word(s: Seq<char>, words: Option<Seq<Seq<char>>>) -> bool {
    forall|start: Seq<char>, value: Seq<char>|
        #![trigger start + shell::quoted(value)]
        plain_start(start) && s == start + shell::quoted(value) ==> words == Some(
            seq![start + value],
        )
}

/// The words in an optional list.
pub open spec fn seen_words(r: Option<Vec<String>>) -> Option<Seq<Seq<char>>> {
    match r {
        Some(words) => Some(text::texts(words@)),
        None => None,
    }
}

/// `shlex::split`: the words depend on the text alone. A text in single quotes, alone or behind a
/// plain beginning, is one word.
#[verifier::external_body]
pub(crate) fn split_words(s: &str) -> (r: Option<Vec<String>>)
    ensures
        seen_words(r) == shell_words(s@),
        quoted_is_one_word(s@, seen_words(r)),
{
    shlex::split(s)
}

} // verus!
