//! Encrypting records, and the recovery phrase that their key comes from.

use vstd::prelude::*;

use crate::error::{AliazError, Failure};
use crate::outside;
use crate::outside::{
    base64_decode,
    base64_encode,
    cipher_open,
    cipher_seal,
    hkdf_derive,
    mnemonic_accepted,
    random_mnemonic,
    random_nonce,
    CIPHER_LIMIT,
    HASH_LIMIT,
};
use crate::text;

verus! {

/// How many words a recovery phrase has.
pub const PHRASE_WORDS: usize = 24;

/// A result whose value is bytes.
pub open spec fn seen_bytes(r: Result<Vec<u8>, AliazError>) -> Result<Seq<u8>, Failure> {
    match r {
        Ok(bytes) => Ok(bytes@),
        Err(e) => Err(e@),
    }
}

// ---------------------------------------------------------------------------
// The recovery phrase
// ---------------------------------------------------------------------------
/// A new recovery phrase: a mnemonic of 24 words. Which one is left to chance.
pub fn new_recovery_phrase() -> (r: Result<String, AliazError>)
    ensures
        r matches Ok(phrase) && outside::is_mnemonic(phrase@) && text::split_on(phrase@, ' ').len()
            == PHRASE_WORDS,
{
    match random_mnemonic(PHRASE_WORDS) {
        Some(phrase) => Ok(phrase),
        None => Err(AliazError::InvalidRecoveryPhrase),
    }
}

/// Accepts exactly the mnemonics. None has a number of words that is not allowed.
pub fn check_recovery_phrase(phrase: &str) -> (r: Result<(), AliazError>)
    ensures
        r is Ok <==> outside::is_mnemonic(phrase@),
        r is Ok ==> outside::word_count_allowed(text::words_of(phrase@).len() as int),
        r matches Err(e) ==> e@ == Failure::InvalidRecoveryPhrase,
{
    accept_recovery_phrase(mnemonic_accepted(phrase))
}

/// What follows from whether a phrase is a mnemonic.
pub fn accept_recovery_phrase(is_mnemonic: bool) -> (r: Result<(), AliazError>)
    ensures
        r is Ok <==> is_mnemonic,
        r matches Err(e) ==> e@ == Failure::InvalidRecoveryPhrase,
{
    if is_mnemonic {
        Ok(())
    } else {
        Err(AliazError::InvalidRecoveryPhrase)
    }
}

/// The key that a recovery phrase stands for.
pub open spec fn key_of(phrase: Seq<char>) -> Seq<u8> {
    outside::hkdf_sha256(
        vstd::utf8::encode_utf8("aliaz recovery phrase v1"@),
        vstd::utf8::encode_utf8(phrase),
        vstd::utf8::encode_utf8("alias record encryption"@),
    )
}

/// The key that a recovery phrase stands for. A phrase that is too long to be hashed has none.
pub fn derive_key(recovery_phrase: &str) -> (r: Result<[u8; 32], AliazError>)
    ensures
        if vstd::utf8::encode_utf8(recovery_phrase@).len() + 64 < HASH_LIMIT {
            r matches Ok(key) && key@ == key_of(recovery_phrase@)
        } else {
            r matches Err(e) && e@ == Failure::KeyDerivation
        },
{
    let secret = recovery_phrase.as_bytes();
    if secret.len() as u64 >= HASH_LIMIT - 64 {
        return Err(AliazError::KeyDerivation);
    }
    let salt = "aliaz recovery phrase v1".as_bytes();
    let info = "alias record encryption".as_bytes();
    proof {
        reveal_strlit("aliaz recovery phrase v1");
        reveal_strlit("alias record encryption");
        vstd::utf8::is_ascii_chars_encode_utf8("aliaz recovery phrase v1"@);
        vstd::utf8::is_ascii_chars_encode_utf8("alias record encryption"@);
    }
    match hkdf_derive(salt, secret, info) {
        Some(key) => Ok(key),
        None => Err(AliazError::KeyDerivation),
    }
}

// ---------------------------------------------------------------------------
// Records
// ---------------------------------------------------------------------------
/// An encrypted record: the nonce, then the ciphertext, as text.
pub open spec fn sealed_record(key: Seq<u8>, nonce: Seq<u8>, plaintext: Seq<u8>) -> Seq<char> {
    outside::base64_encoded(nonce + outside::cipher_sealed(key, nonce, plaintext))
}

/// What an encrypted blob of a nonce and a ciphertext holds.
pub open spec fn opened_blob(key: Seq<u8>, blob: Seq<u8>) -> Result<Seq<u8>, Failure> {
    if blob.len() < 25 {
        Err(Failure::BlobTooShort)
    } else if blob.len() - 24 > CIPHER_LIMIT + 16 {
        Err(Failure::DecryptionFailed)
    } else {
        match outside::cipher_opened(key, blob.take(24), blob.skip(24)) {
            Some(plaintext) => Ok(plaintext),
            None => Err(Failure::DecryptionFailed),
        }
    }
}

/// What an encrypted record holds.
pub open spec fn opened_record(key: Seq<u8>, record: Seq<char>) -> Result<Seq<u8>, Failure> {
    match outside::base64_decoded(record) {
        Ok(blob) => opened_blob(key, blob),
        Err(message) => Err(Failure::InvalidBlob(message)),
    }
}

/// The plaintext can be encrypted and its ciphertext written as text.
pub open spec fn can_be_sealed(plaintext: Seq<u8>) -> bool {
    plaintext.len() <= CIPHER_LIMIT && plaintext.len() + 40 <= isize::MAX / 4 * 3
}

/// Encrypts a record with a given nonce. What comes out decrypts to the plaintext.
pub fn seal_record(key: &[u8; 32], nonce: &[u8; 24], plaintext: &[u8]) -> (r: Result<
    String,
    AliazError,
>)
    ensures
        if can_be_sealed(plaintext@) {
            r matches Ok(record) && record@ == sealed_record(key@, nonce@, plaintext@)
                && opened_record(key@, record@) == Ok::<Seq<u8>, Failure>(plaintext@)
        } else {
            r matches Err(e) && e@ == Failure::EncryptionFailed
        },
{
    let most: usize = (isize::MAX / 4 * 3) as usize;
    if plaintext.len() as u64 > CIPHER_LIMIT || plaintext.len() > most - 40 {
        return Err(AliazError::EncryptionFailed);
    }
    let ciphertext = match cipher_seal(key, nonce, plaintext) {
        Some(ciphertext) => ciphertext,
        None => {
            return Err(AliazError::EncryptionFailed);
        },
    };
    let mut blob: Vec<u8> = Vec::new();
    for i in 0..24usize
        invariant
            blob@ =~= nonce@.take(i as int),
    {
        blob.push(nonce[i]);
    }
    for i in 0..ciphertext.len()
        invariant
            blob@ =~= nonce@ + ciphertext@.take(i as int),
    {
        blob.push(ciphertext[i]);
    }
    assert(blob@ =~= nonce@ + ciphertext@);
    assert(blob@.take(24) =~= nonce@);
    assert(blob@.skip(24) =~= ciphertext@);
    Ok(base64_encode(blob.as_slice()))
}

/// Encrypts a record with a random nonce. What comes out decrypts to the plaintext.
pub fn encrypt_record(key: &[u8; 32], plaintext: &[u8]) -> (r: Result<String, AliazError>)
    ensures
        if can_be_sealed(plaintext@) {
            r matches Ok(record) && opened_record(key@, record@) == Ok::<Seq<u8>, Failure>(
                plaintext@,
            ) && exists|nonce: Seq<u8>| #[trigger]
                nonce.len() == 24 && record@ == sealed_record(key@, nonce, plaintext@)
        } else {
            r matches Err(e) && e@ == Failure::EncryptionFailed
        },
{
    let nonce = random_nonce();
    let r = seal_record(key, &nonce, plaintext);
    assert(nonce@.len() == 24);
    r
}

/// Decrypts a blob of a nonce and a ciphertext.
pub fn open_blob(key: &[u8; 32], blob: &[u8]) -> (r: Result<Vec<u8>, AliazError>)
    ensures
        seen_bytes(r) == opened_blob(key@, blob@),
{
    if blob.len() < 25 {
        return Err(AliazError::BlobTooShort);
    }
    if (blob.len() - 24) as u64 > CIPHER_LIMIT + 16 {
        return Err(AliazError::DecryptionFailed);
    }
    let mut nonce = [0u8; 24];
    for i in 0..24usize
        invariant
            blob@.len() >= 25,
            nonce@.len() == 24,
            forall|k: int| 0 <= k < i ==> nonce@[k] == blob@[k],
    {
        nonce[i] = blob[i];
    }
    let mut ciphertext: Vec<u8> = Vec::new();
    for i in 24..blob.len()
        invariant
            24 <= i <= blob@.len(),
            ciphertext@ =~= blob@.subrange(24, i as int),
    {
        ciphertext.push(blob[i]);
    }
    assert(nonce@ =~= blob@.take(24));
    assert(ciphertext@ =~= blob@.skip(24));
    match cipher_open(key, &nonce, ciphertext.as_slice()) {
        Some(plaintext) => Ok(plaintext),
        None => Err(AliazError::DecryptionFailed),
    }
}

/// Decrypts a record.
pub fn decrypt_record(key: &[u8; 32], encrypted_blob: &str) -> (r: Result<Vec<u8>, AliazError>)
    ensures
        seen_bytes(r) == opened_record(key@, encrypted_blob@),
{
    match base64_decode(encrypted_blob) {
        Ok(blob) => open_blob(key, blob.as_slice()),
        Err(message) => Err(AliazError::InvalidBlob(message)),
    }
}

/// A record that was written as a nonce and a ciphertext is opened with just these; one that is too
/// short for both, or that does not open, is refused.
pub proof fn law_opened_parts(key: Seq<u8>, record: Seq<char>, nonce: Seq<u8>, ciphertext: Seq<u8>)
    requires
        nonce.len() == 24,
        outside::base64_decoded(record) == Ok::<Seq<u8>, Seq<char>>(nonce + ciphertext),
    ensures
        ciphertext.len() == 0 ==> opened_record(key, record) == Err::<Seq<u8>, Failure>(
            Failure::BlobTooShort,
        ),
        0 < ciphertext.len() <= CIPHER_LIMIT + 16 ==> opened_record(key, record) == match
            outside::cipher_opened(key, nonce, ciphertext) {
            Some(plaintext) => Ok::<Seq<u8>, Failure>(plaintext),
            None => Err(Failure::DecryptionFailed),
        },
        ciphertext.len() > CIPHER_LIMIT + 16 ==> opened_record(key, record) == Err::<
            Seq<u8>,
            Failure,
        >(Failure::DecryptionFailed),
{
    let blob = nonce + ciphertext;
    assert(blob.take(24) =~= nonce);
    assert(blob.skip(24) =~= ciphertext);
}

/// What is no nonce, or no text of bytes at all, cannot be opened.
pub proof fn law_not_opened(key: Seq<u8>, record: Seq<char>)
    ensures
        outside::base64_decoded(record) matches Ok(blob) ==> (blob.len() <= 24 ==> opened_record(
            key,
            record,
        ) == Err::<Seq<u8>, Failure>(Failure::BlobTooShort)),
        outside::base64_decoded(record) matches Err(message) ==> opened_record(key, record)
            == Err::<Seq<u8>, Failure>(Failure::InvalidBlob(message)),
{
}

/// Whatever has up to a thousand million bytes can be encrypted, and what is shorter than something
/// that can be encrypted can be too.
pub proof fn law_can_be_sealed(a: Seq<u8>, b: Seq<u8>)
    ensures
        a.len() <= 1_000_000_000 ==> can_be_sealed(a),
        a.len() <= b.len() && can_be_sealed(b) ==> can_be_sealed(a),
        a.len() > CIPHER_LIMIT || a.len() + 40 > isize::MAX / 4 * 3 ==> !can_be_sealed(a),
{
}

/// The text is written as one byte for each of its characters.
pub open spec fn ascii_bytes(s: Seq<char>) -> Seq<u8> {
    s.map_values(|c: char| c as u8)
}

/// The key is derived from the bytes of the phrase, all of them, with a salt and an info that do not
/// change.
pub proof fn law_key(phrase: Seq<char>)
    ensures
        key_of(phrase) == outside::hkdf_sha256(
            ascii_bytes("aliaz recovery phrase v1"@),
            vstd::utf8::encode_utf8(phrase),
            ascii_bytes("alias record encryption"@),
        ),
{
    reveal_strlit("aliaz recovery phrase v1");
    reveal_strlit("alias record encryption");
    vstd::utf8::is_ascii_chars_encode_utf8("aliaz recovery phrase v1"@);
    vstd::utf8::is_ascii_chars_encode_utf8("alias record encryption"@);
    assert(vstd::utf8::encode_utf8("aliaz recovery phrase v1"@) =~= ascii_bytes(
        "aliaz recovery phrase v1"@,
    ));
    assert(vstd::utf8::encode_utf8("alias record encryption"@) =~= ascii_bytes(
        "alias record encryption"@,
    ));
}

} // verus!
