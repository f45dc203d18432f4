//! What can go wrong, and the words for it.

use vstd::prelude::*;

use crate::text;
use crate::text::{cat, cat3, count_text};

verus! {

/// Everything that an operation of this library can refuse.
#[derive(Debug)]
pub enum AliazError {
    /// A name that is empty or holds a character other than ASCII letters, digits, `_`, `-` and `.`.
    InvalidName(String),
    /// No collection of this name that is not deleted.
    CollectionNotFound(String),
    /// No alias of this name that is not deleted, where one was looked for.
    AliasNotFound(String),
    /// The collection that an alias was to move to has one of that name.
    AliasExistsInTarget(String),
    /// Several collections have an alias of the name, and none was named.
    AmbiguousAlias,
    /// The shared collection cannot be deactivated.
    SharedAlwaysActive,
    /// A list of collections was empty.
    NoCollectionNames,
    /// No priority above the highest one in use is left.
    PriorityOverflow,
    /// A second collection with one id.
    DuplicateCollectionId,
    /// A second collection with one name.
    DuplicateCollectionName,
    /// A collection that is marked active twice.
    DuplicateActiveCollection,
    /// A second alias with one id.
    DuplicateAliasId,
    /// A second alias with one name in one collection.
    DuplicateAliasName,
    /// A second backup with one id.
    DuplicateBackupId,
    /// The clock gives a time before 1970.
    ClockBeforeEpoch,
    /// A line with an unfinished quotation or escape.
    UnparsableAliasLine(String),
    /// An export file of a version other than 1 and 2.
    UnsupportedExportVersion(u8),
    /// A choice among no aliases.
    NoAliases,
    /// No alias holds the search text.
    NoMatchingAlias(String),
    /// A choice was to be made without a terminal.
    NotInteractive,
    /// The system names no data directory.
    NoDataDirectory,
    /// The system names no home directory.
    NoHomeDirectory,
    /// The system names no configuration directory.
    NoConfigDirectory,
    /// Fish reads no startup file that Aliaz edits.
    NoStartupFile,
    /// The path of the program is not text.
    BinaryPathNotUtf8,
    /// No release is built for this operating system and processor.
    UnsupportedPlatform(String, String),
    /// The list of checksums does not name the archive.
    ChecksumNotFound(String),
    /// The archive is not the one that the checksum belongs to.
    ChecksumMismatch,
    /// The archive holds no program.
    ArchiveWithoutBinary,
    /// There is no account on this computer.
    SyncNotConfigured,
    /// The server answered with the given status.
    ServerRefused(String),
    /// Not an English mnemonic.
    InvalidRecoveryPhrase,
    /// The key could not be derived.
    KeyDerivation,
    /// The record is too long for the cipher.
    EncryptionFailed,
    /// The record was not sealed with this key, or was changed.
    DecryptionFailed,
    /// The record has no room for a nonce and a ciphertext.
    BlobTooShort,
    /// The record is not Base64; the text says where.
    InvalidBlob(String),
    /// An answer that the synchronisation did not ask for.
    UnexpectedEvent,
}

/// An [`AliazError`] with the texts that it carries.
#[verifier::ext_equal]
pub enum Failure {
    InvalidName(Seq<char>),
    CollectionNotFound(Seq<char>),
    AliasNotFound(Seq<char>),
    AliasExistsInTarget(Seq<char>),
    AmbiguousAlias,
    SharedAlwaysActive,
    NoCollectionNames,
    PriorityOverflow,
    DuplicateCollectionId,
    DuplicateCollectionName,
    DuplicateActiveCollection,
    DuplicateAliasId,
    DuplicateAliasName,
    DuplicateBackupId,
    ClockBeforeEpoch,
    UnparsableAliasLine(Seq<char>),
    UnsupportedExportVersion(u8),
    NoAliases,
    NoMatchingAlias(Seq<char>),
    NotInteractive,
    NoDataDirectory,
    NoHomeDirectory,
    NoConfigDirectory,
    NoStartupFile,
    BinaryPathNotUtf8,
    UnsupportedPlatform(Seq<char>, Seq<char>),
    ChecksumNotFound(Seq<char>),
    ChecksumMismatch,
    ArchiveWithoutBinary,
    SyncNotConfigured,
    ServerRefused(Seq<char>),
    InvalidRecoveryPhrase,
    KeyDerivation,
    EncryptionFailed,
    DecryptionFailed,
    BlobTooShort,
    InvalidBlob(Seq<char>),
    UnexpectedEvent,
}

impl View for AliazError {
    type V = Failure;

    open spec fn view(&self) -> Failure {
        match *self {
            AliazError::InvalidName(a) => Failure::InvalidName(a@),
            AliazError::CollectionNotFound(a) => Failure::CollectionNotFound(a@),
            AliazError::AliasNotFound(a) => Failure::AliasNotFound(a@),
            AliazError::AliasExistsInTarget(a) => Failure::AliasExistsInTarget(a@),
            AliazError::AmbiguousAlias => Failure::AmbiguousAlias,
            AliazError::SharedAlwaysActive => Failure::SharedAlwaysActive,
            AliazError::NoCollectionNames => Failure::NoCollectionNames,
            AliazError::PriorityOverflow => Failure::PriorityOverflow,
            AliazError::DuplicateCollectionId => Failure::DuplicateCollectionId,
            AliazError::DuplicateCollectionName => Failure::DuplicateCollectionName,
            AliazError::DuplicateActiveCollection => Failure::DuplicateActiveCollection,
            AliazError::DuplicateAliasId => Failure::DuplicateAliasId,
            AliazError::DuplicateAliasName => Failure::DuplicateAliasName,
            AliazError::DuplicateBackupId => Failure::DuplicateBackupId,
            AliazError::ClockBeforeEpoch => Failure::ClockBeforeEpoch,
            AliazError::UnparsableAliasLine(a) => Failure::UnparsableAliasLine(a@),
            AliazError::UnsupportedExportVersion(n) => Failure::UnsupportedExportVersion(n),
            AliazError::NoAliases => Failure::NoAliases,
            AliazError::NoMatchingAlias(a) => Failure::NoMatchingAlias(a@),
            AliazError::NotInteractive => Failure::NotInteractive,
            AliazError::NoDataDirectory => Failure::NoDataDirectory,
            AliazError::NoHomeDirectory => Failure::NoHomeDirectory,
            AliazError::NoConfigDirectory => Failure::NoConfigDirectory,
            AliazError::NoStartupFile => Failure::NoStartupFile,
            AliazError::BinaryPathNotUtf8 => Failure::BinaryPathNotUtf8,
            AliazError::UnsupportedPlatform(a, b) => Failure::UnsupportedPlatform(a@, b@),
            AliazError::ChecksumNotFound(a) => Failure::ChecksumNotFound(a@),
            AliazError::ChecksumMismatch => Failure::ChecksumMismatch,
            AliazError::ArchiveWithoutBinary => Failure::ArchiveWithoutBinary,
            AliazError::SyncNotConfigured => Failure::SyncNotConfigured,
            AliazError::ServerRefused(a) => Failure::ServerRefused(a@),
            AliazError::InvalidRecoveryPhrase => Failure::InvalidRecoveryPhrase,
            AliazError::KeyDerivation => Failure::KeyDerivation,
            AliazError::EncryptionFailed => Failure::EncryptionFailed,
            AliazError::DecryptionFailed => Failure::DecryptionFailed,
            AliazError::BlobTooShort => Failure::BlobTooShort,
            AliazError::InvalidBlob(a) => Failure::InvalidBlob(a@),
            AliazError::UnexpectedEvent => Failure::UnexpectedEvent,
        }
    }
}

/// What a user reads of a failure.
pub open spec fn message_of(f: Failure) -> Seq<char> {
    match f {
        Failure::InvalidName(a) => "invalid alias name: "@ + a,
        Failure::CollectionNotFound(a) => "collection not found: "@ + a,
        Failure::AliasNotFound(a) => "alias not found: "@ + a,
        Failure::AliasExistsInTarget(a) => "alias already exists in target collection: "@ + a,
        Failure::AmbiguousAlias => "alias is ambiguous; pass --collection"@,
        Failure::SharedAlwaysActive => "shared is always active"@,
        Failure::NoCollectionNames => "at least one collection name is required"@,
        Failure::PriorityOverflow => "collection priorities are exhausted"@,
        Failure::DuplicateCollectionId => "UNIQUE constraint failed: collections.id"@,
        Failure::DuplicateCollectionName => "UNIQUE constraint failed: collections.name"@,
        Failure::DuplicateActiveCollection => "UNIQUE constraint failed: active_collections.collection_id"@,
        Failure::DuplicateAliasId => "UNIQUE constraint failed: aliases.id"@,
        Failure::DuplicateAliasName => "UNIQUE constraint failed: aliases.collection_id, aliases.name"@,
        Failure::DuplicateBackupId => "UNIQUE constraint failed: conflict_backups.id"@,
        Failure::ClockBeforeEpoch => "system clock is before unix epoch"@,
        Failure::UnparsableAliasLine(a) => "failed to parse alias line: "@ + a,
        Failure::UnsupportedExportVersion(n) => "unsupported export version: "@ + text::decimal(n as int),
        Failure::NoAliases => "no aliases found"@,
        Failure::NoMatchingAlias(a) => "no aliases matched: "@ + a,
        Failure::NotInteractive => "select requires an interactive terminal"@,
        Failure::NoDataDirectory => "could not locate data directory"@,
        Failure::NoHomeDirectory => "could not locate home directory"@,
        Failure::NoConfigDirectory => "could not locate config directory"@,
        Failure::NoStartupFile => "fish does not use a zsh/bash startup file"@,
        Failure::BinaryPathNotUtf8 => "aliaz binary path is not valid UTF-8"@,
        Failure::UnsupportedPlatform(a, b) => "unsupported platform for update: "@ + a + " "@ + b,
        Failure::ChecksumNotFound(a) => "checksum for "@ + a + " was not found"@,
        Failure::ChecksumMismatch => "downloaded archive checksum did not match"@,
        Failure::ArchiveWithoutBinary => "release archive did not contain aliaz"@,
        Failure::SyncNotConfigured => "sync is not configured; run aliaz register or aliaz login first"@,
        Failure::ServerRefused(a) => "server returned "@ + a,
        Failure::InvalidRecoveryPhrase => "invalid recovery phrase"@,
        Failure::KeyDerivation => "failed to derive encryption key"@,
        Failure::EncryptionFailed => "failed to encrypt record"@,
        Failure::DecryptionFailed => "failed to decrypt record"@,
        Failure::BlobTooShort => "encrypted record blob is too short"@,
        Failure::InvalidBlob(a) => a,
        Failure::UnexpectedEvent => "sync step out of order"@,
    }
}

impl AliazError {
    /// What a user reads of the failure.
    pub fn message(&self) -> (r: String)
        ensures
            r@ == message_of(self@),
    {
        match self {
            AliazError::InvalidName(a) => cat("invalid alias name: ", a.as_str()),
            AliazError::CollectionNotFound(a) => cat("collection not found: ", a.as_str()),
            AliazError::AliasNotFound(a) => cat("alias not found: ", a.as_str()),
            AliazError::AliasExistsInTarget(a) => cat("alias already exists in target collection: ", a.as_str()),
            AliazError::AmbiguousAlias => "alias is ambiguous; pass --collection".to_owned(),
            AliazError::SharedAlwaysActive => "shared is always active".to_owned(),
            AliazError::NoCollectionNames => "at least one collection name is required".to_owned(),
            AliazError::PriorityOverflow => "collection priorities are exhausted".to_owned(),
            AliazError::DuplicateCollectionId => "UNIQUE constraint failed: collections.id".to_owned(),
            AliazError::DuplicateCollectionName => "UNIQUE constraint failed: collections.name".to_owned(),
            AliazError::DuplicateActiveCollection => "UNIQUE constraint failed: active_collections.collection_id".to_owned(),
            AliazError::DuplicateAliasId => "UNIQUE constraint failed: aliases.id".to_owned(),
            AliazError::DuplicateAliasName => "UNIQUE constraint failed: aliases.collection_id, aliases.name".to_owned(),
            AliazError::DuplicateBackupId => "UNIQUE constraint failed: conflict_backups.id".to_owned(),
            AliazError::ClockBeforeEpoch => "system clock is before unix epoch".to_owned(),
            AliazError::UnparsableAliasLine(a) => cat("failed to parse alias line: ", a.as_str()),
            AliazError::UnsupportedExportVersion(n) => {
                let number = count_text(*n as usize);
                cat("unsupported export version: ", number.as_str())
            },
            AliazError::NoAliases => "no aliases found".to_owned(),
            AliazError::NoMatchingAlias(a) => cat("no aliases matched: ", a.as_str()),
            AliazError::NotInteractive => "select requires an interactive terminal".to_owned(),
            AliazError::NoDataDirectory => "could not locate data directory".to_owned(),
            AliazError::NoHomeDirectory => "could not locate home directory".to_owned(),
            AliazError::NoConfigDirectory => "could not locate config directory".to_owned(),
            AliazError::NoStartupFile => "fish does not use a zsh/bash startup file".to_owned(),
            AliazError::BinaryPathNotUtf8 => "aliaz binary path is not valid UTF-8".to_owned(),
            AliazError::UnsupportedPlatform(a, b) => {
                let start = cat3("unsupported platform for update: ", a.as_str(), " ");
                cat(start.as_str(), b.as_str())
            },
            AliazError::ChecksumNotFound(a) => cat3("checksum for ", a.as_str(), " was not found"),
            AliazError::ChecksumMismatch => "downloaded archive checksum did not match".to_owned(),
            AliazError::ArchiveWithoutBinary => "release archive did not contain aliaz".to_owned(),
            AliazError::SyncNotConfigured => "sync is not configured; run aliaz register or aliaz login first".to_owned(),
            AliazError::ServerRefused(a) => cat("server returned ", a.as_str()),
            AliazError::InvalidRecoveryPhrase => "invalid recovery phrase".to_owned(),
            AliazError::KeyDerivation => "failed to derive encryption key".to_owned(),
            AliazError::EncryptionFailed => "failed to encrypt record".to_owned(),
            AliazError::DecryptionFailed => "failed to decrypt record".to_owned(),
            AliazError::BlobTooShort => "encrypted record blob is too short".to_owned(),
            AliazError::InvalidBlob(a) => a.clone(),
            AliazError::UnexpectedEvent => "sync step out of order".to_owned(),
        }
    }
}

/// A result with its error seen by the texts that it carries.
pub open spec fn seen<T>(r: Result<T, AliazError>) -> Result<T, Failure> {
    match r {
        Ok(value) => Ok(value),
        Err(e) => Err(e@),
    }
}

/// A result whose value is a text, seen by that text.
pub open spec fn seen_text(r: Result<String, AliazError>) -> Result<Seq<char>, Failure> {
    match r {
        Ok(text) => Ok(text@),
        Err(e) => Err(e@),
    }
}

/// A result whose value is a list of texts, seen by those texts.
pub open spec fn seen_texts(r: Result<Vec<String>, AliazError>) -> Result<Seq<Seq<char>>, Failure> {
    match r {
        Ok(list) => Ok(text::texts(list@)),
        Err(e) => Err(e@),
    }
}

/// A message names what was refused: it ends with the name, the line, the version or the platform
/// that the failure carries, and holds the name of the file without a checksum.
pub proof fn law_messages_name(a: Seq<char>, b: Seq<char>, n: u8)
    ensures
        exists|start: Seq<char>| message_of(Failure::InvalidName(a)) == #[trigger] (start + a),
        exists|start: Seq<char>| message_of(Failure::CollectionNotFound(a)) == #[trigger] (start + a),
        exists|start: Seq<char>| message_of(Failure::AliasNotFound(a)) == #[trigger] (start + a),
        exists|start: Seq<char>|
            message_of(Failure::AliasExistsInTarget(a)) == #[trigger] (start + a),
        exists|start: Seq<char>|
            message_of(Failure::UnparsableAliasLine(a)) == #[trigger] (start + a),
        exists|start: Seq<char>| message_of(Failure::NoMatchingAlias(a)) == #[trigger] (start + a),
        exists|start: Seq<char>| message_of(Failure::ServerRefused(a)) == #[trigger] (start + a),
        exists|start: Seq<char>|
            message_of(Failure::UnsupportedExportVersion(n)) == #[trigger] (start + text::decimal(
                n as int,
            )),
        exists|start: Seq<char>|
            message_of(Failure::UnsupportedPlatform(a, b)) == #[trigger] (start + (a + seq![' ']
                + b)),
        text::contains_text(message_of(Failure::ChecksumNotFound(a)), a),
        message_of(Failure::InvalidBlob(a)) == a,
{
    assert(message_of(Failure::InvalidName(a)) == "invalid alias name: "@ + a);
    assert(message_of(Failure::CollectionNotFound(a)) == "collection not found: "@ + a);
    assert(message_of(Failure::AliasNotFound(a)) == "alias not found: "@ + a);
    assert(message_of(Failure::AliasExistsInTarget(a))
        == "alias already exists in target collection: "@ + a);
    assert(message_of(Failure::UnparsableAliasLine(a)) == "failed to parse alias line: "@ + a);
    assert(message_of(Failure::NoMatchingAlias(a)) == "no aliases matched: "@ + a);
    assert(message_of(Failure::ServerRefused(a)) == "server returned "@ + a);
    assert(message_of(Failure::UnsupportedExportVersion(n)) == "unsupported export version: "@
        + text::decimal(n as int));
    reveal_strlit(" ");
    assert(" "@ =~= seq![' ']);
    assert(message_of(Failure::UnsupportedPlatform(a, b))
        =~= "unsupported platform for update: "@ + (a + seq![' '] + b));
    text::law_contains_text(message_of(Failure::ChecksumNotFound(a)), a);
    assert(message_of(Failure::ChecksumNotFound(a)) == "checksum for "@ + a + " was not found"@);
}

} // verus!
