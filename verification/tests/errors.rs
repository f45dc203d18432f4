//! Every error, with what gives it and the words for it.

use aliaz::account::{account_request, load_config, require_config, StoredSyncConfig};
use aliaz::clock::{now_unix, Clock};
use aliaz::commands;
use aliaz::crypto::{
    check_recovery_phrase, decrypt_record, derive_key, encrypt_record, new_recovery_phrase,
    open_blob, seal_record,
};
use aliaz::error::AliazError;
use aliaz::names::{collection_id_for_name, secret_file_name, validate_name};
use aliaz::parse::parse_aliases;
use aliaz::paths::{
    config_path, database_path, default_zshrc_path, home_dir, recovery_phrase_available,
    secret_path, shell_config_home, shell_integration_path, startup_path, Base, Named,
};
use aliaz::records::{AliasPayload, CollectionPayload, RemoteRecord};
use aliaz::release::{
    checksum_for_asset, extract_release_binary, release_base_url, release_target,
    update_directory_name, update_release_binary, verify_checksum,
};
use aliaz::rows::{ActiveRow, AliasRow, BackupRow, CollectionRow, Tables};
use aliaz::select::select_alias;
use aliaz::shell::{shell_integration_contents, Shell};
use aliaz::store::Store;
use aliaz::sync::SyncSession;
use aliaz::transfer::{import_file, ExportAlias, ExportCollection, ExportFile};

fn clock() -> Clock {
    Clock { seconds: Some(100) }
}

fn no_clock() -> Clock {
    Clock { seconds: None }
}

fn tables() -> Tables {
    Tables { collections: vec![], active: vec![], aliases: vec![], backups: vec![] }
}

fn empty() -> Store {
    Store::open(tables(), &clock()).unwrap()
}

fn message<T>(result: Result<T, AliazError>) -> String {
    match result {
        Ok(_) => panic!("no error"),
        Err(error) => error.message(),
    }
}

fn collection(id: &str, name: &str) -> CollectionRow {
    CollectionRow {
        id: id.to_owned(),
        name: name.to_owned(),
        deleted: false,
        dirty: false,
        sync_version: 0,
        created_at: 1,
        updated_at: 1,
    }
}

fn alias(id: &str, collection_id: &str, name: &str) -> AliasRow {
    AliasRow {
        id: id.to_owned(),
        collection_id: collection_id.to_owned(),
        name: name.to_owned(),
        command: "c".to_owned(),
        deleted: false,
        dirty: false,
        sync_version: 0,
        created_at: 1,
        updated_at: 1,
    }
}

fn active(collection_id: &str, priority: i64) -> ActiveRow {
    ActiveRow { collection_id: collection_id.to_owned(), priority }
}

fn backup(id: &str) -> BackupRow {
    BackupRow {
        id: id.to_owned(),
        alias_name: "shared/a".to_owned(),
        command: "c".to_owned(),
        remote_version: 1,
        created_at: 1,
    }
}

fn record(id: &str) -> RemoteRecord {
    RemoteRecord {
        id: id.to_owned(),
        record_type: "alias".to_owned(),
        encrypted_blob: String::new(),
        version: 1,
    }
}

fn incoming(collection_id: &str, collection_name: &str, name: &str) -> AliasPayload {
    AliasPayload {
        collection_id: collection_id.to_owned(),
        collection_name: collection_name.to_owned(),
        name: name.to_owned(),
        command: "c".to_owned(),
        deleted: false,
        updated_at: 1_000,
    }
}

fn nothing_named() -> Named {
    Named {
        aliaz_data_home: false,
        alias_tool_home: false,
        data_directory: false,
        aliaz_config_home: false,
        xdg_config_home: false,
        config_directory: false,
        aliaz_secret_home: false,
        aliaz_test_secret_home: false,
        home: false,
    }
}

#[test]
fn invalid_names() {
    for name in ["", "a b", "a/b", "ä", "a=b", "a'"] {
        assert_eq!(message(validate_name(name)), format!("invalid alias name: {name}"));
    }
    for name in ["a", "A-z_0.9", "-", "..."] {
        assert!(validate_name(name).is_ok());
    }
    let mut store = empty();
    assert_eq!(
        message(store.upsert_in_collection("no good", "a", "b", &clock())),
        "invalid alias name: no good"
    );
}

#[test]
fn missing_collections_and_aliases() {
    let mut store = empty();
    assert_eq!(message(store.collection_by_name("mac")), "collection not found: mac");
    assert_eq!(message(store.list_all(Some("mac"))), "collection not found: mac");
    assert_eq!(message(store.delete_alias(None, "gs", &clock())), "alias not found: gs");
    assert_eq!(
        message(store.update_alias(Some("shared"), "gs", "x", &clock())),
        "alias not found: gs"
    );
    assert_eq!(
        message(store.move_alias("gs", "shared", "shared", &clock())),
        "alias not found: gs"
    );
}

#[test]
fn an_alias_does_not_move_onto_another() {
    let mut store = empty();
    store.create_collection("mac", &clock()).unwrap();
    store.upsert_in_collection("mac", "ls", "ls -G", &clock()).unwrap();
    store.upsert_in_collection("shared", "ls", "ls", &clock()).unwrap();
    assert_eq!(
        message(store.move_alias("ls", "mac", "shared", &clock())),
        "alias already exists in target collection: ls"
    );
    assert_eq!(message(store.resolve_alias_scope(None, "ls")), "alias is ambiguous; pass --collection");
    // One that is deleted still has its place.
    store.delete_alias(Some("shared"), "ls", &clock()).unwrap();
    assert_eq!(
        message(store.move_alias("ls", "mac", "shared", &clock())),
        "UNIQUE constraint failed: aliases.collection_id, aliases.name"
    );
    assert_eq!(store.resolve_alias_scope(None, "ls").unwrap().name, "mac");
}

#[test]
fn the_shared_collection_stays_active() {
    let mut store = empty();
    assert_eq!(
        message(commands::collection_deactivate(&mut store, "shared")),
        "shared is always active"
    );
}

#[test]
fn activating_needs_a_name() {
    let mut store = empty();
    assert_eq!(
        message(commands::collection_activate(&mut store, &vec![])),
        "at least one collection name is required"
    );
    assert_eq!(
        commands::collection_activate(&mut store, &vec!["shared".to_owned()]).unwrap(),
        ["No collections changed"]
    );
}

#[test]
fn priorities_end() {
    let mut rows = tables();
    rows.collections = vec![collection("collection:a", "a"), collection("collection:b", "b")];
    rows.active = vec![active("collection:a", i64::MAX)];
    let mut store = Store::open(rows, &clock()).unwrap();
    assert_eq!(message(store.next_collection_priority()), "collection priorities are exhausted");
    assert_eq!(
        message(store.activate_collections(&vec!["b".to_owned()])),
        "collection priorities are exhausted"
    );
}

#[test]
fn keys_are_not_used_twice() {
    let mut rows = tables();
    rows.collections = vec![collection("a", "x"), collection("a", "y")];
    assert_eq!(message(Store::open(rows, &clock())), "UNIQUE constraint failed: collections.id");

    let mut rows = tables();
    rows.collections = vec![collection("a", "x"), collection("b", "x")];
    assert_eq!(message(Store::open(rows, &clock())), "UNIQUE constraint failed: collections.name");

    let mut rows = tables();
    rows.collections = vec![collection("other", "shared")];
    assert_eq!(message(Store::open(rows, &clock())), "UNIQUE constraint failed: collections.name");

    let mut rows = tables();
    rows.active = vec![active("collection:shared", 0), active("collection:shared", 1)];
    assert_eq!(
        message(Store::open(rows, &clock())),
        "UNIQUE constraint failed: active_collections.collection_id"
    );

    let mut rows = tables();
    rows.aliases = vec![alias("1", "collection:shared", "a"), alias("1", "collection:shared", "b")];
    assert_eq!(message(Store::open(rows, &clock())), "UNIQUE constraint failed: aliases.id");

    let mut rows = tables();
    rows.aliases = vec![alias("1", "collection:shared", "a"), alias("2", "collection:shared", "a")];
    assert_eq!(
        message(Store::open(rows, &clock())),
        "UNIQUE constraint failed: aliases.collection_id, aliases.name"
    );

    let mut rows = tables();
    rows.backups = vec![backup("1"), backup("1")];
    assert_eq!(message(Store::open(rows, &clock())), "UNIQUE constraint failed: conflict_backups.id");
}

#[test]
fn rows_without_their_collection_join_nothing() {
    let mut rows = tables();
    rows.aliases = vec![alias("1", "collection:none", "a")];
    rows.aliases[0].dirty = true;
    rows.active = vec![active("collection:none", 4)];
    let mut store = Store::open(rows, &clock()).unwrap();
    assert!(store.list_effective().is_empty());
    assert!(store.list_all(None).unwrap().is_empty());
    assert!(store.pending_aliases().is_empty());
    assert_eq!(store.status().pending, 1);
    assert!(store.find_alias_by_collection_and_name("collection:none", "a").is_none());
    assert_eq!(message(store.delete_alias(None, "a", &clock())), "alias not found: a");
    assert_eq!(store.next_collection_priority().unwrap(), 5);

    // With their collection they are there.
    store.create_collection("none", &clock()).unwrap();
    assert_eq!(store.list_effective()[0].name, "a");
    assert_eq!(store.pending_aliases().len(), 1);
    assert_eq!(store.collection_by_name("none").unwrap().priority, 4);
}

#[test]
fn incoming_records_do_not_take_keys() {
    let mut rows = tables();
    rows.collections = vec![collection("collection:a", "b")];
    let mut store = Store::open(rows, &clock()).unwrap();
    assert_eq!(
        message(store.create_collection("a", &clock())),
        "UNIQUE constraint failed: collections.id"
    );
    let payload = CollectionPayload { name: "c".to_owned(), deleted: false, updated_at: 5 };
    assert_eq!(
        message(store.apply_remote_collection(&record("collection:a"), &payload, &clock())),
        "UNIQUE constraint failed: collections.id"
    );
    assert_eq!(
        message(store.ensure_remote_collection("collection:a", "c", &clock())),
        "UNIQUE constraint failed: collections.id"
    );

    store.upsert_with_id("shared", "one", "c", "id-1".to_owned(), &clock()).unwrap();
    assert_eq!(
        message(store.upsert_with_id("shared", "two", "c", "id-1".to_owned(), &clock())),
        "UNIQUE constraint failed: aliases.id"
    );
    let payload = incoming("collection:shared", "shared", "two");
    assert_eq!(
        message(store.apply_remote_alias(&record("id-1"), &payload, &clock())),
        "UNIQUE constraint failed: aliases.id"
    );
    let payload = incoming("collection:shared", "shared", "one");
    store
        .apply_remote_alias_with_backup_id(&record("id-1"), &payload, "b".to_owned(), &clock())
        .unwrap();
    store.update_alias(None, "one", "again", &clock()).unwrap();
    assert_eq!(
        message(store.apply_remote_alias_with_backup_id(
            &record("id-1"),
            &payload,
            "b".to_owned(),
            &clock()
        )),
        "UNIQUE constraint failed: conflict_backups.id"
    );
    assert_eq!(
        message(store.apply_remote_alias(
            &record("id-1"),
            &incoming("collection:shared", "sha red", "one"),
            &clock()
        )),
        "invalid alias name: sha red"
    );
}

#[test]
fn the_clock_is_needed() {
    assert_eq!(message(now_unix(&no_clock())), "system clock is before unix epoch");
    assert_eq!(now_unix(&Clock { seconds: Some(7) }).unwrap(), 7);
    assert_eq!(now_unix(&Clock { seconds: Some(u64::MAX) }).unwrap(), -1);
    assert_eq!(message(Store::open(tables(), &no_clock())), "system clock is before unix epoch");
    let mut store = empty();
    assert!(matches!(
        store.create_collection("mac", &no_clock()),
        Err(AliazError::ClockBeforeEpoch)
    ));
    assert!(matches!(
        parse_aliases("alias a=b", &no_clock()),
        Err(AliazError::ClockBeforeEpoch)
    ));
    assert!(parse_aliases("a=b", &no_clock()).unwrap().is_empty());
}

#[test]
fn unfinished_lines_are_not_read() {
    assert_eq!(
        message(parse_aliases("alias ok=1\n alias a='b \n", &clock())),
        "failed to parse alias line: alias a='b"
    );
    assert_eq!(message(parse_aliases("alias a/b=c", &clock())), "invalid alias name: a/b");
}

#[test]
fn export_versions() {
    let mut store = empty();
    let mut file = ExportFile {
        version: 3,
        collections: vec![ExportCollection { name: "mac".to_owned() }],
        aliases: vec![ExportAlias {
            name: "a".to_owned(),
            command: "b".to_owned(),
            collection: "mac".to_owned(),
        }],
    };
    assert_eq!(message(import_file(&mut store, &file, &clock())), "unsupported export version: 3");
    file.version = 1;
    assert_eq!(message(import_file(&mut store, &file, &clock())), "collection not found: mac");
    file.version = 2;
    assert_eq!(import_file(&mut store, &file, &clock()).unwrap(), 1);
}

#[test]
fn nothing_to_select() {
    let mut store = empty();
    let query = vec!["GIT".to_owned(), "st".to_owned()];
    assert_eq!(message(select_alias(&store.list_effective(), &query, true, true)), "no aliases found");
    store.upsert_in_collection("shared", "ll", "ls -l", &clock()).unwrap();
    let aliases = store.list_effective();
    assert_eq!(message(select_alias(&aliases, &query, true, true)), "no aliases matched: GIT st");
    assert_eq!(
        message(select_alias(&aliases, &query, false, false)),
        "select requires an interactive terminal"
    );
}

#[test]
fn directories_that_are_not_named() {
    let mut named = nothing_named();
    assert_eq!(message(database_path(&named)), "could not locate data directory");
    assert_eq!(message(home_dir(&named)), "could not locate home directory");
    assert_eq!(message(config_path(&named)), "could not locate config directory");
    assert_eq!(message(shell_config_home(&named)), "could not locate home directory");
    assert_eq!(message(startup_path(&named, &Shell::Bash)), "could not locate home directory");
    let zshrc = default_zshrc_path(&named);
    assert_eq!((zshrc.base, zshrc.parts), (Base::Current, vec![".zshrc".to_owned()]));
    assert!(secret_path(&named, "u").is_none());

    named.home = true;
    assert_eq!(
        message(startup_path(&named, &Shell::Fish)),
        "fish does not use a zsh/bash startup file"
    );
    assert_eq!(default_zshrc_path(&named).base, Base::Home);
    let fish = shell_integration_path(&named, &Shell::Fish).unwrap();
    assert_eq!(fish.base, Base::Home);
    assert_eq!(fish.parts, [".config", "fish", "conf.d", "aliaz.fish"]);

    named.data_directory = true;
    assert_eq!(database_path(&named).unwrap().parts, ["aliaz", "aliases.sqlite3"]);
    named.alias_tool_home = true;
    named.aliaz_data_home = true;
    let database = database_path(&named).unwrap();
    assert_eq!((database.base, database.parts.len()), (Base::AliazDataHome, 1));
    assert!(recovery_phrase_available(Some("phrase")));
    assert!(!recovery_phrase_available(None));
}

#[test]
fn the_directory_of_secrets() {
    let mut named = nothing_named();
    named.aliaz_secret_home = true;
    let place = secret_path(&named, "user/1").unwrap();
    assert_eq!((place.base, place.parts), (Base::AliazSecretHome, vec!["user_1".to_owned()]));
    named.aliaz_test_secret_home = true;
    assert_eq!(secret_path(&named, "u").unwrap().base, Base::AliazTestSecretHome);
    named.aliaz_secret_home = false;
    assert_eq!(secret_path(&named, "u").unwrap().base, Base::AliazTestSecretHome);
}

#[test]
fn a_phrase_is_taken_out_of_a_configuration_once() {
    let stored = |recovery_phrase: Option<String>| StoredSyncConfig {
        sync_url: "https://x".to_owned(),
        username: "ada".to_owned(),
        user_id: "u".to_owned(),
        token: "t".to_owned(),
        latest_version: 7,
        recovery_phrase,
    };
    let (config, phrase) = load_config(stored(Some("a b".to_owned())));
    assert_eq!(phrase.as_deref(), Some("a b"));
    let (again, none) = load_config(stored(None));
    assert!(none.is_none());
    assert_eq!(format!("{config:?}"), format!("{again:?}"));
}

#[test]
fn the_path_of_the_program_is_text() {
    assert_eq!(
        message(shell_integration_contents(&Shell::Zsh, &vec![], None, true, "/x")),
        "aliaz binary path is not valid UTF-8"
    );
}

#[test]
fn releases_for_some_platforms() {
    assert_eq!(
        message(release_target("windows", "x86_64")),
        "unsupported platform for update: windows x86_64"
    );
    assert_eq!(release_target("macos", "aarch64").unwrap(), "aarch64-apple-darwin");
    assert_eq!(release_target("macos", "x86_64").unwrap(), "x86_64-apple-darwin");
    assert_eq!(release_target("linux", "aarch64").unwrap(), "aarch64-unknown-linux-gnu");
    assert_eq!(
        release_base_url(None),
        "https://github.com/oshabana/aliaz/releases/latest/download"
    );
    let release = update_release_binary(Some("http://x"), "linux", "x86_64").unwrap();
    assert_eq!(release.archive_url, "http://x/aliaz-x86_64-unknown-linux-gnu.tar.gz");
    assert_eq!(update_directory_name(12, -3), "aliaz-update-12--3");
}

#[test]
fn checksums() {
    let list = "\n  abc *one.tar.gz extra\nd two.tar.gz\nlonely\nabd one.tar.gz\n";
    assert_eq!(checksum_for_asset(list, "one.tar.gz").unwrap(), "abc");
    assert_eq!(checksum_for_asset(list, "two.tar.gz").unwrap(), "d");
    assert_eq!(message(checksum_for_asset(list, "three")), "checksum for three was not found");
    let empty_digest = "e3b0c44298fc1c149afbf4c8996fb92427ae41e4649b934ca495991b7852b855";
    assert!(verify_checksum(b"", empty_digest).is_ok());
    assert!(verify_checksum(
        b"abc",
        "ba7816bf8f01cfea414140de5dae2223b00361a396177a9cb410ff61f20015ad"
    )
    .is_ok());
    assert_eq!(
        message(verify_checksum(b"x", empty_digest)),
        "downloaded archive checksum did not match"
    );
    assert_eq!(
        message(verify_checksum(b"", &empty_digest.to_uppercase())),
        "downloaded archive checksum did not match"
    );
    assert_eq!(message(extract_release_binary(false)), "release archive did not contain aliaz");
}

#[test]
fn accounts() {
    assert_eq!(
        message(require_config(None)),
        "sync is not configured; run aliaz register or aliaz login first"
    );
    assert_eq!(message(account_request(false, "401 Unauthorized")), "server returned 401 Unauthorized");
    assert!(account_request(true, "200 OK").is_ok());
}

#[test]
fn recovery_phrases() {
    let phrase = new_recovery_phrase().unwrap();
    assert_eq!(phrase.split(' ').count(), 24);
    assert!(check_recovery_phrase(&phrase).is_ok());
    assert_ne!(phrase, new_recovery_phrase().unwrap());
    let known = "abandon abandon abandon abandon abandon abandon abandon abandon abandon abandon abandon about";
    assert!(check_recovery_phrase(known).is_ok());
    for wrong in ["", "abandon", "a b c d e f g h i j k l", &known.replace("about", "abandon")] {
        assert_eq!(message(check_recovery_phrase(wrong)), "invalid recovery phrase");
    }
}

#[test]
fn keys_come_from_phrases() {
    let key = derive_key("correct horse").unwrap();
    let mut expected = [0u8; 32];
    hkdf::Hkdf::<sha2::Sha256>::new(Some(b"aliaz recovery phrase v1"), b"correct horse")
        .expand(b"alias record encryption", &mut expected)
        .unwrap();
    assert_eq!(key, expected);
    assert_ne!(key, derive_key("correct horse ").unwrap());
}

#[test]
fn records_that_cannot_be_read() {
    let key = derive_key("a").unwrap();
    let other = derive_key("b").unwrap();
    let sealed = encrypt_record(&key, b"text").unwrap();
    assert_ne!(sealed, encrypt_record(&key, b"text").unwrap());
    assert_eq!(decrypt_record(&key, &sealed).unwrap(), b"text");
    assert_eq!(message(decrypt_record(&other, &sealed)), "failed to decrypt record");
    assert!(matches!(decrypt_record(&key, "*"), Err(AliazError::InvalidBlob(_))));
    assert_eq!(message(decrypt_record(&key, "*")), "Invalid symbol 42, offset 0.");
    assert_eq!(message(decrypt_record(&key, "AAAA")), "encrypted record blob is too short");
    assert_eq!(message(open_blob(&key, &[0; 24])), "encrypted record blob is too short");
    assert_eq!(message(open_blob(&key, &[0; 25])), "failed to decrypt record");

    let fixed = seal_record(&key, &[7; 24], b"text").unwrap();
    assert_eq!(fixed, seal_record(&key, &[7; 24], b"text").unwrap());
    let blob = base64::Engine::decode(&base64::engine::general_purpose::STANDARD, &fixed).unwrap();
    assert_eq!(blob.len(), 24 + 4 + 16);
    assert_eq!(&blob[..24], &[7; 24]);
    assert_eq!(open_blob(&key, &blob).unwrap(), b"text");
    let empty = seal_record(&key, &[7; 24], b"").unwrap();
    assert_eq!(decrypt_record(&key, &empty).unwrap(), b"");
}

#[test]
fn errors_that_need_too_much() {
    assert_eq!(AliazError::KeyDerivation.message(), "failed to derive encryption key");
    assert_eq!(AliazError::EncryptionFailed.message(), "failed to encrypt record");
}

#[test]
fn steps_out_of_order() {
    let config = aliaz::account::SyncConfig {
        sync_url: "https://x".to_owned(),
        username: "ada".to_owned(),
        user_id: "u".to_owned(),
        token: "t".to_owned(),
        latest_version: 0,
    };
    let mut session = SyncSession::new("phrase").unwrap();
    assert_eq!(message(session.encoded(&vec![1], &config)), "sync step out of order");
    assert!(session.begin(&config).is_ok());
    assert_eq!(message(session.begin(&config)), "sync step out of order");
}

#[test]
fn names_of_ids_and_files() {
    assert_eq!(collection_id_for_name("shared"), "collection:shared");
    assert_eq!(collection_id_for_name("mac"), "collection:mac");
    assert_eq!(secret_file_name("user-1_A/ä.b"), "user-1_A___b");
}
