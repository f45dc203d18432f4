//! Payloads, configuration, and releases.

use aliaz::account::{login_config, load_config, AccountResponse, StoredSyncConfig, SyncConfig};
use aliaz::crypto::{decrypt_record, derive_key, encrypt_record};
use aliaz::names::{parse_collection_csv, DEFAULT_COLLECTION_ID, DEFAULT_COLLECTION_NAME};
use aliaz::records::{alias_payload, AliasPayload};
use aliaz::release::{
    checksum_for_asset, extract_release_binary, release_target,
    update_release_binary_from_base_url, verify_checksum,
};
use serde_json::Value;
use sha2::{Digest, Sha256};
use std::io::{Read, Write};

fn object(entries: Vec<(&str, Value)>) -> Value {
    let mut map = serde_json::Map::new();
    for (name, value) in entries {
        map.insert(name.to_owned(), value);
    }
    Value::Object(map)
}

fn to_json(payload: &AliasPayload) -> Value {
    object(vec![
        ("collection_id", Value::from(payload.collection_id.as_str())),
        ("collection_name", Value::from(payload.collection_name.as_str())),
        ("name", Value::from(payload.name.as_str())),
        ("command", Value::from(payload.command.as_str())),
        ("deleted", Value::from(payload.deleted)),
        ("updated_at", Value::from(payload.updated_at)),
    ])
}

fn from_json(json: &str) -> AliasPayload {
    let value: Value = serde_json::from_str(json).unwrap();
    let text = |name: &str| value.get(name).map(|v| v.as_str().unwrap().to_owned());
    alias_payload(
        text("collection_id"),
        text("collection_name"),
        text("name").unwrap(),
        text("command").unwrap(),
        value.get("deleted").unwrap().as_bool().unwrap(),
        value.get("updated_at").unwrap().as_i64().unwrap(),
    )
}

#[test]
fn encryption_round_trips_collection_scoped_alias_payload() {
    let key = derive_key("abandon abandon abandon abandon abandon abandon abandon abandon abandon abandon abandon about").unwrap();
    let payload = AliasPayload {
        collection_id: DEFAULT_COLLECTION_ID.to_owned(),
        collection_name: DEFAULT_COLLECTION_NAME.to_owned(),
        name: "gs".to_owned(),
        command: "git status".to_owned(),
        deleted: false,
        updated_at: 123,
    };

    let json = serde_json::to_string(&to_json(&payload)).unwrap();
    let encrypted = encrypt_record(&key, json.as_bytes()).unwrap();
    assert_ne!(encrypted, json);
    let plaintext = decrypt_record(&key, &encrypted).unwrap();
    let decrypted = from_json(&String::from_utf8(plaintext).unwrap());

    assert_eq!(decrypted.collection_id, DEFAULT_COLLECTION_ID);
    assert_eq!(decrypted.collection_name, DEFAULT_COLLECTION_NAME);
    assert_eq!(decrypted.name, "gs");
    assert_eq!(decrypted.command, "git status");
    assert!(!decrypted.deleted);
    assert_eq!(decrypted.updated_at, 123);
}

#[test]
fn old_alias_payloads_default_to_shared_collection() {
    let json = r#"{"name":"gs","command":"git status","deleted":false,"updated_at":123}"#;
    let payload = from_json(json);

    assert_eq!(payload.collection_id, DEFAULT_COLLECTION_ID);
    assert_eq!(payload.collection_name, DEFAULT_COLLECTION_NAME);
}

#[test]
fn collection_csv_parses_names() {
    assert_eq!(
        parse_collection_csv(Some("mac, development ,arch")).unwrap(),
        vec!["mac".to_owned(), "development".to_owned(), "arch".to_owned()]
    );
    assert!(parse_collection_csv(Some("bad name")).is_err());
    assert!(parse_collection_csv(None).unwrap().is_empty());
}

#[test]
fn login_config_starts_from_zero_to_force_initial_pull() {
    let response = AccountResponse {
        user_id: "user-1".to_owned(),
        token: "token-1".to_owned(),
        latest_version: 42,
    };

    let config = login_config("https://sync.example", "ada", response);

    assert_eq!(config.latest_version, 0);
}

#[test]
fn sync_config_json_does_not_contain_recovery_phrase() {
    let stored = StoredSyncConfig {
        sync_url: "https://sync.example".to_owned(),
        username: "ada".to_owned(),
        user_id: "user-1".to_owned(),
        token: "token-1".to_owned(),
        latest_version: 7,
        recovery_phrase: Some("abandon abandon about".to_owned()),
    };
    let (config, phrase) = load_config(stored);
    assert_eq!(phrase.as_deref(), Some("abandon abandon about"));

    let SyncConfig { sync_url, username, user_id, token, latest_version } = config;
    let json = serde_json::to_string(&object(vec![
        ("sync_url", Value::from(sync_url)),
        ("username", Value::from(username)),
        ("user_id", Value::from(user_id)),
        ("token", Value::from(token)),
        ("latest_version", Value::from(latest_version)),
    ]))
    .unwrap();

    assert!(!json.contains("recovery_phrase"));
    assert!(!json.contains("abandon"));
}

fn release_archive_bytes(contents: &[u8]) -> Vec<u8> {
    let encoder = flate2::write::GzEncoder::new(Vec::new(), flate2::Compression::default());
    let mut builder = tar::Builder::new(encoder);

    let mut header = tar::Header::new_gnu();
    header.set_path("aliaz").unwrap();
    header.set_size(contents.len() as u64);
    header.set_mode(0o755);
    header.set_cksum();
    builder.append_data(&mut header, "aliaz", contents).unwrap();
    let mut encoder = builder.into_inner().unwrap();
    encoder.flush().unwrap();
    encoder.finish().unwrap()
}

#[test]
fn update_release_binary_downloads_and_installs_the_latest_release() {
    let target = release_target("linux", "x86_64").unwrap();
    let archive_name = format!("aliaz-{target}.tar.gz");
    let archive = release_archive_bytes(b"new-binary");
    let checksum = format!("{:x}", Sha256::digest(&archive));
    let checksums = format!("{checksum}  {archive_name}\n");

    let release =
        update_release_binary_from_base_url("http://127.0.0.1:1", "linux", "x86_64").unwrap();
    assert_eq!(release.archive_name, archive_name);
    assert_eq!(release.checksums_url, "http://127.0.0.1:1/checksums.txt");
    assert_eq!(release.archive_url, format!("http://127.0.0.1:1/{archive_name}"));
    let expected = checksum_for_asset(&checksums, &release.archive_name).unwrap();
    assert_eq!(expected, checksum);
    verify_checksum(&archive, &expected).unwrap();

    let mut unpacked = Vec::new();
    let mut found = false;
    let mut reader = tar::Archive::new(flate2::read::GzDecoder::new(archive.as_slice()));
    for entry in reader.entries().unwrap() {
        let mut entry = entry.unwrap();
        if entry.path().unwrap().to_str() == Some("aliaz") {
            found = true;
            entry.read_to_end(&mut unpacked).unwrap();
        }
    }
    extract_release_binary(found).unwrap();
    assert_eq!(unpacked, b"new-binary");
    assert!(verify_checksum(&unpacked, &expected).is_err());
}
