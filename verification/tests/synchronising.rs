//! Sessions between two computers and a server that keeps what it is sent.

use aliaz::account::SyncConfig;
use aliaz::clock::Clock;
use aliaz::error::AliazError;
use aliaz::records::{
    alias_payload, AliasPayload, CollectionPayload, PullResponse, PushResponse, PushedRecord,
    RemoteRecord, UploadRecord,
};
use aliaz::rows::Tables;
use aliaz::store::Store;
use aliaz::sync::{SyncAction, SyncResult, SyncSession};
use serde_json::Value;

const PHRASE: &str = "abandon abandon abandon abandon abandon abandon abandon abandon abandon abandon abandon about";

fn at(seconds: u64) -> Clock {
    Clock { seconds: Some(seconds) }
}

struct Computer {
    store: Store,
    config: SyncConfig,
}

fn computer() -> Computer {
    let tables =
        Tables { collections: vec![], active: vec![], aliases: vec![], backups: vec![] };
    Computer {
        store: Store::open(tables, &at(1)).unwrap(),
        config: SyncConfig {
            sync_url: "https://sync.example/".to_owned(),
            username: "ada".to_owned(),
            user_id: "u".to_owned(),
            token: "token".to_owned(),
            latest_version: 0,
        },
    }
}

struct Server {
    kept: Vec<(UploadRecord, i64)>,
    version: i64,
}

fn server() -> Server {
    Server { kept: vec![], version: 0 }
}

impl Server {
    fn pull(&self, url: &str) -> PullResponse {
        let after: i64 =
            url.strip_prefix("https://sync.example/v1/records?after=").unwrap().parse().unwrap();
        let mut records = Vec::new();
        for (record, version) in &self.kept {
            if *version > after {
                records.push(RemoteRecord {
                    id: record.id.clone(),
                    record_type: record.record_type.clone(),
                    encrypted_blob: record.encrypted_blob.clone(),
                    version: *version,
                });
            }
        }
        // The aliases come first, so that the session has to put them in order.
        records.reverse();
        PullResponse { latest_version: self.version, records }
    }

    fn push(&mut self, url: &str, records: Vec<UploadRecord>) -> PushResponse {
        assert_eq!(url, "https://sync.example/v1/records");
        let mut pushed = Vec::new();
        for record in records {
            self.version += 1;
            pushed.push(PushedRecord { id: record.id.clone(), version: self.version });
            self.kept.retain(|(kept, _)| kept.id != record.id);
            self.kept.push((record, self.version));
        }
        PushResponse { latest_version: self.version, records: pushed }
    }
}

fn text(value: &Value, name: &str) -> String {
    value.get(name).unwrap().as_str().unwrap().to_owned()
}

fn read_collection(bytes: &[u8]) -> CollectionPayload {
    let value: Value = serde_json::from_slice(bytes).unwrap();
    CollectionPayload {
        name: text(&value, "name"),
        deleted: value.get("deleted").unwrap().as_bool().unwrap(),
        updated_at: value.get("updated_at").unwrap().as_i64().unwrap(),
    }
}

fn read_alias(bytes: &[u8]) -> AliasPayload {
    let value: Value = serde_json::from_slice(bytes).unwrap();
    alias_payload(
        Some(text(&value, "collection_id")),
        Some(text(&value, "collection_name")),
        text(&value, "name"),
        text(&value, "command"),
        value.get("deleted").unwrap().as_bool().unwrap(),
        value.get("updated_at").unwrap().as_i64().unwrap(),
    )
}

fn written(entries: Vec<(&str, Value)>) -> Vec<u8> {
    let mut map = serde_json::Map::new();
    for (name, value) in entries {
        map.insert(name.to_owned(), value);
    }
    serde_json::to_vec(&Value::Object(map)).unwrap()
}

fn run(
    computer: &mut Computer,
    server: &mut Server,
    phrase: &str,
    clock: &Clock,
) -> Result<SyncResult, AliazError> {
    let Computer { store, config } = computer;
    let mut session = SyncSession::new(phrase)?;
    let mut action = session.begin(config)?;
    loop {
        action = match action {
            SyncAction::Pull { url, token } => {
                assert_eq!(token, "token");
                session.pulled(server.pull(&url), store, config)?
            }
            SyncAction::ParseCollection(bytes) => {
                session.parsed_collection(&read_collection(&bytes), store, config, clock)?
            }
            SyncAction::ParseAlias(bytes) => {
                session.parsed_alias(&read_alias(&bytes), store, config, clock)?
            }
            SyncAction::EncodeCollection(payload) => {
                let bytes = written(vec![
                    ("name", Value::from(payload.name)),
                    ("deleted", Value::from(payload.deleted)),
                    ("updated_at", Value::from(payload.updated_at)),
                ]);
                session.encoded(&bytes, config)?
            }
            SyncAction::EncodeAlias(payload) => {
                let bytes = written(vec![
                    ("collection_id", Value::from(payload.collection_id)),
                    ("collection_name", Value::from(payload.collection_name)),
                    ("name", Value::from(payload.name)),
                    ("command", Value::from(payload.command)),
                    ("deleted", Value::from(payload.deleted)),
                    ("updated_at", Value::from(payload.updated_at)),
                ]);
                session.encoded(&bytes, config)?
            }
            SyncAction::Push { url, token, records } => {
                assert_eq!(token, "token");
                session.pushed(&server.push(&url, records), store, config)?
            }
            SyncAction::Done(result) => return Ok(result),
        };
    }
}

fn counts(result: Result<SyncResult, AliazError>) -> (usize, usize) {
    let result = result.unwrap();
    (result.pulled, result.pushed)
}

#[test]
fn aliases_go_from_one_computer_to_another() {
    let mut server = server();
    let mut one = computer();
    one.store.create_collection("mac", &at(10)).unwrap();
    one.store.upsert_in_collection("mac", "ls", "ls -G", &at(11)).unwrap();
    one.store.upsert_in_collection("shared", "gs", "git status", &at(12)).unwrap();
    assert_eq!(counts(run(&mut one, &mut server, PHRASE, &at(13))), (0, 3));
    assert_eq!(one.config.latest_version, 3);
    assert_eq!(one.store.status().pending, 0);
    for (record, _) in &server.kept {
        assert!(!record.encrypted_blob.contains("git"));
    }

    let mut two = computer();
    assert_eq!(counts(run(&mut two, &mut server, PHRASE, &at(20))), (3, 0));
    assert_eq!(two.config.latest_version, 3);
    assert_eq!(two.store.status().pending, 0);
    let all = two.store.list_all(None).unwrap();
    let seen: Vec<(&str, &str, &str)> = all
        .iter()
        .map(|a| (a.collection_name.as_str(), a.name.as_str(), a.command.as_str()))
        .collect();
    assert_eq!(seen, [("mac", "ls", "ls -G"), ("shared", "gs", "git status")]);
    assert!(!two.store.collection_by_name("mac").unwrap().active);
    let same = one.store.find_alias_by_collection_and_name("collection:mac", "ls").unwrap();
    let here = two.store.find_alias_by_collection_and_name("collection:mac", "ls").unwrap();
    assert_eq!((same.id, same.updated_at), (here.id, here.updated_at));

    // Nothing is new for the second time.
    assert_eq!(counts(run(&mut two, &mut server, PHRASE, &at(21))), (0, 0));
}

#[test]
fn deletions_are_synchronised() {
    let mut server = server();
    let mut one = computer();
    let mut two = computer();
    one.store.upsert_in_collection("shared", "gs", "git status", &at(12)).unwrap();
    run(&mut one, &mut server, PHRASE, &at(13)).unwrap();
    run(&mut two, &mut server, PHRASE, &at(14)).unwrap();
    two.store.delete_alias(None, "gs", &at(15)).unwrap();
    assert_eq!(counts(run(&mut two, &mut server, PHRASE, &at(16))), (0, 1));
    assert_eq!(counts(run(&mut one, &mut server, PHRASE, &at(17))), (1, 0));
    assert!(one.store.list_effective().is_empty());
}

#[test]
fn the_later_change_wins_and_the_other_is_backed_up() {
    let mut server = server();
    let mut one = computer();
    let mut two = computer();
    one.store.upsert_in_collection("shared", "gs", "from one", &at(30)).unwrap();
    two.store.upsert_in_collection("shared", "gs", "from two", &at(20)).unwrap();
    run(&mut one, &mut server, PHRASE, &at(40)).unwrap();
    assert_eq!(counts(run(&mut two, &mut server, PHRASE, &at(41))), (1, 0));
    assert_eq!(two.store.list_effective()[0].command, "from one");
    assert_eq!(two.store.tables().backups.len(), 1);
    assert_eq!(two.store.tables().backups[0].command, "from two");

    two.store.update_alias(None, "gs", "later", &at(50)).unwrap();
    one.store.update_alias(None, "gs", "earlier", &at(45)).unwrap();
    run(&mut one, &mut server, PHRASE, &at(60)).unwrap();
    assert_eq!(counts(run(&mut two, &mut server, PHRASE, &at(61))), (0, 1));
    assert_eq!(two.store.list_effective()[0].command, "later");
    run(&mut one, &mut server, PHRASE, &at(62)).unwrap();
    assert_eq!(one.store.list_effective()[0].command, "later");
}

#[test]
fn another_phrase_reads_nothing() {
    let mut server = server();
    let mut one = computer();
    one.store.upsert_in_collection("shared", "gs", "git status", &at(12)).unwrap();
    run(&mut one, &mut server, PHRASE, &at(13)).unwrap();
    let mut two = computer();
    let failure = run(&mut two, &mut server, "another phrase", &at(14));
    assert!(matches!(failure, Err(AliazError::DecryptionFailed)));
    assert_eq!(two.config.latest_version, 0);
    assert!(two.store.list_effective().is_empty());
}

#[test]
fn records_of_other_types_do_not_count() {
    let mut server = server();
    server.version = 9;
    server.kept.push((
        UploadRecord {
            id: "x".to_owned(),
            record_type: "theme".to_owned(),
            encrypted_blob: "?".to_owned(),
            updated_at: 0,
        },
        9,
    ));
    let mut one = computer();
    assert_eq!(counts(run(&mut one, &mut server, PHRASE, &at(14))), (0, 0));
    assert_eq!(one.config.latest_version, 9);
}
