//! What holds of the store and of what is written from it, on concrete values.

use aliaz::clock::Clock;
use aliaz::migration::{
    complete_rows, open_migrated, random_uuids, rows_without_id, LegacyAlias, Stamp,
};
use aliaz::parse::parse_aliases;
use aliaz::records::{AliasPayload, CollectionPayload, RemoteRecord};
use aliaz::rows::{ActiveRow, AliasRow, BackupRow, CollectionRow, Tables};
use aliaz::shell::{fish_quote, fish_wrapper_lines, shell_alias_lines, shell_quote, Shell};
use aliaz::startup::{
    configure_startup_file, next_uninstall_step, uninstall_shell_integration,
    uninstall_startup_file, StartupChange, Uninstall, UninstallStep,
};
use aliaz::store::{Alias, Store};
use aliaz::transfer::{export_file, import_file, ExportFile};

fn at(seconds: u64) -> Clock {
    Clock { seconds: Some(seconds) }
}

fn empty() -> Store {
    let tables =
        Tables { collections: vec![], active: vec![], aliases: vec![], backups: vec![] };
    Store::open(tables, &at(1)).unwrap()
}

fn texts(list: &[&str]) -> Vec<String> {
    list.iter().map(|text| text.to_string()).collect()
}

/// The aliases that a shell gets, with their collections.
fn effective(store: &Store) -> Vec<(String, String, String)> {
    store
        .list_effective()
        .into_iter()
        .map(|alias| (alias.name, alias.command, alias.collection_name))
        .collect()
}

fn found(store: &Store, collection_id: &str, name: &str) -> Alias {
    store.find_alias_by_collection_and_name(collection_id, name).unwrap()
}

fn remote(id: &str, version: i64) -> RemoteRecord {
    RemoteRecord {
        id: id.to_owned(),
        record_type: "alias".to_owned(),
        encrypted_blob: String::new(),
        version,
    }
}

fn payload(collection: &str, name: &str, command: &str, updated_at: i64) -> AliasPayload {
    AliasPayload {
        collection_id: format!("collection:{collection}"),
        collection_name: collection.to_owned(),
        name: name.to_owned(),
        command: command.to_owned(),
        deleted: false,
        updated_at,
    }
}

fn with_mac() -> Store {
    let mut store = empty();
    store.create_collection("mac", &at(2)).unwrap();
    store.upsert_in_collection("shared", "ls", "ls --color", &at(3)).unwrap();
    store.upsert_in_collection("mac", "ls", "ls -G", &at(4)).unwrap();
    store
}

fn copied(tables: &Tables) -> Tables {
    let mut copy =
        Tables { collections: vec![], active: vec![], aliases: vec![], backups: vec![] };
    for row in &tables.collections {
        copy.collections.push(CollectionRow {
            id: row.id.clone(),
            name: row.name.clone(),
            deleted: row.deleted,
            dirty: row.dirty,
            sync_version: row.sync_version,
            created_at: row.created_at,
            updated_at: row.updated_at,
        });
    }
    for row in &tables.active {
        copy.active.push(ActiveRow {
            collection_id: row.collection_id.clone(),
            priority: row.priority,
        });
    }
    for row in &tables.aliases {
        copy.aliases.push(AliasRow {
            id: row.id.clone(),
            collection_id: row.collection_id.clone(),
            name: row.name.clone(),
            command: row.command.clone(),
            deleted: row.deleted,
            dirty: row.dirty,
            sync_version: row.sync_version,
            created_at: row.created_at,
            updated_at: row.updated_at,
        });
    }
    for row in &tables.backups {
        copy.backups.push(BackupRow {
            id: row.id.clone(),
            alias_name: row.alias_name.clone(),
            command: row.command.clone(),
            remote_version: row.remote_version,
            created_at: row.created_at,
        });
    }
    copy
}

#[test]
fn an_empty_store_has_the_shared_collection() {
    let store = empty();
    let collections = store.collections();
    assert_eq!(collections.len(), 1);
    assert_eq!(collections[0].id, "collection:shared");
    assert_eq!(collections[0].name, "shared");
    assert!(collections[0].active);
    assert_eq!(collections[0].priority, 0);
    assert!(!collections[0].dirty);
    assert_eq!(store.next_collection_priority().unwrap(), 1);
}

#[test]
fn one_alias_per_name_is_effective() {
    let mut store = with_mac();
    assert_eq!(effective(&store), [("ls".into(), "ls --color".into(), "shared".into())]);
    store.activate_collections(&texts(&["mac"])).unwrap();
    assert_eq!(effective(&store), [("ls".into(), "ls -G".into(), "mac".into())]);
}

#[test]
fn the_collection_activated_last_wins() {
    let mut store = with_mac();
    store.create_collection("work", &at(5)).unwrap();
    store.upsert_in_collection("work", "ls", "exa", &at(6)).unwrap();
    store.activate_collections(&texts(&["work", "mac"])).unwrap();
    assert_eq!(effective(&store)[0].1, "ls -G");
    assert_eq!(store.collection_by_name("work").unwrap().priority, 1);
    assert_eq!(store.collection_by_name("mac").unwrap().priority, 2);
    assert!(store.deactivate_collection("work").unwrap());
    store.activate_collections(&texts(&["work"])).unwrap();
    assert_eq!(store.collection_by_name("work").unwrap().priority, 3);
    assert_eq!(effective(&store)[0].1, "exa");
}

#[test]
fn deactivating_undoes_activating() {
    let mut store = with_mac();
    let before = format!("{:?}", store.tables());
    assert_eq!(store.activate_collections(&texts(&["mac"])).unwrap(), ["mac"]);
    assert!(store.deactivate_collection("mac").unwrap());
    assert_eq!(format!("{:?}", store.tables()), before);
    assert!(!store.deactivate_collection("mac").unwrap());
}

#[test]
fn activating_twice_changes_nothing_more() {
    let mut store = with_mac();
    let names = texts(&["shared", "mac", "mac"]);
    assert_eq!(store.activate_collections(&names).unwrap(), ["mac"]);
    assert!(store.activate_collections(&names).unwrap().is_empty());
    assert_eq!(store.collection_by_name("mac").unwrap().priority, 1);
}

#[test]
fn collections_before_one_that_fails_are_activated() {
    let mut store = with_mac();
    assert!(store.activate_collections(&texts(&["mac", "none", "shared"])).is_err());
    assert!(store.collection_by_name("mac").unwrap().active);
}

#[test]
fn what_is_refused_changes_nothing() {
    let mut store = with_mac();
    let before = format!("{:?}", store.tables());
    assert!(store.create_collection("a b", &at(9)).is_err());
    assert!(store.deactivate_collection("shared").is_err());
    assert!(store.upsert_in_collection("none", "x", "y", &at(9)).is_err());
    assert!(store.update_alias(None, "ls", "dir", &at(9)).is_err());
    assert!(store.delete_alias(Some("mac"), "none", &at(9)).is_err());
    assert!(store.move_alias("ls", "mac", "shared", &at(9)).is_err());
    assert_eq!(format!("{:?}", store.tables()), before);
}

#[test]
fn upserting_keeps_the_id_and_the_time_of_creation() {
    let mut store = empty();
    store.upsert_with_id("shared", "gs", "git status", "id-1".to_owned(), &at(10)).unwrap();
    store.upsert_with_id("shared", "gs", "git status -s", "id-2".to_owned(), &at(20)).unwrap();
    let row = &store.tables().aliases[0];
    assert_eq!(store.tables().aliases.len(), 1);
    assert_eq!(row.id, "id-1");
    assert_eq!(row.command, "git status -s");
    assert_eq!((row.created_at, row.updated_at), (10, 20));
    assert!(row.dirty);
}

#[test]
fn editing_changes_the_command_alone() {
    let mut store = with_mac();
    let before = found(&store, "collection:mac", "ls");
    assert_eq!(store.update_alias(Some("mac"), "ls", "gls", &at(30)).unwrap(), "mac");
    let after = found(&store, "collection:mac", "ls");
    assert_eq!(after.command, "gls");
    assert_eq!(after.id, before.id);
    assert_eq!(after.updated_at, 30);
    assert_eq!(found(&store, "collection:shared", "ls").command, "ls --color");
}

#[test]
fn a_deleted_alias_waits_to_be_sent() {
    let mut store = empty();
    store.upsert_with_id("shared", "gs", "git status", "id-1".to_owned(), &at(10)).unwrap();
    store.mark_alias_synced("id-1", 4);
    assert!(store.pending_aliases().is_empty());
    assert_eq!(store.delete_alias(None, "gs", &at(20)).unwrap(), "shared");
    assert!(store.list_effective().is_empty());
    assert!(store.list_all(None).unwrap().is_empty());
    let pending = store.pending_aliases();
    assert_eq!(pending.len(), 1);
    assert!(pending[0].deleted);
    assert_eq!(pending[0].sync_version, 4);
    assert!(store.delete_alias(None, "gs", &at(21)).is_err());
    store.upsert_in_collection("shared", "gs", "git st", &at(22)).unwrap();
    assert_eq!(found(&store, "collection:shared", "gs").id, "id-1");
}

#[test]
fn a_moved_alias_keeps_its_id_and_command() {
    let mut store = with_mac();
    store.create_collection("work", &at(5)).unwrap();
    let before = found(&store, "collection:mac", "ls");
    store.move_alias("ls", "mac", "work", &at(6)).unwrap();
    let after = found(&store, "collection:work", "ls");
    assert_eq!((after.id, after.command), (before.id, before.command));
    assert!(store.find_alias_by_collection_and_name("collection:mac", "ls").is_none());
}

#[test]
fn a_later_local_change_is_kept() {
    let mut store = empty();
    store.upsert_with_id("shared", "gs", "local", "id-1".to_owned(), &at(100)).unwrap();
    let taken = store
        .apply_remote_alias(&remote("id-2", 5), &payload("shared", "gs", "other", 99), &at(200))
        .unwrap();
    assert!(!taken);
    assert_eq!(found(&store, "collection:shared", "gs").command, "local");
    assert!(store.tables().backups.is_empty());
}

#[test]
fn a_replaced_change_is_backed_up() {
    let mut store = empty();
    store.upsert_with_id("shared", "gs", "local", "id-1".to_owned(), &at(100)).unwrap();
    let taken = store
        .apply_remote_alias(&remote("id-2", 5), &payload("shared", "gs", "other", 100), &at(200))
        .unwrap();
    assert!(taken);
    let backups = &store.tables().backups;
    assert_eq!(backups.len(), 1);
    assert_eq!(backups[0].id.len(), 36);
    assert_eq!(backups[0].alias_name, "shared/gs");
    assert_eq!(backups[0].command, "local");
    assert_eq!(backups[0].remote_version, 5);
    assert_eq!(backups[0].created_at, 200);
    let row = &store.tables().aliases[0];
    assert_eq!((row.id.as_str(), row.command.as_str()), ("id-2", "other"));
    assert_eq!((row.created_at, row.updated_at, row.sync_version), (100, 100, 5));
    assert!(!row.dirty);

    // What is not waiting to be sent is not backed up, and taking it over twice changes nothing.
    let before = format!("{:?}", store.tables());
    assert!(store
        .apply_remote_alias(&remote("id-2", 5), &payload("shared", "gs", "other", 100), &at(300))
        .unwrap());
    assert_eq!(format!("{:?}", store.tables()), before);
}

#[test]
fn an_incoming_alias_brings_its_collection() {
    let mut store = empty();
    assert!(store
        .apply_remote_alias(&remote("id-1", 2), &payload("mac", "ls", "ls -G", 50), &at(60))
        .unwrap());
    let mac = store.collection_by_name("mac").unwrap();
    assert!(!mac.active && !mac.dirty);
    assert_eq!(mac.priority, -1);
    assert!(store.list_effective().is_empty());
    assert!(store.pending_aliases().is_empty());
    assert!(store.pending_collections().is_empty());
}

#[test]
fn an_incoming_collection_follows_the_later_change() {
    let mut store = with_mac();
    let mut deleted =
        CollectionPayload { name: "mac".to_owned(), deleted: true, updated_at: 1 };
    assert!(!store.apply_remote_collection(&remote("x", 7), &deleted, &at(60)).unwrap());
    assert!(store.collection_by_name("mac").is_ok());
    deleted.updated_at = 2;
    assert!(store.apply_remote_collection(&remote("x", 7), &deleted, &at(60)).unwrap());
    assert!(store.collection_by_name("mac").is_err());
    assert_eq!(store.list_all(None).unwrap().len(), 1);
    let row = &store.tables().collections[1];
    assert_eq!((row.id.as_str(), row.sync_version, row.dirty), ("collection:mac", 7, false));
}

#[test]
fn the_shared_collection_is_never_deleted() {
    let mut store = empty();
    let deleted =
        CollectionPayload { name: "shared".to_owned(), deleted: true, updated_at: 1_000 };
    assert!(store.apply_remote_collection(&remote("x", 7), &deleted, &at(60)).unwrap());
    let shared = store.collection_by_name("shared").unwrap();
    assert!(shared.active);
    assert_eq!(shared.sync_version, 7);
    assert_eq!(shared.updated_at, 1_000);
}

#[test]
fn what_is_synced_is_not_pending() {
    let mut store = with_mac();
    let ids: Vec<String> = store.pending_aliases().into_iter().map(|alias| alias.id).collect();
    assert_eq!(ids.len(), 2);
    assert_eq!(store.pending_collections().len(), 1);
    assert_eq!(store.status().pending, 3);
    store.mark_collection_synced("collection:mac", 8);
    for id in &ids {
        store.mark_alias_synced(id, 9);
    }
    store.mark_alias_synced("no such alias", 10);
    store.mark_collection_synced("no such collection", 10);
    assert_eq!(store.status().pending, 0);
    assert_eq!(store.collection_by_name("mac").unwrap().sync_version, 8);
}

#[test]
fn a_store_can_be_opened_again() {
    let mut store = with_mac();
    store.activate_collections(&texts(&["mac"])).unwrap();
    let again = Store::open(copied(store.tables()), &at(1_000)).unwrap();
    assert_eq!(format!("{:?}", again.tables()), format!("{:?}", store.tables()));
}

#[test]
fn lists_are_in_order() {
    let mut store = empty();
    for name in ["zeta", "alpha", "mid"] {
        store.create_collection(name, &at(2)).unwrap();
        store.upsert_in_collection(name, "b", "2", &at(3)).unwrap();
        store.upsert_in_collection(name, "a.1", "1", &at(3)).unwrap();
    }
    store.activate_collections(&texts(&["zeta", "mid"])).unwrap();
    let names: Vec<String> = store.collections().into_iter().map(|c| c.name).collect();
    assert_eq!(names, ["shared", "zeta", "mid", "alpha"]);
    let pending: Vec<String> =
        store.pending_collections().into_iter().map(|c| c.name).collect();
    assert_eq!(pending, ["alpha", "mid", "zeta"]);
    let all: Vec<String> = store
        .list_all(None)
        .unwrap()
        .into_iter()
        .map(|alias| format!("{}/{}", alias.collection_name, alias.name))
        .collect();
    assert_eq!(all, ["alpha/a.1", "alpha/b", "mid/a.1", "mid/b", "zeta/a.1", "zeta/b"]);
    let one: Vec<String> =
        store.list_all(Some("mid")).unwrap().into_iter().map(|alias| alias.name).collect();
    assert_eq!(one, ["a.1", "b"]);
    assert_eq!(
        effective(&store),
        [
            ("a.1".into(), "1".into(), "mid".into()),
            ("b".into(), "2".into(), "mid".into())
        ]
    );
    let status = store.status();
    assert_eq!((status.aliases, status.collections, status.pending), (2, 4, 9));
    assert_eq!(status.active_collections, ["shared", "zeta", "mid"]);
}

fn names_and_commands(file: &ExportFile) -> Vec<(String, String, String)> {
    file.aliases
        .iter()
        .map(|alias| (alias.collection.clone(), alias.name.clone(), alias.command.clone()))
        .collect()
}

#[test]
fn an_export_can_be_imported() {
    let store = with_mac();
    let file = export_file(&store);
    assert_eq!(file.version, 2);
    let mut other = empty();
    assert_eq!(import_file(&mut other, &file, &at(50)).unwrap(), 2);
    let again = export_file(&other);
    assert_eq!(names_and_commands(&again), names_and_commands(&file));
    assert_eq!(again.collections.len(), 2);

    let mut same = with_mac();
    import_file(&mut same, &file, &at(60)).unwrap();
    assert_eq!(names_and_commands(&export_file(&same)), names_and_commands(&file));
    assert_eq!(same.tables().aliases.len(), 2);
}

#[test]
fn definitions_are_read_back() {
    let commands = ["git status", "echo 'it''s'", "a=b; c \"d\" $e \\", "", " x ", "#no"];
    let mut store = empty();
    for (i, command) in commands.iter().enumerate() {
        store.upsert_in_collection("shared", &format!("n{i}"), command, &at(5)).unwrap();
    }
    let lines = shell_alias_lines(&Shell::Zsh, &store.list_effective());
    let contents: String = lines.iter().map(|line| format!("{line}\n")).collect();
    let read = parse_aliases(&contents, &at(7)).unwrap();
    assert_eq!(read.len(), commands.len());
    for (i, alias) in read.iter().enumerate() {
        assert_eq!(alias.name, format!("n{i}"));
        assert_eq!(alias.command, commands[i]);
        assert_eq!(alias.collection_name, "shared");
        assert!(alias.dirty && !alias.deleted);
        assert_eq!(alias.updated_at, 7);
        assert_eq!(alias.id.len(), 36);
    }
}

#[test]
fn other_lines_define_nothing() {
    let contents = "# alias a='b'\nexport x=y\nfoo() { alias q=r; }\n  alias  alias ok=yes\r\naliasx=1\n";
    let read = parse_aliases(contents, &at(7)).unwrap();
    assert_eq!(read.len(), 1);
    assert_eq!((read[0].name.as_str(), read[0].command.as_str()), ("ok", "yes"));
}

#[test]
fn a_line_can_define_several_aliases() {
    let read = parse_aliases("alias -g a=1 b='2=3' c", &at(7)).unwrap();
    let pairs: Vec<(&str, &str)> =
        read.iter().map(|alias| (alias.name.as_str(), alias.command.as_str())).collect();
    assert_eq!(pairs, [("a", "1"), ("b", "2=3")]);
}

#[test]
fn quoting_escapes_quotes() {
    assert_eq!(shell_quote("it's"), "'it'\\''s'");
    assert_eq!(shell_quote(""), "''");
    assert_eq!(shlex::split(&shell_quote("a'b\"c\\ $d\n")).unwrap(), ["a'b\"c\\ $d\n"]);
}

/// What fish reads from a text in quotes and escapes: between quotes a backslash escapes a quote
/// or a backslash, and means itself before anything else.
fn read_by_fish(text: &str) -> Option<String> {
    let mut word = String::new();
    let mut chars = text.chars().peekable();
    while let Some(c) = chars.next() {
        match c {
            '\\' => word.push(chars.next()?),
            '\'' => loop {
                match chars.next()? {
                    '\'' => break,
                    '\\' if matches!(chars.peek(), Some('\'' | '\\')) => {
                        word.push(chars.next()?);
                    }
                    inner => word.push(inner),
                }
            },
            _ => return None,
        }
    }
    Some(word)
}

#[test]
fn fish_reads_what_was_quoted_for_it() {
    assert_eq!(fish_quote("git status"), "'git status'");
    assert_eq!(fish_quote("it's"), "'it'\\''s'");
    assert_eq!(fish_quote("echo \\"), "'echo \\\\'");
    for value in ["", "plain", "echo \\", "a\\\\b", "\\'", "'\\", "\\n $x \"q\" `y`\n", "\\\\\\'"] {
        assert_eq!(read_by_fish(&fish_quote(value)).as_deref(), Some(value));
    }
    // What is meant for other shells is not.
    assert_eq!(read_by_fish(&shell_quote("echo \\")), None);

    let mut store = empty();
    store.upsert_in_collection("shared", "x", "echo \\", &at(5)).unwrap();
    let aliases = store.list_effective();
    assert_eq!(shell_alias_lines(&Shell::Fish, &aliases), ["alias x 'echo \\\\'"]);
    assert_eq!(shell_alias_lines(&Shell::Zsh, &aliases), ["alias x='echo \\'"]);
    let wrapper = fish_wrapper_lines("C:\\aliaz", "/a\\");
    assert_eq!(wrapper[1], "set -g __aliaz_bin 'C:\\\\aliaz'");
    assert_eq!(wrapper[18], "        source '/a\\\\'");
}

#[test]
fn a_quoted_entry_is_one_word() {
    for value in ["gs=git status", "a='x y' \\ \"z\" $w", "=", "n="] {
        let line = format!("alias {}", shell_quote(value));
        match value.split_once('=') {
            Some((name, command)) if !name.is_empty() => {
                let read = parse_aliases(&line, &at(7)).unwrap();
                assert_eq!(read.len(), 1);
                assert_eq!((read[0].name.as_str(), read[0].command.as_str()), (name, command));
            }
            _ => assert!(parse_aliases(&line, &at(7)).is_err()),
        }
    }
    assert_eq!(shlex::split(&shell_quote("")).unwrap(), [""]);
    let value = "a''b'";
    assert_eq!(shell_quote(value).len(), value.len() + 2 + 3 * 3);
}

const SOURCE: &str = "source '/x/aliases.sh'";

/// Files as they are on a disk.
struct Disk {
    sh_file: bool,
    fish_file: bool,
    zshrc: Option<String>,
    bashrc: Option<String>,
}

fn clean(file: &mut Option<String>) -> bool {
    match uninstall_startup_file(file.as_deref(), SOURCE) {
        StartupChange::Keep => false,
        StartupChange::Remove => {
            *file = None;
            true
        }
        StartupChange::Write(contents) => {
            *file = Some(contents);
            true
        }
    }
}

fn uninstall(disk: &mut Disk) -> bool {
    let mut progress = Uninstall { done: 0, removed_any: false };
    while let Some(step) = next_uninstall_step(&progress) {
        let removed = match step {
            UninstallStep::RemoveManagedFile(Shell::Fish) => {
                std::mem::replace(&mut disk.fish_file, false)
            }
            UninstallStep::RemoveManagedFile(_) => std::mem::replace(&mut disk.sh_file, false),
            UninstallStep::RemoveEmptyDirectory(_) => true,
            UninstallStep::CleanStartupFile(Shell::Zsh) => clean(&mut disk.zshrc),
            UninstallStep::CleanStartupFile(_) => clean(&mut disk.bashrc),
        };
        uninstall_shell_integration(&mut progress, removed);
    }
    assert_eq!(progress.done, 6);
    progress.removed_any
}

#[test]
fn a_second_run_of_uninstalling_removes_nothing() {
    let mut disk = Disk {
        sh_file: true,
        fish_file: false,
        zshrc: configure_startup_file(None, SOURCE),
        bashrc: Some("export A=1\n".to_owned()),
    };
    assert!(uninstall(&mut disk));
    assert!(!disk.sh_file);
    assert!(disk.zshrc.is_none());
    assert_eq!(disk.bashrc.as_deref(), Some("export A=1\n"));
    assert!(!uninstall(&mut disk));
    assert!(disk.zshrc.is_none());
    assert_eq!(disk.bashrc.as_deref(), Some("export A=1\n"));

    // A source line alone counts too.
    disk.bashrc = Some(format!("x\n{SOURCE}\ny"));
    assert!(uninstall(&mut disk));
    assert_eq!(disk.bashrc.as_deref(), Some("x\ny\n"));
    assert!(!uninstall(&mut disk));
}

#[test]
fn a_file_with_lone_carriage_returns_is_given_back() {
    let before = "a\rb\n\rc\n";
    let added = configure_startup_file(Some(before), SOURCE).unwrap();
    match uninstall_startup_file(Some(&added), SOURCE) {
        StartupChange::Write(contents) => assert_eq!(contents, before),
        other => panic!("{other:?}"),
    }
}

#[test]
fn the_source_line_is_added_once_and_taken_out_again() {
    let added = configure_startup_file(Some("export A=1"), SOURCE).unwrap();
    assert_eq!(added, "export A=1\n# Aliaz shell integration\nsource '/x/aliases.sh'\n");
    assert!(configure_startup_file(Some(&added), SOURCE).is_none());
    match uninstall_startup_file(Some(&added), SOURCE) {
        StartupChange::Write(contents) => assert_eq!(contents, "export A=1\n"),
        other => panic!("{other:?}"),
    }

    let only = configure_startup_file(None, SOURCE).unwrap();
    assert_eq!(only, "# Aliaz shell integration\nsource '/x/aliases.sh'\n");
    assert!(matches!(uninstall_startup_file(Some(&only), SOURCE), StartupChange::Remove));
}

#[test]
fn a_startup_file_without_the_source_line_is_kept() {
    assert!(matches!(uninstall_startup_file(None, SOURCE), StartupChange::Keep));
    assert!(matches!(
        uninstall_startup_file(Some("export A=1\n"), SOURCE),
        StartupChange::Keep
    ));
    let indented = format!("  {SOURCE}\n");
    assert!(matches!(uninstall_startup_file(Some(&indented), SOURCE), StartupChange::Keep));
}

#[test]
fn a_comment_without_the_source_line_stays() {
    let contents = format!("# Aliaz shell integration\r\nx\r\n{SOURCE}\r\n# Aliaz shell integration");
    match uninstall_startup_file(Some(&contents), SOURCE) {
        StartupChange::Write(left) => {
            assert_eq!(left, "# Aliaz shell integration\nx\n# Aliaz shell integration\n");
        }
        other => panic!("{other:?}"),
    }
}

fn legacy(id: Option<&str>, name: &str, created_at: Stamp, updated_at: Stamp) -> LegacyAlias {
    LegacyAlias {
        id: id.map(str::to_owned),
        collection_id: None,
        name: name.to_owned(),
        command: "c".to_owned(),
        deleted: false,
        dirty: true,
        sync_version: 3,
        created_at,
        updated_at,
    }
}

#[test]
fn rows_of_earlier_versions_are_completed() {
    let rows = vec![
        legacy(Some("own"), "a", Stamp::Number(4), Stamp::Number(5)),
        legacy(Some(""), "b", Stamp::Number(0), Stamp::Text),
        legacy(None, "c", Stamp::Missing, Stamp::Number(6)),
    ];
    assert_eq!(rows_without_id(&rows), ["b", "c"]);
    let completed = complete_rows(&rows, &texts(&["one", "two"]), 77);
    let ids: Vec<&str> = completed.iter().map(|row| row.id.as_str()).collect();
    assert_eq!(ids, ["own", "one", "two"]);
    let times: Vec<(i64, i64)> =
        completed.iter().map(|row| (row.created_at, row.updated_at)).collect();
    assert_eq!(times, [(4, 5), (77, 77), (77, 6)]);
    assert!(completed.iter().all(|row| row.collection_id == "collection:shared"));
}

#[test]
fn a_legacy_table_is_completed_once() {
    let rows = vec![
        legacy(None, "a", Stamp::Text, Stamp::Missing),
        legacy(Some("own"), "b", Stamp::Number(3), Stamp::Number(4)),
    ];
    let store = open_migrated(vec![], vec![], &rows, vec![], &at(70)).unwrap();
    assert_eq!(store.collections()[0].id, "collection:shared");
    let listed: Vec<(String, String, String)> = store
        .list_all(None)
        .unwrap()
        .into_iter()
        .map(|alias| (alias.collection_name, alias.name, alias.command))
        .collect();
    assert_eq!(
        listed,
        [
            ("shared".into(), "a".into(), "c".into()),
            ("shared".into(), "b".into(), "c".into())
        ]
    );
    let tables = copied(store.tables());
    let found: Vec<LegacyAlias> = tables
        .aliases
        .iter()
        .map(|row| LegacyAlias {
            id: Some(row.id.clone()),
            collection_id: Some(row.collection_id.clone()),
            name: row.name.clone(),
            command: row.command.clone(),
            deleted: row.deleted,
            dirty: row.dirty,
            sync_version: row.sync_version,
            created_at: Stamp::Number(row.created_at),
            updated_at: Stamp::Number(row.updated_at),
        })
        .collect();
    assert!(rows_without_id(&found).is_empty());
    let again =
        open_migrated(tables.collections, tables.active, &found, tables.backups, &at(99)).unwrap();
    assert_eq!(format!("{:?}", again.tables()), format!("{:?}", store.tables()));
}

#[test]
fn random_ids_have_the_shape_of_random_uuids() {
    let ids = random_uuids(20);
    assert_eq!(ids.len(), 20);
    for id in &ids {
        let bytes = id.as_bytes();
        assert_eq!(bytes.len(), 36);
        for (i, byte) in bytes.iter().enumerate() {
            match i {
                8 | 13 | 18 | 23 => assert_eq!(*byte, b'-'),
                14 => assert_eq!(*byte, b'4'),
                19 => assert!(matches!(byte, b'8' | b'9' | b'a' | b'b')),
                _ => assert!(matches!(byte, b'0'..=b'9' | b'a'..=b'f')),
            }
        }
    }
    assert_ne!(ids[0], ids[1]);
}
