//! Texts, and the files and lines that are written.

use aliaz::account::{account_url, pull_url, push_url, register_config, AccountResponse, SyncConfig};
use aliaz::clock::Clock;
use aliaz::commands::{
    create_and_activate_collections, doctor_lines, exported_line, imported_line, logout_line,
    prompt_for_collection_selection, registered_lines, selectable_collections,
    selected_collections, status, sync_line,
};
use aliaz::names::{default_collection_id, default_collection_name, parse_collection_csv};
use aliaz::rows::Tables;
use aliaz::select::{first_matching_alias, select_alias, Choice};
use aliaz::shell::{
    fish_wrapper_lines, sh_source_path_token, sh_wrapper_lines, shell_alias_lines, shell_name,
    Shell,
};
use aliaz::startup::shell_from_env;
use aliaz::store::{Alias, Store};
use aliaz::sync::SyncResult;
use aliaz::text::{
    begins_with, comes_before, count_text, decimal_text, has_part, hex_text, is_ascii_alphanumeric,
    is_white, join, lines, lower, same_text, split, split_first, strip_leading, strip_prefixes,
    strip_trailing, trim, words,
};
use aliaz::transfer::export_alias;

const SAMPLES: [&str; 12] = [
    "",
    " ",
    "a",
    " a b  c ",
    "\u{a0}x\u{3000}\ty\u{2028}",
    "one\ntwo\r\nthree",
    "\n\n\r\n\r",
    "end\n",
    "end\r\n",
    "lone\rreturn\n",
    "//a//b//",
    "Grüße, ÄÖ aBc",
];

fn alias(name: &str, command: &str) -> Alias {
    Alias {
        id: "1".to_owned(),
        collection_id: "collection:shared".to_owned(),
        collection_name: "shared".to_owned(),
        name: name.to_owned(),
        command: command.to_owned(),
        deleted: false,
        dirty: false,
        sync_version: 0,
        updated_at: 0,
    }
}

#[test]
fn characters_are_classified_as_in_std() {
    for code in 0..=0x10_ffff_u32 {
        if let Some(c) = char::from_u32(code) {
            assert_eq!(is_white(c), c.is_whitespace(), "{code:x}");
            assert_eq!(is_ascii_alphanumeric(c), c.is_ascii_alphanumeric(), "{code:x}");
        }
    }
}

#[test]
fn texts_are_taken_apart_as_in_std() {
    for sample in SAMPLES {
        assert_eq!(trim(sample), sample.trim());
        assert_eq!(lines(sample), sample.lines().collect::<Vec<_>>());
        assert_eq!(words(sample), sample.split_whitespace().collect::<Vec<_>>());
        assert_eq!(split(sample, 'a'), sample.split('a').collect::<Vec<_>>());
        assert_eq!(lower(sample), sample.to_ascii_lowercase());
        assert_eq!(strip_leading(sample, '/'), sample.trim_start_matches('/'));
        assert_eq!(strip_trailing(sample, '/'), sample.trim_end_matches('/'));
        assert_eq!(strip_prefixes(sample, "on"), sample.trim_start_matches("on"));
        let halves = sample.split_once('b').map(|(a, b)| (a.to_owned(), b.to_owned()));
        assert_eq!(split_first(sample, 'b'), halves);
        for other in SAMPLES {
            assert_eq!(same_text(sample, other), sample == other);
            assert_eq!(comes_before(sample, other), sample < other);
            assert_eq!(begins_with(sample, other), sample.starts_with(other));
            assert_eq!(has_part(sample, other), sample.contains(other));
        }
    }
    let parts = vec!["a".to_owned(), String::new(), "b".to_owned()];
    assert_eq!(join(&parts, ", "), parts.join(", "));
    assert_eq!(join(&vec![], ", "), "");
}

#[test]
fn numbers_are_written_as_in_std() {
    for n in [0, 7, -1, 10, -10, 1234567890, i64::MAX, i64::MIN] {
        assert_eq!(decimal_text(n), n.to_string());
    }
    for n in [0, 1, 99, usize::MAX] {
        assert_eq!(count_text(n), n.to_string());
    }
    assert_eq!(hex_text(&[0, 1, 0x9f, 0xa0, 0xff]), "00019fa0ff");
    assert_eq!(hex_text(&[]), "");
}

#[test]
fn lists_of_collections() {
    assert_eq!(parse_collection_csv(Some(" ,mac,, shared ,a.b")).unwrap(), ["mac", "a.b"]);
    assert_eq!(selected_collections(" mac, dev\n").unwrap(), ["mac", "dev"]);
    assert!(selected_collections("\n").unwrap().is_empty());
    assert!(selected_collections("a b").is_err());
    let names = vec!["mac".to_owned(), "dev".to_owned()];
    assert!(prompt_for_collection_selection(&names, false).is_none());
    assert!(prompt_for_collection_selection(&vec![], true).is_none());
    let (shown, question) = prompt_for_collection_selection(&names, true).unwrap();
    assert_eq!(shown, "Available collections: mac, dev");
    assert_eq!(
        question,
        "Activate collections for this computer (comma-separated, blank for shared only): "
    );
    assert_eq!(default_collection_id(), "collection:shared");
    assert_eq!(default_collection_name(), "shared");
}

fn config(sync_url: &str, latest_version: i64) -> SyncConfig {
    let response = AccountResponse {
        user_id: "u".to_owned(),
        token: "t".to_owned(),
        latest_version,
    };
    register_config(sync_url, "ada", response)
}

#[test]
fn collections_of_a_new_account() {
    let clock = Clock { seconds: Some(5) };
    let tables =
        Tables { collections: vec![], active: vec![], aliases: vec![], backups: vec![] };
    let mut store = Store::open(tables, &clock).unwrap();
    let names = parse_collection_csv(Some("mac,dev")).unwrap();
    create_and_activate_collections(&mut store, &names, &clock).unwrap();
    assert_eq!(selectable_collections(&store), ["mac", "dev"]);
    let priorities: Vec<i64> = store.collections().iter().map(|c| c.priority).collect();
    assert_eq!(priorities, [0, 1, 2]);
    assert_eq!(
        status(&store, &Some(config("https://x", 7))),
        [
            "aliases: 0",
            "collections: 3",
            "active collections: shared, mac, dev",
            "pending sync records: 2",
            "sync: configured for ada",
            "sync url: https://x",
            "latest sync version: 7"
        ]
    );
    let alias = export_alias("a".to_owned(), "b".to_owned(), None);
    assert_eq!(alias.collection, "shared");
}

#[test]
fn addresses() {
    let config = config("https://sync.example//", 42);
    assert_eq!(config.latest_version, 42);
    assert_eq!(pull_url(&config), "https://sync.example/v1/records?after=42");
    assert_eq!(push_url(&config), "https://sync.example/v1/records");
    assert_eq!(account_url("https://sync.example", "login"), "https://sync.example/v1/login");
}

#[test]
fn reports() {
    assert_eq!(imported_line(3), "Imported 3 aliases");
    assert_eq!(exported_line(0, "/tmp/a"), "Exported 0 aliases to /tmp/a");
    assert_eq!(
        sync_line(&SyncResult { pulled: 1, pushed: 20 }, -5),
        "Synced: pulled 1, pushed 20, latest version -5"
    );
    assert_eq!(logout_line(None), "Sync was not configured");
    assert_eq!(logout_line(Some(&config("x", 1))), "Logged out ada");
    assert_eq!(
        registered_lines("ada", "a b"),
        [
            "Registered ada",
            "Recovery phrase: a b",
            "Store this phrase safely. Aliaz cannot recover encrypted aliases without it."
        ]
    );
    assert_eq!(doctor_lines(false, true), ["sync config: missing"]);
    assert_eq!(doctor_lines(true, false), ["sync config: ok", "secret storage: missing"]);
}

#[test]
fn shells() {
    assert_eq!(shell_name(&Shell::Zsh), "zsh");
    assert_eq!(shell_name(&Shell::Bash), "bash");
    assert_eq!(shell_name(&Shell::Fish), "fish");
    assert_eq!(shell_from_env(Some("fish")), Some(Shell::Fish));
    assert_eq!(shell_from_env(Some("nu")), None);
    assert_eq!(shell_from_env(None), None);
    assert_eq!(sh_source_path_token(true, "/x"), "\"$HOME/.config/aliaz/aliases.sh\"");
    assert_eq!(sh_source_path_token(false, "/it's"), "'/it'\\''s'");
    let aliases = vec![alias("gs", "git status"), alias("q", "echo 'x'")];
    assert_eq!(
        shell_alias_lines(&Shell::Bash, &aliases),
        ["alias gs='git status'", "alias q='echo '\\''x'\\'''"]
    );
    assert_eq!(
        shell_alias_lines(&Shell::Fish, &aliases),
        ["alias gs 'git status'", "alias q 'echo '\\''x'\\'''"]
    );
}

#[test]
fn wrapper_functions() {
    let sh = sh_wrapper_lines("/bin/aliaz", "source x");
    assert_eq!(sh.len(), 35);
    assert_eq!(sh[0], "# Managed by Aliaz. Do not edit.");
    assert_eq!(sh[1], "__aliaz_bin='/bin/aliaz'");
    assert_eq!(sh[2], "aliaz() {");
    assert_eq!(sh[7], "    __aliaz_selected_command=$(\"$__aliaz_bin\" select --print-command \"${@:2}\")");
    assert_eq!(sh[19], "      add|edit|rm|delete|collection|migrate|import|sync)");
    assert_eq!(sh[27], "          \"$__aliaz_bin\" init \"$__aliaz_shell\" >/dev/null && source x");
    assert_eq!(sh[33], "}");
    assert_eq!(sh[34], "");

    let fish = fish_wrapper_lines("/bin/aliaz", "/c/aliaz.fish");
    assert_eq!(fish.len(), 24);
    assert_eq!(fish[1], "set -g __aliaz_bin '/bin/aliaz'");
    assert_eq!(fish[2], "function aliaz");
    assert_eq!(fish[18], "        source '/c/aliaz.fish'");
    assert_eq!(fish[22], "end");
    assert_eq!(fish[23], "");
}

#[test]
fn searching() {
    let aliases = vec![alias("gs", "git status"), alias("gco", "git Checkout"), alias("ll", "ls")];
    assert_eq!(first_matching_alias(&aliases, "CHECK"), Some(1));
    assert_eq!(first_matching_alias(&aliases, "ll\tls"), Some(2));
    assert_eq!(first_matching_alias(&aliases, "  "), Some(0));
    assert_eq!(first_matching_alias(&aliases, "none"), None);
    assert_eq!(first_matching_alias(&vec![], ""), Some(0));
    let query = vec!["git".to_owned(), "c".to_owned()];
    match select_alias(&aliases, &query, false, true).unwrap() {
        Choice::Ask { items, initial } => {
            assert_eq!(items, ["gs\tgit status", "gco\tgit Checkout", "ll\tls"]);
            assert_eq!(initial, "git c");
        }
        other => panic!("{other:?}"),
    }
    assert!(matches!(select_alias(&aliases, &query, true, false), Ok(Choice::Take(1))));
}
