//! The commands, on a store in memory.

use aliaz::clock::Clock;
use aliaz::commands;
use aliaz::error::AliazError;
use aliaz::migration::{
    migrate_alias_collections, migrate_alias_table, open_migrated, LegacyAlias, Stamp,
};
use aliaz::paths::{
    config_path, secret_path, shell_integration_path, startup_path, usual_integration_path, Base,
    Named,
};
use aliaz::rows::Tables;
use aliaz::select::{select_alias, selected_alias, Choice, Selected};
use aliaz::shell::{sh_source_command, shell_integration_contents, Shell};
use aliaz::startup::{
    configure_startup_file, init_lines, next_uninstall_step, repair_shell_integration,
    report_integration_status, shells_to_repair, uninstall_lines, uninstall_shell_integration,
    uninstall_startup_file, Installed, StartupChange, Uninstall, UninstallStep,
};
use aliaz::store::Store;
use aliaz::transfer::{export_file, import_file, import_startup_file};

const SHARED: &str = "shared";

fn clock() -> Clock {
    Clock { seconds: Some(1_700_000_000) }
}

fn home() -> Store {
    let tables =
        Tables { collections: vec![], active: vec![], aliases: vec![], backups: vec![] };
    Store::open(tables, &clock()).unwrap()
}

/// What `aliaz add` prints.
fn add(store: &mut Store, name: &str, command: &str) -> String {
    commands::add(store, SHARED, name, command, &clock()).unwrap()
}

fn add_to(store: &mut Store, collection: &str, name: &str, command: &str) -> String {
    commands::add(store, collection, name, command, &clock()).unwrap()
}

/// What `aliaz list` prints.
fn list(store: &Store) -> String {
    print(commands::list(store, false, None).unwrap())
}

/// What `aliaz list --all` prints.
fn list_all(store: &Store) -> String {
    print(commands::list(store, true, None).unwrap())
}

/// What `aliaz generate` prints.
fn generate(store: &Store, shell: Shell) -> String {
    print(commands::generate(store, &shell))
}

fn print(lines: Vec<String>) -> String {
    lines.iter().map(|line| format!("{line}\n")).collect()
}

fn names(list: &[&str]) -> Vec<String> {
    list.iter().map(|name| name.to_string()).collect()
}

/// The directories that the environment of a test names.
fn named() -> Named {
    Named {
        aliaz_data_home: false,
        alias_tool_home: true,
        data_directory: true,
        aliaz_config_home: true,
        xdg_config_home: false,
        config_directory: true,
        aliaz_secret_home: false,
        aliaz_test_secret_home: true,
        home: true,
    }
}

#[test]
fn add_list_edit_and_delete_aliases() {
    let mut store = home();
    assert!(add(&mut store, "gs", "git status").contains("Added gs"));
    assert!(list(&store).contains("gs\tgit status"));
    let edited =
        commands::edit(&mut store, None, "gs", "git status --short", &clock()).unwrap();
    assert!(edited.contains("Updated gs"));
    assert!(list(&store).contains("gs\tgit status --short"));
    let removed = commands::remove(&mut store, None, "gs", &clock()).unwrap();
    assert!(removed.contains("Deleted gs"));
    assert!(list(&store).is_empty());
}

#[test]
fn aliases_default_to_shared_collection() {
    let mut store = home();
    assert!(add(&mut store, "gs", "git status").contains("Added gs to shared"));
    assert!(print(commands::collection_list(&store)).contains("shared\tactive"));
    assert!(list(&store).contains("gs\tgit status"));
    assert!(list_all(&store).contains("gs\tgit status\tshared\tactive"));
}

#[test]
fn existing_database_aliases_migrate_into_shared_collection() {
    let mut store = home();
    add(&mut store, "ll", "ls -lah");
    assert!(list_all(&store).contains("ll\tls -lah\tshared\tactive"));

    // A table from before there were collections and ids.
    let columns = names(&["name", "command"]);
    assert_eq!(migrate_alias_table(&columns).len(), 6);
    assert!(migrate_alias_collections(&columns));
    let rows = vec![LegacyAlias {
        id: None,
        collection_id: None,
        name: "ll".to_owned(),
        command: "ls -lah".to_owned(),
        deleted: false,
        dirty: false,
        sync_version: 0,
        created_at: Stamp::Text,
        updated_at: Stamp::Missing,
    }];
    let old = open_migrated(vec![], vec![], &rows, vec![], &clock()).unwrap();
    assert!(list_all(&old).contains("ll\tls -lah\tshared\tactive"));
    let row = &old.tables().aliases[0];
    assert_eq!(row.id.len(), 36);
    assert_eq!(row.created_at, 1_700_000_000);
    assert_eq!(row.updated_at, 1_700_000_000);
}

#[test]
fn inactive_collections_do_not_generate_until_activated() {
    let mut store = home();
    let created = commands::collection_add(&mut store, "mac", &clock()).unwrap();
    assert!(created.contains("Created collection mac"));
    assert!(add_to(&mut store, "mac", "pbcopy-path", "pwd | pbcopy")
        .contains("Added pbcopy-path to mac"));
    assert!(generate(&store, Shell::Zsh).is_empty());
    let activated = commands::collection_activate(&mut store, &names(&["mac"])).unwrap();
    assert!(print(activated).contains("Activated mac"));
    assert!(generate(&store, Shell::Zsh).contains("alias pbcopy-path='pwd | pbcopy'"));
}

#[test]
fn active_collection_aliases_override_shared_aliases() {
    let mut store = home();
    add(&mut store, "lsdash", "ls --color=auto");
    commands::collection_add(&mut store, "mac", &clock()).unwrap();
    add_to(&mut store, "mac", "lsdash", "ls -G");
    commands::collection_activate(&mut store, &names(&["mac"])).unwrap();
    let generated = generate(&store, Shell::Zsh);
    assert!(generated.contains("alias lsdash='ls -G'"));
    assert!(!generated.contains("ls --color=auto"));
}

#[test]
fn edit_remove_and_move_accept_collection_scope() {
    let mut store = home();
    commands::collection_add(&mut store, "dev", &clock()).unwrap();
    add_to(&mut store, "dev", "serve", "python -m http.server");
    let edited =
        commands::edit(&mut store, Some("dev"), "serve", "python3 -m http.server", &clock())
            .unwrap();
    assert!(edited.contains("Updated serve in dev"));
    let moved =
        commands::collection_move(&mut store, "serve", "dev", "shared", &clock()).unwrap();
    assert!(moved.contains("Moved serve from dev to shared"));
    assert!(list_all(&store).contains("serve\tpython3 -m http.server\tshared\tactive"));
    let removed = commands::remove(&mut store, Some("shared"), "serve", &clock()).unwrap();
    assert!(removed.contains("Deleted serve from shared"));
}

#[test]
fn edit_requires_collection_when_alias_name_is_ambiguous() {
    let mut store = home();
    commands::collection_add(&mut store, "mac", &clock()).unwrap();
    add(&mut store, "openit", "xdg-open");
    add_to(&mut store, "mac", "openit", "open");
    let error =
        commands::edit(&mut store, None, "openit", "open -a Finder", &clock()).unwrap_err();
    assert!(error.message().contains("alias is ambiguous; pass --collection"));
}

#[test]
fn select_prints_matching_alias_command_for_shell_wrapper() {
    let mut store = home();
    add(&mut store, "gs", "git status");
    add(&mut store, "ll", "ls -lah");
    let aliases = store.list_effective();
    let chosen = match select_alias(&aliases, &names(&["ll"]), true, false) {
        Ok(Choice::Take(i)) => Some(i),
        other => panic!("{other:?}"),
    };
    match selected_alias(&aliases, chosen, true) {
        Selected::Print(command) => assert_eq!(format!("{command}\n"), "ls -lah\n"),
        other => panic!("{other:?}"),
    }
}

#[test]
fn select_runs_matching_alias_command_without_shell_wrapper() {
    let mut store = home();
    add(&mut store, "hi", "printf selected-ok");
    let aliases = store.list_effective();
    let chosen = match select_alias(&aliases, &names(&["hi"]), true, false) {
        Ok(Choice::Take(i)) => Some(i),
        other => panic!("{other:?}"),
    };
    match selected_alias(&aliases, chosen, false) {
        Selected::Run(command) => assert_eq!(command, "printf selected-ok"),
        other => panic!("{other:?}"),
    }
}

#[test]
fn init_outputs_shell_safe_alias_definitions() {
    let mut store = home();
    add(&mut store, "quote", r#"printf '%s\n' "$HOME""#);
    assert!(generate(&store, Shell::Zsh)
        .contains(r#"alias quote='printf '\''%s\n'\'' "$HOME"'"#));
}

/// The managed file of a shell, in its usual place.
fn managed_file(store: &Store, shell: Shell, path: &str) -> String {
    let aliases = store.list_effective();
    shell_integration_contents(&shell, &aliases, Some("/usr/bin/aliaz"), true, path).unwrap()
}

#[test]
fn init_writes_managed_zsh_alias_file() {
    let mut store = home();
    add(&mut store, "gs", "git status");
    let place = shell_integration_path(&named(), &Shell::Zsh).unwrap();
    assert_eq!(place.base, Base::AliazConfigHome);
    assert_eq!(place.parts, names(&["aliaz", "aliases.sh"]));
    let printed = print(init_lines(&Shell::Zsh, "/h/.config/aliaz/aliases.sh", "/h/.zshrc"));
    assert!(printed.contains("Configured"));
    let aliases = managed_file(&store, Shell::Zsh, "/h/.config/aliaz/aliases.sh");
    assert!(aliases.contains("alias gs='git status'"));
    assert!(aliases.contains("aliaz()"));
    assert!(aliases.contains("source \"$HOME/.config/aliaz/aliases.sh\""));
}

#[test]
fn init_writes_managed_bash_alias_file() {
    let mut store = home();
    add(&mut store, "ll", "ls -lah");
    let printed = print(init_lines(&Shell::Bash, "/h/.config/aliaz/aliases.sh", "/h/.bashrc"));
    assert!(printed.contains("Configured"));
    let aliases = managed_file(&store, Shell::Bash, "/h/.config/aliaz/aliases.sh");
    assert!(aliases.contains("alias ll='ls -lah'"));
}

#[test]
fn init_writes_managed_fish_alias_file() {
    let mut store = home();
    add(&mut store, "gco", "git checkout");
    let place = shell_integration_path(&named(), &Shell::Fish).unwrap();
    assert_eq!(place.parts, names(&["fish", "conf.d", "aliaz.fish"]));
    let printed = print(init_lines(&Shell::Fish, "/h/.config/fish/conf.d/aliaz.fish", ""));
    assert!(printed.contains("Wrote"));
    let aliases = managed_file(&store, Shell::Fish, "/h/.config/fish/conf.d/aliaz.fish");
    assert!(aliases.contains("alias gco 'git checkout'"));
    assert!(aliases.contains("function aliaz"));
}

#[test]
fn init_updates_zsh_startup_file_only_once() {
    let source_line = sh_source_command(true, "/h/.config/aliaz/aliases.sh");
    assert_eq!(source_line, r#"source "$HOME/.config/aliaz/aliases.sh""#);
    let zshrc = configure_startup_file(None, &source_line).unwrap();
    assert!(configure_startup_file(Some(&zshrc), &source_line).is_none());
    assert_eq!(zshrc.matches(source_line.as_str()).count(), 1);
}

#[test]
fn logout_removes_local_sync_config_and_recovery_phrase() {
    let config = aliaz::account::SyncConfig {
        sync_url: "https://sync.example".to_owned(),
        username: "ada".to_owned(),
        user_id: "user-1".to_owned(),
        token: "token-1".to_owned(),
        latest_version: 7,
    };
    let config_file = config_path(&named()).unwrap();
    assert_eq!(config_file.base, Base::AliazConfigHome);
    assert_eq!(config_file.parts, names(&["aliaz", "config.json"]));
    let secret_file = secret_path(&named(), &config.user_id).unwrap();
    assert_eq!(secret_file.base, Base::AliazTestSecretHome);
    assert_eq!(secret_file.parts, names(&["user-1"]));
    assert!(commands::logout_line(Some(&config)).contains("Logged out ada"));
    assert_eq!(commands::logout_line(None), "Sync was not configured");
}

#[test]
fn uninstall_removes_shell_integration_and_keeps_data() {
    let mut store = home();
    add(&mut store, "gs", "git status");
    let source_line = sh_source_command(true, "/h/.config/aliaz/aliases.sh");
    let zshrc = configure_startup_file(None, &source_line).unwrap();

    let mut progress = Uninstall { done: 0, removed_any: false };
    let mut zshrc_removed = false;
    let mut steps = 0;
    while let Some(step) = next_uninstall_step(&progress) {
        steps += 1;
        let removed = match step {
            UninstallStep::RemoveManagedFile(shell) => shell == Shell::Zsh,
            UninstallStep::RemoveEmptyDirectory(_) => false,
            UninstallStep::CleanStartupFile(Shell::Zsh) => {
                let change = uninstall_startup_file(Some(&zshrc), &source_line);
                zshrc_removed = matches!(change, StartupChange::Remove);
                !matches!(change, StartupChange::Keep)
            }
            UninstallStep::CleanStartupFile(_) => {
                !matches!(uninstall_startup_file(None, &source_line), StartupChange::Keep)
            }
        };
        uninstall_shell_integration(&mut progress, removed);
    }
    assert_eq!(steps, 6);
    assert!(progress.removed_any);
    assert!(zshrc_removed);
    let printed = print(uninstall_lines(progress.removed_any, true, "/h/aliaz-copy"));
    assert!(printed.contains("Removed shell integration"));
    assert!(printed.contains("Removed /h/aliaz-copy"));
    assert!(printed.contains("Kept your aliases database and sync settings"));
    assert!(list(&store).contains("gs\tgit status"));
}

#[test]
fn login_uses_file_secret_home_when_configured() {
    let configured = Named { aliaz_secret_home: true, aliaz_test_secret_home: false, ..named() };
    let secret_file = secret_path(&configured, "user-1").unwrap();
    assert_eq!(secret_file.base, Base::AliazSecretHome);
    assert_eq!(secret_file.parts, names(&["user-1"]));
    let phrase = "abandon abandon abandon abandon abandon abandon abandon abandon abandon abandon abandon about";
    assert!(aliaz::crypto::check_recovery_phrase(phrase).is_ok());
    assert!(aliaz::names::parse_collection_csv(Some("shared")).unwrap().is_empty());
}

#[test]
fn migrate_imports_aliases_from_zshrc_style_file() {
    let zshrc = r#"
alias gs='git status'
alias ll="ls -lah"
# alias ignored='nope'
function nope() { true; }
"#;
    let mut store = home();
    let count = import_startup_file(&mut store, zshrc, &clock()).unwrap();
    assert!(commands::imported_line(count).contains("Imported 2 aliases"));
    let listed = list(&store);
    assert!(listed.contains("gs\tgit status"));
    assert!(listed.contains("ll\tls -lah"));
    assert!(!listed.contains("ignored"));
}

#[test]
fn export_and_import_round_trip_aliases() {
    let mut source = home();
    add(&mut source, "gs", "git status");
    add(&mut source, "ll", "ls -lah");
    let file = export_file(&source);
    assert!(commands::exported_line(file.aliases.len(), "aliases.json")
        .contains("Exported 2 aliases"));

    let mut target = home();
    let count = import_file(&mut target, &file, &clock()).unwrap();
    assert!(commands::imported_line(count).contains("Imported 2 aliases"));
    let listed = list(&target);
    assert!(listed.contains("gs\tgit status"));
    assert!(listed.contains("ll\tls -lah"));
}

#[test]
fn export_and_import_preserve_collections() {
    let mut source = home();
    commands::collection_add(&mut source, "dev", &clock()).unwrap();
    add_to(&mut source, "dev", "serve", "python3 -m http.server");
    let file = export_file(&source);

    let mut target = home();
    import_file(&mut target, &file, &clock()).unwrap();
    assert!(list_all(&target).contains("serve\tpython3 -m http.server\tdev\tinactive"));
}

#[test]
fn status_and_doctor_report_local_state() {
    let mut store = home();
    add(&mut store, "gs", "git status");
    let status = print(commands::status(&store, &None));
    assert!(status.contains("aliases: 1"));
    assert!(status.contains("collections: 1"));
    assert!(status.contains("active collections: shared"));
    assert!(status.contains("pending sync records: 1"));
    assert!(status.contains("sync: not configured"));

    let integration = print(report_integration_status(true, false));
    assert!(integration.contains("zsh/bash integration: ok"));
    assert!(integration.contains("fish integration: missing"));
    assert!(print(commands::doctor_lines(false, false)).contains("sync config: missing"));
}

#[test]
fn doctor_fix_repairs_missing_shell_integration() {
    let mut store = home();
    add(&mut store, "gs", "git status");
    let nothing =
        Installed { sh_file: false, fish_file: false, zsh_startup: false, bash_startup: false };
    let shells = shells_to_repair(&nothing, Some("zsh"));
    assert_eq!(shells, vec![Shell::Zsh]);
    let path = "/h/.config/aliaz/aliases.sh";
    let printed = print(repair_shell_integration(&shells[0], path, "/h/.zshrc"));
    assert!(printed.contains("repaired zsh integration"));
    assert_eq!(startup_path(&named(), &shells[0]).unwrap().parts, names(&[".zshrc"]));
    assert_eq!(
        usual_integration_path(&named()).unwrap().parts,
        names(&[".config", "aliaz", "aliases.sh"])
    );
    assert!(managed_file(&store, Shell::Zsh, path).contains("alias gs='git status'"));
    let zshrc = configure_startup_file(None, &sh_source_command(true, path)).unwrap();
    assert!(zshrc.contains(r#"source "$HOME/.config/aliaz/aliases.sh""#));
    assert!(list(&store).contains("gs\tgit status"));
}

#[test]
fn key_prints_the_stored_recovery_phrase() {
    assert!(aliaz::paths::recovery_phrase_available(Some("recovery phrase")));
    assert!(!aliaz::paths::recovery_phrase_available(None));
    assert!(matches!(aliaz::account::require_config(None), Err(AliazError::SyncNotConfigured)));
}
