//! The commands: what each does to the store, and the lines that it prints.

use vstd::prelude::*;

use crate::account::SyncConfig;
use crate::clock;
use crate::clock::Clock;
use crate::effects;
use crate::error;
use crate::error::{AliazError, Failure};
use crate::laws;
use crate::model;
use crate::model::{AliasInfo, AliasKey, CollectionInfo, StoreState};
use crate::names;
use crate::names::{parse_collection_csv, DEFAULT_COLLECTION_NAME};
use crate::outside;
use crate::rows;
use crate::select;
use crate::select::alias_select_lines;
use crate::shell;
use crate::shell::{shell_alias_lines, Shell};
use crate::store::listing;
use crate::store::listing::active_collection_names;
use crate::store::{Alias, Store};
use crate::sync::SyncResult;
use crate::text;
use crate::text::{
    cat,
    cat3,
    count_text,
    decimal_text,
    has_item,
    join,
    same_text,
    trim,
};
use crate::transfer;
use crate::transfer::create_collections;

verus! {

/// A list of one line.
pub fn single(line: String) -> (r: Vec<String>)
    ensures
        text::texts(r@) == seq![line@],
{
    let ghost l = line@;
    let mut out: Vec<String> = Vec::new();
    out.push(line);
    assert(text::texts(out@) =~= seq![l]);
    out
}

// ---------------------------------------------------------------------------
// Aliases
// ---------------------------------------------------------------------------
/// What adding an alias reports.
pub open spec fn added_line(name: Seq<char>, collection: Seq<char>) -> Seq<char> {
    "Added "@ + name + " to "@ + collection
}

/// What deleting an alias reports.
pub open spec fn deleted_line(name: Seq<char>, collection: Seq<char>) -> Seq<char> {
    "Deleted "@ + name + " from "@ + collection
}

/// What editing an alias reports.
pub open spec fn updated_line(name: Seq<char>, collection: Seq<char>) -> Seq<char> {
    "Updated "@ + name + " in "@ + collection
}

/// Adds an alias.
pub fn add(store: &mut Store, collection: &str, name: &str, command: &str, clock: &Clock) -> (r:
    Result<String, AliazError>)
    requires
        old(store).wf(),
    ensures
        final(store).wf(),
        exists|id: Seq<char>|
            #![trigger outside::is_random_uuid(id)]
            outside::is_random_uuid(id) && (final(store)@, error::seen_text(r)) == match
                model::alias_upserted(
                old(store)@,
                collection@,
                name@,
                command@,
                id,
                clock::time_of(*clock),
            ) {
                (after, Ok(())) => (
                    after,
                    Ok::<Seq<char>, Failure>(added_line(name@, collection@)),
                ),
                (after, Err(f)) => (after, Err::<Seq<char>, Failure>(f)),
            },
{
    match store.upsert_in_collection(collection, name, command, clock) {
        Ok(()) => {
            let start = cat3("Added ", name, " to ");
            Ok(cat(start.as_str(), collection))
        },
        Err(e) => Err(e),
    }
}

/// Deletes an alias.
pub fn remove(store: &mut Store, collection: Option<&str>, name: &str, clock: &Clock) -> (r: Result<
    String,
    AliazError,
>)
    requires
        old(store).wf(),
    ensures
        final(store).wf(),
        (final(store)@, error::seen_text(r)) == match model::alias_deleted(
            old(store)@,
            text::seen_option(collection),
            name@,
            clock::time_of(*clock),
        ) {
            (after, Ok(c)) => (after, Ok::<Seq<char>, Failure>(deleted_line(name@, c))),
            (after, Err(f)) => (after, Err::<Seq<char>, Failure>(f)),
        },
{
    match store.delete_alias(collection, name, clock) {
        Ok(from) => {
            let start = cat3("Deleted ", name, " from ");
            Ok(cat(start.as_str(), from.as_str()))
        },
        Err(e) => Err(e),
    }
}

/// Gives an alias another command.
pub fn edit(
    store: &mut Store,
    collection: Option<&str>,
    name: &str,
    command: &str,
    clock: &Clock,
) -> (r: Result<String, AliazError>)
    requires
        old(store).wf(),
    ensures
        final(store).wf(),
        (final(store)@, error::seen_text(r)) == match model::alias_updated(
            old(store)@,
            text::seen_option(collection),
            name@,
            command@,
            clock::time_of(*clock),
        ) {
            (after, Ok(c)) => (after, Ok::<Seq<char>, Failure>(updated_line(name@, c))),
            (after, Err(f)) => (after, Err::<Seq<char>, Failure>(f)),
        },
{
    match store.update_alias(collection, name, command, clock) {
        Ok(at) => {
            let start = cat3("Updated ", name, " in ");
            Ok(cat(start.as_str(), at.as_str()))
        },
        Err(e) => Err(e),
    }
}

/// Whether a collection is active, in words.
pub open spec fn activity(active: bool) -> Seq<char> {
    if active {
        "active"@
    } else {
        "inactive"@
    }
}

fn activity_text(active: bool) -> (r: &'static str)
    ensures
        r@ == activity(active),
{
    if active {
        "active"
    } else {
        "inactive"
    }
}

/// An alias in the list of all aliases: name, command, collection, and whether that is active.
pub open spec fn full_line(st: StoreState, a: AliasInfo) -> Seq<char> {
    a.name + "\t"@ + a.command + "\t"@ + a.collection_name + "\t"@ + activity(
        st.active.contains_key(a.collection_id),
    )
}

proof fn lemma_active_names(list: Seq<CollectionInfo>, name: Seq<char>)
    ensures
        model::active_names(list).contains(name) <==> exists|i: int|
            0 <= i < list.len() && (#[trigger] list[i]).active && list[i].name == name,
    decreases list.len(),
{
    let all = model::active_names(list);
    if list.len() > 0 {
        let before = list.drop_last();
        let names = model::active_names(before);
        lemma_active_names(before, name);
        let n = list.len() - 1;
        if all.contains(name) {
            let k = all.index_of(name);
            if k < names.len() {
                assert(names[k] == name);
                assert(names.contains(name));
                let i = choose|i: int|
                    0 <= i < before.len() && (#[trigger] before[i]).active && before[i].name
                        == name;
                assert(list[i] == before[i]);
            } else {
                assert(list[n].active && list[n].name == name);
            }
        }
        if exists|i: int|
            0 <= i < list.len() && (#[trigger] list[i]).active && list[i].name == name {
            let i = choose|i: int|
                0 <= i < list.len() && (#[trigger] list[i]).active && list[i].name == name;
            if i < n {
                assert(before[i] == list[i]);
                assert(names.contains(name));
                let k = names.index_of(name);
                assert(all[k] == name);
            } else {
                assert(all.last() == name);
            }
        }
    }
}

/// The active collections by name are the active collections.
proof fn lemma_collection_activity(st: StoreState, list: Seq<CollectionInfo>, id: Seq<char>)
    requires
        model::consistent(st),
        model::is_collection_list(list, st),
        model::live_ids(st).contains(id),
    ensures
        model::active_names(list).contains(st.collections[id].name) == st.active.contains_key(id),
{
    let name = st.collections[id].name;
    lemma_active_names(list, name);
    let info = model::collection_info(st, id);
    assert(list.contains(info));
    let k = list.index_of(info);
    assert(list[k] == info);
    if exists|i: int| 0 <= i < list.len() && (#[trigger] list[i]).active && list[i].name == name {
        let i = choose|i: int|
            0 <= i < list.len() && (#[trigger] list[i]).active && list[i].name == name;
        assert(model::live_ids(st).contains(list[i].id));
        assert(st.collections.contains_key(list[i].id) && st.collections.contains_key(id));
    }
}

/// The list of all aliases, of one collection or of all.
fn full_lines(store: &Store, aliases: &Vec<Alias>) -> (r: Vec<String>)
    requires
        store.wf(),
        forall|i: int|
            0 <= i < aliases@.len() ==> model::holds(
                store@,
                (#[trigger] aliases@[i]).collection_id@,
                aliases@[i].name@,
            ) && aliases@[i].collection_name@ == store@.collections[aliases@[i].collection_id@].name,
    ensures
        text::texts(r@) == rows::recs(aliases@).map_values(|a: AliasInfo| full_line(store@, a)),
{
    let collections = store.collections();
    let active = active_collection_names(&collections);
    let ghost list = rows::recs(collections@);
    let ghost want = rows::recs(aliases@).map_values(|a: AliasInfo| full_line(store@, a));
    let mut out: Vec<String> = Vec::new();
    for i in 0..aliases.len()
        invariant
            store.wf(),
            list == rows::recs(collections@),
            model::is_collection_list(list, store@),
            text::texts(active@) == model::active_names(list),
            want == rows::recs(aliases@).map_values(|a: AliasInfo| full_line(store@, a)),
            forall|k: int|
                0 <= k < aliases@.len() ==> model::holds(
                    store@,
                    (#[trigger] aliases@[k]).collection_id@,
                    aliases@[k].name@,
                ) && aliases@[k].collection_name@
                    == store@.collections[aliases@[k].collection_id@].name,
            text::texts(out@) =~= want.take(i as int),
    {
        let alias = &aliases[i];
        let ghost before = text::texts(out@);
        proof {
            assert(rows::recs(aliases@)[i as int] == alias@);
            assert(model::live_ids(store@).contains(alias.collection_id@));
            lemma_collection_activity(store@, list, alias.collection_id@);
        }
        let status = activity_text(has_item(&active, alias.collection_name.as_str()));
        let mut line = cat3(alias.name.as_str(), "\t", alias.command.as_str());
        line.append("\t");
        line.append(alias.collection_name.as_str());
        line.append("\t");
        line.append(status);
        assert(line@ == want[i as int]);
        out.push(line);
        assert(text::texts(out@) =~= before.push(want[i as int]));
    }
    assert(want.take(want.len() as int) =~= want);
    out
}

/// The lines that listing aliases prints.
pub open spec fn is_listing(
    st: StoreState,
    all: bool,
    collection: Option<Seq<char>>,
    r: Result<Vec<String>, AliazError>,
) -> bool {
    if all || collection is Some {
        match model::listed_keys(st, collection) {
            Err(f) => r matches Err(e) && e@ == f,
            Ok(_) => exists|list: Seq<AliasInfo>|
                #![trigger model::is_alias_list(list, st, collection)]
                model::is_alias_list(list, st, collection) && error::seen_texts(r) == Ok::<
                    Seq<Seq<char>>,
                    Failure,
                >(
                    list.map_values(
                        |a: AliasInfo|
                            if all {
                                full_line(st, a)
                            } else {
                                select::select_line(a)
                            },
                    ),
                ),
        }
    } else {
        exists|list: Seq<AliasInfo>|
            #![trigger model::is_effective_list(list, st)]
            model::is_effective_list(list, st) && error::seen_texts(r) == Ok::<
                Seq<Seq<char>>,
                Failure,
            >(list.map_values(|a: AliasInfo| select::select_line(a)))
    }
}

/// Lists aliases: all of them with their collections, those of a collection, or those that a shell
/// gets.
pub fn list(store: &Store, all: bool, collection: Option<&str>) -> (r: Result<
    Vec<String>,
    AliazError,
>)
    requires
        store.wf(),
    ensures
        is_listing(store@, all, text::seen_option(collection), r),
{
    if all || collection.is_some() {
        let aliases = match store.list_all(collection) {
            Ok(aliases) => aliases,
            Err(e) => {
                return Err(e);
            },
        };
        let ghost shown = rows::recs(aliases@);
        proof {
            let keys = model::listed_keys(store@, text::seen_option(collection))->Ok_0;
            assert forall|i: int| 0 <= i < aliases@.len() implies model::holds(
                store@,
                (#[trigger] aliases@[i]).collection_id@,
                aliases@[i].name@,
            ) && aliases@[i].collection_name@
                == store@.collections[aliases@[i].collection_id@].name by {
                assert(shown[i] == aliases@[i]@);
                assert(keys.contains((shown[i].collection_id, shown[i].name)));
            }
        }
        let out = if all {
            full_lines(store, &aliases)
        } else {
            alias_select_lines(&aliases)
        };
        assert(model::is_alias_list(shown, store@, text::seen_option(collection)));
        assert(text::texts(out@) =~= shown.map_values(
            |a: AliasInfo|
                if all {
                    full_line(store@, a)
                } else {
                    select::select_line(a)
                },
        ));
        Ok(out)
    } else {
        let aliases = store.list_effective();
        Ok(alias_select_lines(&aliases))
    }
}

/// The alias definitions for a shell.
pub fn generate(store: &Store, shell: &Shell) -> (r: Vec<String>)
    requires
        store.wf(),
    ensures
        exists|list: Seq<AliasInfo>|
            #![trigger model::is_effective_list(list, store@)]
            model::is_effective_list(list, store@) && text::texts(r@) == shell::alias_lines(
                *shell,
                list,
            ),
{
    let aliases = store.list_effective();
    shell_alias_lines(shell, &aliases)
}

// ---------------------------------------------------------------------------
// Collections
// ---------------------------------------------------------------------------
/// Creates a collection.
pub fn collection_add(store: &mut Store, name: &str, clock: &Clock) -> (r: Result<
    String,
    AliazError,
>)
    requires
        old(store).wf(),
    ensures
        final(store).wf(),
        (final(store)@, error::seen_text(r)) == match model::collection_created(
            old(store)@,
            name@,
            clock::time_of(*clock),
        ) {
            (after, Ok(())) => (after, Ok::<Seq<char>, Failure>("Created collection "@ + name@)),
            (after, Err(f)) => (after, Err::<Seq<char>, Failure>(f)),
        },
{
    match store.create_collection(name, clock) {
        Ok(()) => Ok(cat("Created collection ", name)),
        Err(e) => Err(e),
    }
}

/// A collection in the list of collections.
pub open spec fn collection_line(c: CollectionInfo) -> Seq<char> {
    c.name + "\t"@ + activity(c.active)
}

/// Lists the collections.
pub fn collection_list(store: &Store) -> (r: Vec<String>)
    requires
        store.wf(),
    ensures
        exists|list: Seq<CollectionInfo>|
            #![trigger model::is_collection_list(list, store@)]
            model::is_collection_list(list, store@) && text::texts(r@) == list.map_values(
                |c: CollectionInfo| collection_line(c),
            ),
{
    let collections = store.collections();
    let ghost shown = rows::recs(collections@);
    let ghost want = shown.map_values(|c: CollectionInfo| collection_line(c));
    let mut out: Vec<String> = Vec::new();
    for i in 0..collections.len()
        invariant
            shown == rows::recs(collections@),
            want == shown.map_values(|c: CollectionInfo| collection_line(c)),
            text::texts(out@) =~= want.take(i as int),
    {
        let collection = &collections[i];
        let ghost before = text::texts(out@);
        assert(shown[i as int] == collection@);
        let line = cat3(collection.name.as_str(), "\t", activity_text(collection.active));
        assert(line@ == want[i as int]);
        out.push(line);
        assert(text::texts(out@) =~= before.push(want[i as int]));
    }
    assert(want.take(want.len() as int) =~= want);
    out
}

/// The lines about collections that were activated.
pub open spec fn activation_lines(activated: Seq<Seq<char>>) -> Seq<Seq<char>> {
    if activated.len() == 0 {
        seq!["No collections changed"@]
    } else {
        activated.map_values(|name: Seq<char>| "Activated "@ + name)
    }
}

/// Activates collections, of which at least one is to be named.
pub fn collection_activate(store: &mut Store, names: &Vec<String>) -> (r: Result<
    Vec<String>,
    AliazError,
>)
    requires
        old(store).wf(),
    ensures
        final(store).wf(),
        (final(store)@, error::seen_texts(r)) == if names@.len() == 0 {
            (old(store)@, Err::<Seq<Seq<char>>, Failure>(Failure::NoCollectionNames))
        } else {
            match model::collections_activated(old(store)@, text::texts(names@)) {
                (after, Ok(activated)) => (
                    after,
                    Ok::<Seq<Seq<char>>, Failure>(activation_lines(activated)),
                ),
                (after, Err(f)) => (after, Err::<Seq<Seq<char>>, Failure>(f)),
            }
        },
{
    if names.len() == 0 {
        return Err(AliazError::NoCollectionNames);
    }
    let activated = match store.activate_collections(names) {
        Ok(activated) => activated,
        Err(e) => {
            return Err(e);
        },
    };
    if activated.len() == 0 {
        return Ok(single("No collections changed".to_owned()));
    }
    let ghost want = activation_lines(text::texts(activated@));
    let mut out: Vec<String> = Vec::new();
    for i in 0..activated.len()
        invariant
            activated@.len() > 0,
            want == activation_lines(text::texts(activated@)),
            text::texts(out@) =~= want.take(i as int),
    {
        let ghost before = text::texts(out@);
        let line = cat("Activated ", activated[i].as_str());
        assert(line@ == want[i as int]);
        out.push(line);
        assert(text::texts(out@) =~= before.push(want[i as int]));
    }
    assert(want.take(want.len() as int) =~= want);
    Ok(out)
}

/// What deactivating a collection reports: whether it was active.
pub open spec fn deactivated_line(name: Seq<char>, changed: bool) -> Seq<char> {
    if changed {
        "Deactivated "@ + name
    } else {
        name + " is already inactive"@
    }
}

/// Deactivates a collection.
pub fn collection_deactivate(store: &mut Store, name: &str) -> (r: Result<String, AliazError>)
    requires
        old(store).wf(),
    ensures
        final(store).wf(),
        (final(store)@, error::seen_text(r)) == match model::collection_deactivated(
            old(store)@,
            name@,
        ) {
            (after, Ok(changed)) => (
                after,
                Ok::<Seq<char>, Failure>(deactivated_line(name@, changed)),
            ),
            (after, Err(f)) => (after, Err::<Seq<char>, Failure>(f)),
        },
{
    match store.deactivate_collection(name) {
        Ok(changed) => {
            if changed {
                Ok(cat("Deactivated ", name))
            } else {
                Ok(cat(name, " is already inactive"))
            }
        },
        Err(e) => Err(e),
    }
}

/// What moving an alias reports.
pub open spec fn moved_line(alias: Seq<char>, from: Seq<char>, to: Seq<char>) -> Seq<char> {
    "Moved "@ + alias + " from "@ + from + " to "@ + to
}

/// Moves an alias to another collection.
pub fn collection_move(store: &mut Store, alias: &str, from: &str, to: &str, clock: &Clock) -> (r:
    Result<String, AliazError>)
    requires
        old(store).wf(),
    ensures
        final(store).wf(),
        (final(store)@, error::seen_text(r)) == match model::alias_moved(
            old(store)@,
            alias@,
            from@,
            to@,
            clock::time_of(*clock),
        ) {
            (after, Ok(())) => (
                after,
                Ok::<Seq<char>, Failure>(moved_line(alias@, from@, to@)),
            ),
            (after, Err(f)) => (after, Err::<Seq<char>, Failure>(f)),
        },
{
    match store.move_alias(alias, from, to, clock) {
        Ok(()) => {
            let mut line = cat3("Moved ", alias, " from ");
            line.append(from);
            line.append(" to ");
            line.append(to);
            Ok(line)
        },
        Err(e) => Err(e),
    }
}

/// Creates collections and activates them.
pub open spec fn created_and_activated(
    st: StoreState,
    names: Seq<Seq<char>>,
    now: Option<i64>,
) -> (StoreState, Result<(), Failure>) {
    match transfer::all_created(st, names, now) {
        (mid, Err(f)) => (mid, Err(f)),
        (mid, Ok(())) => match model::collections_activated(mid, names) {
            (after, Err(f)) => (after, Err(f)),
            (after, Ok(_)) => (after, Ok(())),
        },
    }
}

/// Creates collections and activates them.
pub fn create_and_activate_collections(store: &mut Store, names: &Vec<String>, clock: &Clock) -> (r:
    Result<(), AliazError>)
    requires
        old(store).wf(),
    ensures
        final(store).wf(),
        (final(store)@, error::seen(r)) == created_and_activated(
            old(store)@,
            text::texts(names@),
            clock::time_of(*clock),
        ),
{
    if let Err(e) = create_collections(store, names, clock) {
        return Err(e);
    }
    match store.activate_collections(names) {
        Ok(_) => Ok(()),
        Err(e) => Err(e),
    }
}

/// The names of the collections other than the shared one.
pub open spec fn other_names(list: Seq<CollectionInfo>) -> Seq<Seq<char>>
    decreases list.len(),
{
    if list.len() == 0 {
        Seq::empty()
    } else if list.last().name != DEFAULT_COLLECTION_NAME@ {
        other_names(list.drop_last()).push(list.last().name)
    } else {
        other_names(list.drop_last())
    }
}

/// The collections that a user may choose among at a login.
pub fn selectable_collections(store: &Store) -> (r: Vec<String>)
    requires
        store.wf(),
    ensures
        exists|list: Seq<CollectionInfo>|
            #![trigger model::is_collection_list(list, store@)]
            model::is_collection_list(list, store@) && text::texts(r@) == other_names(list),
{
    let collections = store.collections();
    let ghost all = rows::recs(collections@);
    let mut out: Vec<String> = Vec::new();
    assert(text::texts(out@) =~= Seq::<Seq<char>>::empty());
    assert(all.take(0) =~= Seq::<CollectionInfo>::empty());
    for i in 0..collections.len()
        invariant
            all == rows::recs(collections@),
            text::texts(out@) == other_names(all.take(i as int)),
    {
        assert(all.take(i + 1).drop_last() =~= all.take(i as int));
        assert(all.take(i + 1).last() == collections@[i as int]@);
        if !same_text(collections[i].name.as_str(), DEFAULT_COLLECTION_NAME) {
            let ghost before = text::texts(out@);
            out.push(collections[i].name.clone());
            assert(text::texts(out@) =~= before.push(collections@[i as int].name@));
        }
    }
    assert(all.take(all.len() as int) =~= all);
    out
}

/// The question to a user which collections to activate: `None` where there is nobody to ask, or
/// nothing to choose.
pub fn prompt_for_collection_selection(names: &Vec<String>, terminal: bool) -> (r: Option<
    (String, String),
>)
    ensures
        if terminal && names@.len() > 0 {
            r matches Some((shown, question)) && shown@ == "Available collections: "@
                + text::joined(text::texts(names@), ", "@) && question@
                == "Activate collections for this computer (comma-separated, blank for shared only): "@
        } else {
            r is None
        },
{
    if !terminal || names.len() == 0 {
        return None;
    }
    let listed = join(names, ", ");
    Some(
        (
            cat("Available collections: ", listed.as_str()),
            "Activate collections for this computer (comma-separated, blank for shared only): ".to_owned(),
        ),
    )
}

/// The collections that a user named in an answer.
pub fn selected_collections(answer: &str) -> (r: Result<Vec<String>, AliazError>)
    ensures
        error::seen_texts(r) == names::names_listed(Some(text::trimmed(answer@))),
{
    let trimmed = trim(answer);
    parse_collection_csv(Some(trimmed.as_str()))
}

// ---------------------------------------------------------------------------
// Reports
// ---------------------------------------------------------------------------
/// How many aliases were imported.
pub fn imported_line(count: usize) -> (r: String)
    ensures
        r@ == "Imported "@ + text::decimal(count as int) + " aliases"@,
{
    let number = count_text(count);
    cat3("Imported ", number.as_str(), " aliases")
}

/// How many aliases were exported to a file.
pub fn exported_line(count: usize, path: &str) -> (r: String)
    ensures
        r@ == "Exported "@ + text::decimal(count as int) + " aliases to "@ + path@,
{
    let number = count_text(count);
    let start = cat3("Exported ", number.as_str(), " aliases to ");
    cat(start.as_str(), path)
}

/// What registering reports.
pub fn registered_lines(username: &str, phrase: &str) -> (r: Vec<String>)
    ensures
        text::texts(r@) == seq![
            "Registered "@ + username@,
            "Recovery phrase: "@ + phrase@,
            "Store this phrase safely. Aliaz cannot recover encrypted aliases without it."@,
        ],
{
    let mut out: Vec<String> = Vec::new();
    out.push(cat("Registered ", username));
    out.push(cat("Recovery phrase: ", phrase));
    out.push(
        "Store this phrase safely. Aliaz cannot recover encrypted aliases without it.".to_owned(),
    );
    assert(text::texts(out@) =~= seq![
        "Registered "@ + username@,
        "Recovery phrase: "@ + phrase@,
        "Store this phrase safely. Aliaz cannot recover encrypted aliases without it."@,
    ]);
    out
}

/// What logging out reports.
pub fn logout_line(config: Option<&SyncConfig>) -> (r: String)
    ensures
        r@ == match config {
            Some(c) => "Logged out "@ + c.username@,
            None => "Sync was not configured"@,
        },
{
    match config {
        Some(config) => cat("Logged out ", config.username.as_str()),
        None => "Sync was not configured".to_owned(),
    }
}

/// What synchronising reports.
pub fn sync_line(result: &SyncResult, latest_version: i64) -> (r: String)
    ensures
        r@ == "Synced: pulled "@ + text::decimal(result.pulled as int) + ", pushed "@
            + text::decimal(result.pushed as int) + ", latest version "@ + text::decimal(
            latest_version as int,
        ),
{
    let pulled = count_text(result.pulled);
    let pushed = count_text(result.pushed);
    let version = decimal_text(latest_version);
    let mut line = cat3("Synced: pulled ", pulled.as_str(), ", pushed ");
    line.append(pushed.as_str());
    line.append(", latest version ");
    line.append(version.as_str());
    line
}

/// What is reported of the configuration of synchronising.
pub open spec fn sync_status(config: Option<SyncConfig>) -> Seq<Seq<char>> {
    match config {
        Some(c) => seq![
            "sync: configured for "@ + c.username@,
            "sync url: "@ + c.sync_url@,
            "latest sync version: "@ + text::decimal(c.latest_version as int),
        ],
        None => seq!["sync: not configured"@],
    }
}

/// The counts of a store in words.
pub open spec fn store_status(st: StoreState, active: Seq<Seq<char>>) -> Seq<Seq<char>> {
    seq![
        "aliases: "@ + text::decimal(model::effective_keys(st).len() as i64 as int),
        "collections: "@ + text::decimal(model::live_ids(st).len() as i64 as int),
        "active collections: "@ + text::joined(active, ", "@),
        "pending sync records: "@ + text::decimal(
            (model::dirty_ids(st).len() + model::dirty_keys(st).len()) as i64 as int,
        ),
    ]
}

/// Reports counts of what is stored.
pub fn store_status_lines(store: &Store) -> (r: Vec<String>)
    requires
        store.wf(),
    ensures
        exists|list: Seq<CollectionInfo>|
            #![trigger model::is_collection_list(list, store@)]
            model::is_collection_list(list, store@) && text::texts(r@) == store_status(
                store@,
                model::active_names(list),
            ),
{
    let status = store.status();
    let ghost list = choose|list: Seq<CollectionInfo>| #[trigger]
        model::is_collection_list(list, store@) && text::texts(status.active_collections@)
            == model::active_names(list);
    let aliases = decimal_text(status.aliases);
    let collections = decimal_text(status.collections);
    let active = join(&status.active_collections, ", ");
    let pending = decimal_text(status.pending);
    let mut out: Vec<String> = Vec::new();
    out.push(cat("aliases: ", aliases.as_str()));
    out.push(cat("collections: ", collections.as_str()));
    out.push(cat("active collections: ", active.as_str()));
    out.push(cat("pending sync records: ", pending.as_str()));
    assert(text::texts(out@) =~= store_status(store@, model::active_names(list)));
    out
}

/// Reports the configuration of synchronising.
pub fn sync_status_lines(config: &Option<SyncConfig>) -> (r: Vec<String>)
    ensures
        text::texts(r@) == sync_status(*config),
{
    let mut out: Vec<String> = Vec::new();
    match config {
        Some(config) => {
            let version = decimal_text(config.latest_version);
            out.push(cat("sync: configured for ", config.username.as_str()));
            out.push(cat("sync url: ", config.sync_url.as_str()));
            out.push(cat("latest sync version: ", version.as_str()));
        },
        None => {
            out.push("sync: not configured".to_owned());
        },
    }
    assert(text::texts(out@) =~= sync_status(*config));
    out
}

/// Reports counts of what is stored, and the configuration of synchronising.
pub fn status(store: &Store, config: &Option<SyncConfig>) -> (r: Vec<String>)
    requires
        store.wf(),
    ensures
        exists|list: Seq<CollectionInfo>|
            #![trigger model::is_collection_list(list, store@)]
            model::is_collection_list(list, store@) && text::texts(r@) == store_status(
                store@,
                model::active_names(list),
            ) + sync_status(*config),
{
    let mut out = store_status_lines(store);
    let ghost first = text::texts(out@);
    let mut rest = sync_status_lines(config);
    let ghost second = text::texts(rest@);
    out.append(&mut rest);
    assert(text::texts(out@) =~= first + second);
    out
}

/// What is reported of the configuration and the secret: the second counts where there is a
/// configuration.
pub open spec fn doctor_report(configured: bool, phrase_available: bool) -> Seq<Seq<char>> {
    if configured {
        seq![
            "sync config: ok"@,
            if phrase_available {
                "secret storage: ok"@
            } else {
                "secret storage: missing"@
            },
        ]
    } else {
        seq!["sync config: missing"@]
    }
}

/// Reports on the configuration and the secret.
pub fn doctor_lines(configured: bool, phrase_available: bool) -> (r: Vec<String>)
    ensures
        text::texts(r@) == doctor_report(configured, phrase_available),
{
    let mut out: Vec<String> = Vec::new();
    if configured {
        out.push("sync config: ok".to_owned());
        if phrase_available {
            out.push("secret storage: ok".to_owned());
        } else {
            out.push("secret storage: missing".to_owned());
        }
    } else {
        out.push("sync config: missing".to_owned());
    }
    assert(text::texts(out@) =~= doctor_report(configured, phrase_available));
    out
}

// ---------------------------------------------------------------------------
// What the lines say
// ---------------------------------------------------------------------------
/// The lines of a listing that succeeded.
pub open spec fn lines_in(r: Result<Vec<String>, AliazError>) -> Seq<Seq<char>> {
    text::texts(r->Ok_0@)
}

/// The line has the name and the command of an alias that prevails.
pub open spec fn tells_of(st: StoreState, line: Seq<char>) -> bool {
    exists|k: AliasKey| #[trigger]
        effects::prevails(st, k) && line == k.1 + seq!['\t'] + st.aliases[k].command
}

/// The line has the name and the command of an alias that stands in the collection.
pub open spec fn tells_of_one_in(st: StoreState, cid: Seq<char>, line: Seq<char>) -> bool {
    exists|name: Seq<char>| #[trigger]
        effects::stands(st, cid, name) && line == name + seq!['\t'] + st.aliases[(
            cid,
            name,
        )].command
}

/// Listing without more words gives a line for each alias that prevails, with its name and its
/// command, by name, and no other line.
pub proof fn law_listing(st: StoreState, r: Result<Vec<String>, AliazError>)
    requires
        model::consistent(st),
        is_listing(st, false, None, r),
    ensures
        r is Ok,
        forall|k: AliasKey| #[trigger]
            effects::prevails(st, k) ==> lines_in(r).contains(
                k.1 + seq!['\t'] + st.aliases[k].command,
            ),
        forall|i: int| 0 <= i < lines_in(r).len() ==> tells_of(st, #[trigger] lines_in(r)[i]),
        lines_in(r).len() == model::effective_keys(st).len(),
        forall|list: Seq<AliasInfo>, i: int|
            model::priorities_distinct(st) && #[trigger] model::is_effective_list(list, st) && 0 <= i
                < list.len() ==> #[trigger] lines_in(r)[i] == list[i].name + seq!['\t']
                + list[i].command,
{
    reveal_strlit("\t");
    assert("\t"@ =~= seq!['\t']);
    let list = choose|list: Seq<AliasInfo>|
        #![trigger model::is_effective_list(list, st)]
        model::is_effective_list(list, st) && error::seen_texts(r) == Ok::<
            Seq<Seq<char>>,
            Failure,
        >(list.map_values(|a: AliasInfo| select::select_line(a)));
    let lines = lines_in(r);
    assert(lines == list.map_values(|a: AliasInfo| select::select_line(a)));
    effects::law_effective_list(list, st);
    listing::lemma_aliases_shown(list, st, model::effective_keys(st));
    assert forall|other: Seq<AliasInfo>, i: int|
        model::priorities_distinct(st) && #[trigger] model::is_effective_list(other, st) && 0 <= i
            < other.len() implies #[trigger] lines[i] == other[i].name + seq!['\t']
        + other[i].command by {
        listing::law_effective_list_is_determined(list, other, st);
        assert(lines[i] == select::select_line(list[i]));
    }
    assert forall|k: AliasKey| #[trigger] effects::prevails(st, k) implies lines.contains(
        k.1 + seq!['\t'] + st.aliases[k].command,
    ) by {
        assert(effects::lists(list, k));
        let i = choose|i: int|
            0 <= i < list.len() && (#[trigger] list[i]).collection_id == k.0 && list[i].name == k.1;
        assert(effects::shows(st, list[i]));
        assert((k.0, k.1) == k);
        assert(lines[i] == k.1 + seq!['\t'] + st.aliases[k].command);
    }
    assert forall|i: int| 0 <= i < lines.len() implies tells_of(st, #[trigger] lines[i]) by {
        let k = (list[i].collection_id, list[i].name);
        assert(effects::shows(st, list[i]));
        assert(effects::prevails(st, k));
        assert(lines[i] == select::select_line(list[i]));
    }
}

proof fn lemma_listed(
    st: StoreState,
    all: bool,
    collection: Option<Seq<char>>,
    r: Result<Vec<String>, AliazError>,
) -> (list: Seq<AliasInfo>)
    requires
        all || collection is Some,
        model::listed_keys(st, collection) is Ok,
        is_listing(st, all, collection, r),
    ensures
        r is Ok,
        model::is_alias_list(list, st, collection),
        lines_in(r).len() == list.len(),
        forall|i: int|
            0 <= i < list.len() ==> #[trigger] lines_in(r)[i] == if all {
                full_line(st, list[i])
            } else {
                select::select_line(list[i])
            },
{
    let list = choose|list: Seq<AliasInfo>|
        #![trigger model::is_alias_list(list, st, collection)]
        model::is_alias_list(list, st, collection) && error::seen_texts(r) == Ok::<
            Seq<Seq<char>>,
            Failure,
        >(
            list.map_values(
                |a: AliasInfo|
                    if all {
                        full_line(st, a)
                    } else {
                        select::select_line(a)
                    },
            ),
        );
    list
}

/// Listing all aliases gives a line for each one that stands, also for one that does not prevail:
/// its name, its command, its collection and whether that is active.
pub proof fn law_full_listing(st: StoreState, r: Result<Vec<String>, AliazError>)
    requires
        model::consistent(st),
        is_listing(st, true, None, r),
    ensures
        r is Ok,
        forall|cid: Seq<char>, name: Seq<char>| #[trigger]
            effects::stands(st, cid, name) ==> lines_in(r).contains(
                name + seq!['\t'] + st.aliases[(cid, name)].command + seq!['\t']
                    + st.collections[cid].name + seq!['\t'] + if st.active.contains_key(cid) {
                    "active"@
                } else {
                    "inactive"@
                },
            ),
        lines_in(r).len() == model::live_keys(st).len(),
        forall|list: Seq<AliasInfo>, i: int|
            #[trigger] model::is_alias_list(list, st, None) && 0 <= i < list.len()
                ==> #[trigger] lines_in(r)[i] == list[i].name + seq!['\t'] + list[i].command
                + seq!['\t'] + list[i].collection_name + seq!['\t'] + activity(
                st.active.contains_key(list[i].collection_id),
            ),
{
    reveal_strlit("\t");
    assert("\t"@ =~= seq!['\t']);
    let list = lemma_listed(st, true, None, r);
    let lines = lines_in(r);
    effects::law_whole_list(list, st);
    listing::lemma_aliases_shown(list, st, model::live_keys(st));
    assert forall|other: Seq<AliasInfo>, i: int|
        #[trigger] model::is_alias_list(other, st, None) && 0 <= i < other.len() implies
        #[trigger] lines[i] == other[i].name + seq!['\t'] + other[i].command + seq!['\t']
        + other[i].collection_name + seq!['\t'] + activity(
        st.active.contains_key(other[i].collection_id),
    ) by {
        listing::law_alias_list_is_determined(list, other, st, None);
        assert(lines[i] == full_line(st, list[i]));
    }
    assert forall|cid: Seq<char>, name: Seq<char>| #[trigger] effects::stands(
        st,
        cid,
        name,
    ) implies lines.contains(
        name + seq!['\t'] + st.aliases[(cid, name)].command + seq!['\t'] + st.collections[cid].name
            + seq!['\t'] + if st.active.contains_key(cid) {
            "active"@
        } else {
            "inactive"@
        },
    ) by {
        assert(effects::lists(list, (cid, name)));
        let i = choose|i: int|
            0 <= i < list.len() && (#[trigger] list[i]).collection_id == cid && list[i].name
                == name;
        assert(effects::shows(st, list[i]));
        assert(lines[i] == full_line(st, list[i]));
    }
}

/// Listing one collection gives a line for each alias that stands in it, active or not, and fails if
/// and only if the collection cannot be found.
pub proof fn law_listing_of_one(
    st: StoreState,
    cid: Seq<char>,
    r: Result<Vec<String>, AliazError>,
)
    requires
        model::consistent(st),
        effects::usable(st, cid),
        is_listing(st, false, Some(st.collections[cid].name), r),
    ensures
        r is Ok,
        forall|name: Seq<char>| #[trigger]
            effects::stands(st, cid, name) ==> lines_in(r).contains(
                name + seq!['\t'] + st.aliases[(cid, name)].command,
            ),
        forall|i: int|
            0 <= i < lines_in(r).len() ==> tells_of_one_in(st, cid, #[trigger] lines_in(r)[i]),
        forall|list: Seq<AliasInfo>, i: int|
            #[trigger] model::is_alias_list(list, st, Some(st.collections[cid].name)) && 0 <= i
                < list.len() ==> #[trigger] lines_in(r)[i] == list[i].name + seq!['\t']
                + list[i].command,
{
    reveal_strlit("\t");
    assert("\t"@ =~= seq!['\t']);
    let named = Some(st.collections[cid].name);
    effects::law_listing_is_owed(st, st.collections[cid].name);
    let list = lemma_listed(st, false, named, r);
    let lines = lines_in(r);
    effects::law_list_of_one(list, st, cid);
    assert forall|other: Seq<AliasInfo>, i: int|
        #[trigger] model::is_alias_list(other, st, Some(st.collections[cid].name)) && 0 <= i
            < other.len() implies #[trigger] lines[i] == other[i].name + seq!['\t']
        + other[i].command by {
        listing::law_alias_list_is_determined(list, other, st, named);
        assert(lines[i] == select::select_line(list[i]));
    }
    assert forall|name: Seq<char>| #[trigger] effects::stands(st, cid, name) implies lines.contains(
        name + seq!['\t'] + st.aliases[(cid, name)].command,
    ) by {
        assert(effects::lists(list, (cid, name)));
        let i = choose|i: int|
            0 <= i < list.len() && (#[trigger] list[i]).collection_id == cid && list[i].name
                == name;
        assert(effects::shows(st, list[i]));
        assert(lines[i] == select::select_line(list[i]));
    }
    assert forall|i: int| 0 <= i < lines.len() implies tells_of_one_in(
        st,
        cid,
        #[trigger] lines[i],
    ) by {
        assert(effects::shows(st, list[i]));
        assert(effects::stands(st, cid, list[i].name));
        assert(lines[i] == select::select_line(list[i]));
    }
}

/// The line of a collection is its name and whether it is active, which no two words say alike.
pub proof fn law_collection_line(c: CollectionInfo)
    ensures
        c.active ==> collection_line(c) == c.name + seq!['\t'] + "active"@,
        !c.active ==> collection_line(c) == c.name + seq!['\t'] + "inactive"@,
        activity(true) != activity(false),
{
    reveal_strlit("\t");
    assert("\t"@ =~= seq!['\t']);
    reveal_strlit("active");
    reveal_strlit("inactive");
    assert("active"@.len() != "inactive"@.len());
}

/// Each collection that was activated has a line, in turn; where none was, one line says so.
pub proof fn law_activation_lines(a: Seq<Seq<char>>, b: Seq<Seq<char>>, name: Seq<char>)
    ensures
        activation_lines(Seq::empty()) == seq!["No collections changed"@],
        activation_lines(seq![name]) == seq!["Activated "@ + name],
        a.len() > 0 && b.len() > 0 ==> activation_lines(a + b) == activation_lines(a)
            + activation_lines(b),
{
    assert(activation_lines(seq![name]) =~= seq!["Activated "@ + name]);
    if a.len() > 0 && b.len() > 0 {
        assert(activation_lines(a + b) =~= activation_lines(a) + activation_lines(b));
    }
}

/// The collections to choose among are all but the shared one, in the order of the list.
pub proof fn law_other_names(list: Seq<CollectionInfo>)
    ensures
        other_names(list) == list.filter(|c: CollectionInfo| c.name != "shared"@).map_values(
            |c: CollectionInfo| c.name,
        ),
    decreases list.len(),
{
    reveal(Seq::filter);
    if list.len() > 0 {
        law_other_names(list.drop_last());
        let kept = list.drop_last().filter(|c: CollectionInfo| c.name != "shared"@);
        assert(kept.push(list.last()).map_values(|c: CollectionInfo| c.name) =~= kept.map_values(
            |c: CollectionInfo| c.name,
        ).push(list.last().name));
    }
    assert(other_names(list) =~= list.filter(
        |c: CollectionInfo| c.name != "shared"@,
    ).map_values(|c: CollectionInfo| c.name));
}

proof fn lemma_created_names(st: StoreState, names: Seq<Seq<char>>, now: Option<i64>)
    requires
        model::consistent(st),
        transfer::all_created(st, names, now).1 is Ok,
    ensures
        ({
            let after = transfer::all_created(st, names, now).0;
            &&& model::consistent(after)
            &&& after.aliases == st.aliases
            &&& after.active == st.active
            &&& forall|id: Seq<char>| #[trigger]
                st.collections.contains_key(id) ==> after.collections.contains_key(id)
                    && after.collections[id].name == st.collections[id].name && (
                !st.collections[id].deleted ==> !after.collections[id].deleted)
            &&& forall|i: int|
                0 <= i < names.len() ==> transfer::names_collection(after, #[trigger] names[i])
        }),
    decreases names.len(),
{
    if names.len() > 0 {
        let fewer = names.drop_last();
        lemma_created_names(st, fewer, now);
        let mid = transfer::all_created(st, fewer, now).0;
        let after = transfer::all_created(st, names, now).0;
        let name = names.last();
        laws::law_create_keeps_order(mid, name, now);
        effects::law_created_is_found(mid, name, now);
        if name == DEFAULT_COLLECTION_NAME@ {
            laws::law_shared_ensured(mid, now.unwrap());
        } else if model::id_of_name(mid, name) is Some {
            assert(model::has_name(mid, model::id_of_name(mid, name).unwrap(), name));
        }
        assert forall|id: Seq<char>| #[trigger] mid.collections.contains_key(id) implies
            after.collections.contains_key(id) && after.collections[id].name
            == mid.collections[id].name && (!mid.collections[id].deleted
            ==> !after.collections[id].deleted) by {}
        assert forall|i: int| 0 <= i < names.len() implies transfer::names_collection(
            after,
            #[trigger] names[i],
        ) by {
            if i < fewer.len() {
                assert(fewer[i] == names[i]);
                let id = choose|id: Seq<char>| #[trigger]
                    mid.collections.contains_key(id) && !mid.collections[id].deleted
                        && mid.collections[id].name == names[i];
                assert(after.collections.contains_key(id));
            } else {
                assert(names[i] == name);
            }
        }
        assert forall|id: Seq<char>| #[trigger] st.collections.contains_key(id) implies
            after.collections.contains_key(id) && after.collections[id].name
            == st.collections[id].name && (!st.collections[id].deleted
            ==> !after.collections[id].deleted) by {
            assert(mid.collections.contains_key(id));
        }
    }
}

/// After collections were created and activated, each of them is there, is not deleted and is
/// active, the later ones above the earlier ones. No alias changed, no collection is lost, and every
/// one that was active is so with the priority it had.
pub proof fn law_created_and_activated(st: StoreState, names: Seq<Seq<char>>, now: Option<i64>)
    requires
        model::consistent(st),
        created_and_activated(st, names, now).1 is Ok,
    ensures
        ({
            let after = created_and_activated(st, names, now).0;
            &&& model::consistent(after)
            &&& after.aliases == st.aliases
            &&& st.active.submap_of(after.active)
            &&& forall|id: Seq<char>| #[trigger]
                st.collections.contains_key(id) ==> after.collections.contains_key(id)
                    && after.collections[id].name == st.collections[id].name
            &&& forall|i: int|
                0 <= i < names.len() ==> transfer::names_collection(after, #[trigger] names[i])
            &&& forall|i: int, id: Seq<char>|
                0 <= i < names.len() && #[trigger] after.collections.contains_key(id)
                    && after.collections[id].name == #[trigger] names[i]
                    ==> after.active.contains_key(id)
            &&& forall|i: int, j: int, first: Seq<char>, second: Seq<char>|
                #![trigger names[i], names[j], after.collections.contains_key(first),
                    after.collections.contains_key(second)]
                0 <= i < j < names.len() && after.collections.contains_key(first)
                    && after.collections[first].name == names[i] && after.collections.contains_key(
                    second,
                ) && after.collections[second].name == names[j] && !st.active.contains_key(second)
                    && (forall|m: int| 0 <= m < j ==> #[trigger] names[m] != names[j])
                    ==> after.active[first].priority < after.active[second].priority
        }),
{
    let mid = transfer::all_created(st, names, now).0;
    lemma_created_names(st, names, now);
    effects::law_activated_lists_are_active(mid, names);
    laws::law_activate_all_keeps_order(mid, names);
    let after = created_and_activated(st, names, now).0;
    assert forall|i: int, j: int, first: Seq<char>, second: Seq<char>|
        #![trigger names[i], names[j], after.collections.contains_key(first),
            after.collections.contains_key(second)]
        0 <= i < j < names.len() && after.collections.contains_key(first)
            && after.collections[first].name == names[i] && after.collections.contains_key(second)
            && after.collections[second].name == names[j] && !st.active.contains_key(second) && (
        forall|m: int| 0 <= m < j ==> #[trigger] names[m] != names[j]) implies
        after.active[first].priority < after.active[second].priority by {
        effects::law_activated_in_order(mid, names, i, j, first, second);
    }
    assert forall|i: int| 0 <= i < names.len() implies transfer::names_collection(
        after,
        #[trigger] names[i],
    ) by {
        assert(transfer::names_collection(mid, names[i]));
        let id = choose|id: Seq<char>| #[trigger]
            mid.collections.contains_key(id) && !mid.collections[id].deleted
                && mid.collections[id].name == names[i];
        assert(after.collections.contains_key(id));
    }
}

/// The status says how many aliases and collections the lists have, how many records wait to be
/// sent, and which collections are active, separated by commas.
pub proof fn law_store_status(
    st: StoreState,
    aliases: Seq<AliasInfo>,
    collections: Seq<CollectionInfo>,
    pending: Seq<CollectionInfo>,
    active: Seq<Seq<char>>,
)
    requires
        model::consistent(st),
        model::is_effective_list(aliases, st),
        model::is_collection_list(collections, st),
        model::is_pending_collection_list(pending, st),
        aliases.len() <= i64::MAX,
        collections.len() <= i64::MAX,
        pending.len() + model::dirty_keys(st).len() <= i64::MAX,
    ensures
        store_status(st, active).len() == 4,
        store_status(st, active)[0] == "aliases: "@ + text::decimal(aliases.len() as int),
        store_status(st, active)[1] == "collections: "@ + text::decimal(collections.len() as int),
        store_status(st, active)[2] == "active collections: "@ + text::joined(active, ", "@),
        store_status(st, active)[3] == "pending sync records: "@ + text::decimal(
            pending.len() + model::dirty_keys(st).len() as int,
        ),
{
    effects::law_counts(st, aliases, collections, pending);
}

/// The configuration is reported with the user, the address and the version that was reached, and
/// its lack as such. The secret is reported only where there is a configuration.
pub proof fn law_reports(config: Option<SyncConfig>, phrase_available: bool)
    ensures
        config is None ==> sync_status(config) == seq!["sync: not configured"@],
        config matches Some(c) ==> {
            &&& sync_status(config).len() == 3
            &&& text::contains_text(sync_status(config)[0], c.username@)
            &&& text::contains_text(sync_status(config)[1], c.sync_url@)
            &&& text::contains_text(
                sync_status(config)[2],
                text::decimal(c.latest_version as int),
            )
        },
        doctor_report(false, phrase_available) == seq!["sync config: missing"@],
        doctor_report(true, phrase_available).len() == 2,
        doctor_report(true, phrase_available)[0] == "sync config: ok"@,
        doctor_report(true, true)[1] == "secret storage: ok"@,
        doctor_report(true, false)[1] == "secret storage: missing"@,
{
    if let Some(c) = config {
        let none = Seq::<char>::empty();
        let first = sync_status(config)[0];
        let second = sync_status(config)[1];
        let third = sync_status(config)[2];
        let version = text::decimal(c.latest_version as int);
        assert(first =~= "sync: configured for "@ + c.username@ + none);
        assert(second =~= "sync url: "@ + c.sync_url@ + none);
        assert(third =~= "latest sync version: "@ + version + none);
        text::law_contains_text(first, c.username@);
        text::law_contains_text(second, c.sync_url@);
        text::law_contains_text(third, version);
    }
}

/// Listing all there is to say of one collection gives the full line of each alias that stands in it,
/// by name.
pub proof fn law_full_listing_of_one(
    st: StoreState,
    cid: Seq<char>,
    r: Result<Vec<String>, AliazError>,
)
    requires
        model::consistent(st),
        effects::usable(st, cid),
        is_listing(st, true, Some(st.collections[cid].name), r),
    ensures
        r is Ok,
        forall|list: Seq<AliasInfo>, i: int|
            #[trigger] model::is_alias_list(list, st, Some(st.collections[cid].name)) && 0 <= i
                < list.len() ==> #[trigger] lines_in(r)[i] == list[i].name + seq!['\t']
                + list[i].command + seq!['\t'] + st.collections[cid].name + seq!['\t'] + activity(
                st.active.contains_key(cid),
            ),
        forall|list: Seq<AliasInfo>| #[trigger]
            model::is_alias_list(list, st, Some(st.collections[cid].name)) ==> lines_in(r).len()
                == list.len(),
{
    reveal_strlit("\t");
    assert("\t"@ =~= seq!['\t']);
    let named = Some(st.collections[cid].name);
    effects::law_listing_is_owed(st, st.collections[cid].name);
    let list = lemma_listed(st, true, named, r);
    let lines = lines_in(r);
    effects::law_list_of_one(list, st, cid);
    assert forall|other: Seq<AliasInfo>, i: int|
        #[trigger] model::is_alias_list(other, st, Some(st.collections[cid].name)) && 0 <= i
            < other.len() implies #[trigger] lines[i] == other[i].name + seq!['\t']
        + other[i].command + seq!['\t'] + st.collections[cid].name + seq!['\t'] + activity(
        st.active.contains_key(cid),
    ) by {
        listing::law_alias_list_is_determined(list, other, st, named);
        assert(effects::shows(st, list[i]));
        assert(lines[i] == full_line(st, list[i]));
    }
    assert forall|other: Seq<AliasInfo>| #[trigger]
        model::is_alias_list(other, st, Some(st.collections[cid].name)) implies lines.len()
        == other.len() by {
        listing::law_alias_list_is_determined(list, other, st, named);
    }
}

/// Listing a collection that cannot be found fails, whether or not all is asked for.
pub proof fn law_listing_refuses(
    st: StoreState,
    all: bool,
    collection: Seq<char>,
    r: Result<Vec<String>, AliazError>,
)
    requires
        model::consistent(st),
        is_listing(st, all, Some(collection), r),
    ensures
        !names::valid_name(collection) ==> r is Err && r->Err_0@ == Failure::InvalidName(collection),
        names::valid_name(collection) && (forall|cid: Seq<char>| #[trigger]
            st.collections.contains_key(cid) && st.collections[cid].name == collection
                ==> st.collections[cid].deleted) ==> r is Err && r->Err_0@
            == Failure::CollectionNotFound(collection),
{
    effects::law_listing_is_owed(st, collection);
}

/// What a command reports begins with what it did and names the alias and the collections, the one
/// that the alias ends up in last.
pub proof fn law_lines_name_aliases(name: Seq<char>, a: Seq<char>, b: Seq<char>)
    ensures
        text::has_prefix(added_line(name, a), "Added "@ + name),
        text::has_prefix(deleted_line(name, a), "Deleted "@ + name),
        text::has_prefix(updated_line(name, a), "Updated "@ + name),
        text::has_prefix(moved_line(name, a, b), "Moved "@ + name),
        text::has_prefix(deactivated_line(a, true), "Deactivated "@ + a),
        text::has_prefix(deactivated_line(a, false), a + " is already inactive"@),
        exists|start: Seq<char>| added_line(name, a) == #[trigger] (start + a),
        exists|start: Seq<char>| deleted_line(name, a) == #[trigger] (start + a),
        exists|start: Seq<char>| updated_line(name, a) == #[trigger] (start + a),
        exists|start: Seq<char>| moved_line(name, a, b) == #[trigger] (start + (a + " to "@ + b)),
        deactivated_line(a, true).len() == 12 + a.len(),
{
    reveal_strlit("Deactivated ");
    let none = Seq::<char>::empty();
    assert(added_line(name, a) =~= ("Added "@ + name) + (" to "@ + a));
    assert(deleted_line(name, a) =~= ("Deleted "@ + name) + (" from "@ + a));
    assert(updated_line(name, a) =~= ("Updated "@ + name) + (" in "@ + a));
    assert(moved_line(name, a, b) =~= ("Moved "@ + name) + (" from "@ + a + " to "@ + b));
    assert(deactivated_line(a, true) =~= ("Deactivated "@ + a) + none);
    assert(deactivated_line(a, false) =~= (a + " is already inactive"@) + none);
    text::law_has_prefix(added_line(name, a), "Added "@ + name);
    text::law_has_prefix(deleted_line(name, a), "Deleted "@ + name);
    text::law_has_prefix(updated_line(name, a), "Updated "@ + name);
    text::law_has_prefix(moved_line(name, a, b), "Moved "@ + name);
    text::law_has_prefix(deactivated_line(a, true), "Deactivated "@ + a);
    text::law_has_prefix(deactivated_line(a, false), a + " is already inactive"@);
    assert(added_line(name, a) == ("Added "@ + name + " to "@) + a);
    assert(deleted_line(name, a) == ("Deleted "@ + name + " from "@) + a);
    assert(updated_line(name, a) == ("Updated "@ + name + " in "@) + a);
    assert(moved_line(name, a, b) =~= ("Moved "@ + name + " from "@) + (a + " to "@ + b));
}

} // verus!
