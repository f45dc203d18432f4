//! Files of exported aliases.

use vstd::prelude::*;

use crate::clock;
use crate::clock::Clock;
use crate::effects;
use crate::error;
use crate::error::{AliazError, Failure};
use crate::laws;
use crate::migration;
use crate::migration::random_uuids;
use crate::model;
use crate::model::{AliasInfo, AliasKey, CollectionInfo, StoreState};
use crate::names;
use crate::names::{default_collection_name, DEFAULT_COLLECTION_ID, DEFAULT_COLLECTION_NAME};
use crate::parse;
use crate::parse::parse_aliases;
use crate::rows;
use crate::store::listing;
use crate::store::Store;
use crate::text;

verus! {

/// An alias in a file.
#[derive(Debug)]
pub struct ExportAlias {
    pub name: String,
    pub command: String,
    pub collection: String,
}

/// A collection in a file.
#[derive(Debug)]
pub struct ExportCollection {
    pub name: String,
}

/// A file of exported aliases.
#[derive(Debug)]
pub struct ExportFile {
    pub version: u8,
    pub collections: Vec<ExportCollection>,
    pub aliases: Vec<ExportAlias>,
}

/// An alias in a file, as mathematics.
#[verifier::ext_equal]
pub struct Entry {
    pub name: Seq<char>,
    pub command: Seq<char>,
    pub collection: Seq<char>,
}

impl View for ExportAlias {
    type V = Entry;

    open spec fn view(&self) -> Entry {
        Entry { name: self.name@, command: self.command@, collection: self.collection@ }
    }
}

impl View for ExportCollection {
    type V = Seq<char>;

    open spec fn view(&self) -> Seq<char> {
        self.name@
    }
}

/// The alias of a file that names no collection is one of the shared collection.
pub fn export_alias(name: String, command: String, collection: Option<String>) -> (r: ExportAlias)
    ensures
        r.name == name,
        r.command == command,
        match collection {
            Some(c) => r.collection == c,
            None => r.collection@ == DEFAULT_COLLECTION_NAME@,
        },
{
    let collection = match collection {
        Some(collection) => collection,
        None => default_collection_name(),
    };
    ExportAlias { name, command, collection }
}

// ---------------------------------------------------------------------------
// Exporting
// ---------------------------------------------------------------------------
pub open spec fn collection_names(list: Seq<CollectionInfo>) -> Seq<Seq<char>> {
    list.map_values(|c: CollectionInfo| c.name)
}

pub open spec fn alias_entries(list: Seq<AliasInfo>) -> Seq<Entry> {
    list.map_values(
        |a: AliasInfo| Entry { name: a.name, command: a.command, collection: a.collection_name },
    )
}

/// The file holds all collections and all aliases that are not deleted.
pub open spec fn is_export(
    st: StoreState,
    version: u8,
    collections: Seq<Seq<char>>,
    aliases: Seq<Entry>,
) -> bool {
    &&& version == 2
    &&& exists|list: Seq<CollectionInfo>| #[trigger]
        model::is_collection_list(list, st) && collections == collection_names(list)
    &&& exists|list: Seq<AliasInfo>| #[trigger]
        model::is_alias_list(list, st, None) && aliases == alias_entries(list)
}

/// A file with all collections and all aliases that are not deleted.
pub fn export_file(store: &Store) -> (r: ExportFile)
    requires
        store.wf(),
    ensures
        is_export(store@, r.version, rows::recs(r.collections@), rows::recs(r.aliases@)),
{
    let collections = store.collections();
    let ghost cs = rows::recs(collections@);
    let mut names: Vec<ExportCollection> = Vec::new();
    for i in 0..collections.len()
        invariant
            cs == rows::recs(collections@),
            rows::recs(names@) =~= collection_names(cs).take(i as int),
    {
        let ghost before = rows::recs(names@);
        assert(cs[i as int] == collections@[i as int]@);
        names.push(ExportCollection { name: collections[i].name.clone() });
        assert(rows::recs(names@) =~= before.push(collections@[i as int].name@));
    }
    assert(rows::recs(names@) =~= collection_names(cs));
    let mut entries: Vec<ExportAlias> = Vec::new();
    if let Ok(aliases) = store.list_all(None) {
        let ghost list = rows::recs(aliases@);
        for i in 0..aliases.len()
            invariant
                list == rows::recs(aliases@),
                rows::recs(entries@) =~= alias_entries(list).take(i as int),
        {
            let ghost before = rows::recs(entries@);
            let alias = &aliases[i];
            assert(list[i as int] == alias@);
            entries.push(
                ExportAlias {
                    name: alias.name.clone(),
                    command: alias.command.clone(),
                    collection: alias.collection_name.clone(),
                },
            );
            assert(rows::recs(entries@) =~= before.push(alias_entries(list)[i as int]));
        }
        assert(rows::recs(entries@) =~= alias_entries(list));
    }
    ExportFile { version: 2, collections: names, aliases: entries }
}

// ---------------------------------------------------------------------------
// Importing
// ---------------------------------------------------------------------------
/// Creates collections one after the other, up to the first that fails.
pub open spec fn all_created(st: StoreState, names: Seq<Seq<char>>, now: Option<i64>) -> (
    StoreState,
    Result<(), Failure>,
)
    decreases names.len(),
{
    if names.len() == 0 {
        (st, Ok(()))
    } else {
        match all_created(st, names.drop_last(), now) {
            (mid, Err(f)) => (mid, Err(f)),
            (mid, Ok(())) => model::collection_created(mid, names.last(), now),
        }
    }
}

/// Puts aliases into their collections one after the other, up to the first that fails. Those that
/// are new get the given ids.
pub open spec fn all_upserted(
    st: StoreState,
    entries: Seq<Entry>,
    ids: Seq<Seq<char>>,
    now: Option<i64>,
) -> (StoreState, Result<(), Failure>)
    decreases entries.len(),
{
    if entries.len() == 0 {
        (st, Ok(()))
    } else {
        match all_upserted(st, entries.drop_last(), ids, now) {
            (mid, Err(f)) => (mid, Err(f)),
            (mid, Ok(())) => {
                let e = entries.last();
                model::alias_upserted(
                    mid,
                    e.collection,
                    e.name,
                    e.command,
                    ids[entries.len() - 1],
                    now,
                )
            },
        }
    }
}

/// Imports a file: the collections, where the version has any, then the aliases. The value is the
/// number of aliases.
pub open spec fn imported(
    st: StoreState,
    version: u8,
    collections: Seq<Seq<char>>,
    aliases: Seq<Entry>,
    ids: Seq<Seq<char>>,
    now: Option<i64>,
) -> (StoreState, Result<nat, Failure>) {
    if version != 1 && version != 2 {
        (st, Err(Failure::UnsupportedExportVersion(version)))
    } else {
        match (if version >= 2 {
            all_created(st, collections, now)
        } else {
            (st, Ok(()))
        }) {
            (mid, Err(f)) => (mid, Err(f)),
            (mid, Ok(())) => match all_upserted(mid, aliases, ids, now) {
                (after, Err(f)) => (after, Err(f)),
                (after, Ok(())) => (after, Ok(aliases.len())),
            },
        }
    }
}

proof fn lemma_created_fails(st: StoreState, names: Seq<Seq<char>>, now: Option<i64>, n: int)
    requires
        0 <= n <= names.len(),
        all_created(st, names.take(n), now).1 is Err,
    ensures
        all_created(st, names, now) == all_created(st, names.take(n), now),
    decreases names.len(),
{
    if n == names.len() {
        assert(names.take(n) =~= names);
    } else {
        assert(names.drop_last().take(n) =~= names.take(n));
        lemma_created_fails(st, names.drop_last(), now, n);
    }
}

proof fn lemma_upserted_fails(
    st: StoreState,
    entries: Seq<Entry>,
    ids: Seq<Seq<char>>,
    now: Option<i64>,
    n: int,
)
    requires
        0 <= n <= entries.len(),
        all_upserted(st, entries.take(n), ids, now).1 is Err,
    ensures
        all_upserted(st, entries, ids, now) == all_upserted(st, entries.take(n), ids, now),
    decreases entries.len(),
{
    if n == entries.len() {
        assert(entries.take(n) =~= entries);
    } else {
        assert(entries.drop_last().take(n) =~= entries.take(n));
        lemma_upserted_fails(st, entries.drop_last(), ids, now, n);
    }
}

/// A count, or why there is none.
pub open spec fn seen_count(r: Result<usize, AliazError>) -> Result<nat, Failure> {
    match r {
        Ok(n) => Ok(n as nat),
        Err(e) => Err(e@),
    }
}

/// Creates collections one after the other.
pub fn create_collections(store: &mut Store, names: &Vec<String>, clock: &Clock) -> (r: Result<
    (),
    AliazError,
>)
    requires
        old(store).wf(),
    ensures
        final(store).wf(),
        (final(store)@, error::seen(r)) == all_created(
            old(store)@,
            text::texts(names@),
            clock::time_of(*clock),
        ),
{
    let ghost start = store@;
    let ghost all = text::texts(names@);
    let ghost now = clock::time_of(*clock);
    assert(all.take(0) =~= Seq::<Seq<char>>::empty());
    for i in 0..names.len()
        invariant
            store.wf(),
            start == old(store)@,
            all == text::texts(names@),
            now == clock::time_of(*clock),
            all_created(start, all.take(i as int), now) == (store@, Ok::<(), Failure>(())),
    {
        assert(all.take(i + 1).drop_last() =~= all.take(i as int));
        assert(all.take(i + 1).last() == names@[i as int]@);
        if let Err(e) = store.create_collection(names[i].as_str(), clock) {
            proof {
                lemma_created_fails(start, all, now, i + 1);
            }
            return Err(e);
        }
    }
    assert(all.take(all.len() as int) =~= all);
    Ok(())
}

/// Puts aliases into their collections one after the other. Those that are new get the given ids.
pub fn upsert_all_with_ids(
    store: &mut Store,
    entries: &Vec<ExportAlias>,
    ids: &Vec<String>,
    clock: &Clock,
) -> (r: Result<(), AliazError>)
    requires
        old(store).wf(),
        ids@.len() == entries@.len(),
    ensures
        final(store).wf(),
        (final(store)@, error::seen(r)) == all_upserted(
            old(store)@,
            rows::recs(entries@),
            text::texts(ids@),
            clock::time_of(*clock),
        ),
{
    let ghost start = store@;
    let ghost all = rows::recs(entries@);
    let ghost fresh = text::texts(ids@);
    let ghost now = clock::time_of(*clock);
    assert(all.take(0) =~= Seq::<Entry>::empty());
    for i in 0..entries.len()
        invariant
            store.wf(),
            start == old(store)@,
            all == rows::recs(entries@),
            fresh == text::texts(ids@),
            ids@.len() == entries@.len(),
            now == clock::time_of(*clock),
            all_upserted(start, all.take(i as int), fresh, now) == (store@, Ok::<(), Failure>(())),
    {
        assert(all.take(i + 1).drop_last() =~= all.take(i as int));
        assert(all.take(i + 1).last() == entries@[i as int]@);
        assert(fresh[i as int] == ids@[i as int]@);
        let entry = &entries[i];
        if let Err(e) = store.upsert_with_id(
            entry.collection.as_str(),
            entry.name.as_str(),
            entry.command.as_str(),
            ids[i].clone(),
            clock,
        ) {
            proof {
                lemma_upserted_fails(start, all, fresh, now, i + 1);
            }
            return Err(e);
        }
    }
    assert(all.take(all.len() as int) =~= all);
    Ok(())
}

/// Imports a file. Aliases that are new get the given ids. Returns the number of aliases.
pub fn import_file_with_ids(
    store: &mut Store,
    file: &ExportFile,
    ids: &Vec<String>,
    clock: &Clock,
) -> (r: Result<usize, AliazError>)
    requires
        old(store).wf(),
        ids@.len() == file.aliases@.len(),
    ensures
        final(store).wf(),
        (final(store)@, seen_count(r)) == imported(
            old(store)@,
            file.version,
            rows::recs(file.collections@),
            rows::recs(file.aliases@),
            text::texts(ids@),
            clock::time_of(*clock),
        ),
{
    if file.version != 1 && file.version != 2 {
        return Err(AliazError::UnsupportedExportVersion(file.version));
    }
    if file.version >= 2 {
        let mut names: Vec<String> = Vec::new();
        for i in 0..file.collections.len()
            invariant
                text::texts(names@) =~= rows::recs(file.collections@).take(i as int),
        {
            let ghost before = text::texts(names@);
            names.push(file.collections[i].name.clone());
            assert(text::texts(names@) =~= before.push(rows::recs(file.collections@)[i as int]));
        }
        assert(text::texts(names@) =~= rows::recs(file.collections@));
        if let Err(e) = create_collections(store, &names, clock) {
            return Err(e);
        }
    }
    match upsert_all_with_ids(store, &file.aliases, ids, clock) {
        Ok(()) => Ok(file.aliases.len()),
        Err(e) => Err(e),
    }
}

/// Imports a file. Aliases that are new get random ids. Returns the number of aliases.
pub fn import_file(store: &mut Store, file: &ExportFile, clock: &Clock) -> (r: Result<
    usize,
    AliazError,
>)
    requires
        old(store).wf(),
    ensures
        final(store).wf(),
        exists|ids: Seq<Seq<char>>| #[trigger]
            migration::all_random(ids) && ids.len() == file.aliases@.len() && (
                final(store)@,
                seen_count(r),
            ) == imported(
                old(store)@,
                file.version,
                rows::recs(file.collections@),
                rows::recs(file.aliases@),
                ids,
                clock::time_of(*clock),
            ),
{
    let ids = random_uuids(file.aliases.len());
    import_file_with_ids(store, file, &ids, clock)
}

/// The aliases of a startup file, as aliases of the shared collection.
pub open spec fn shared_entries(pairs: Seq<parse::Pair>) -> Seq<Entry> {
    pairs.map_values(
        |p: parse::Pair|
            Entry { name: p.0, command: p.1, collection: DEFAULT_COLLECTION_NAME@ },
    )
}

/// Puts the aliases of a startup file into the shared collection. The value is their number.
pub open spec fn pairs_imported(
    st: StoreState,
    pairs: Seq<parse::Pair>,
    ids: Seq<Seq<char>>,
    now: Option<i64>,
) -> (StoreState, Result<nat, Failure>) {
    match all_upserted(st, shared_entries(pairs), ids, now) {
        (after, Ok(())) => (after, Ok(pairs.len())),
        (after, Err(f)) => (after, Err(f)),
    }
}

/// Imports the aliases of a startup file into the shared collection. Returns their number.
pub fn import_startup_file(store: &mut Store, contents: &str, clock: &Clock) -> (r: Result<
    usize,
    AliazError,
>)
    requires
        old(store).wf(),
    ensures
        final(store).wf(),
        match parse::pairs_in_lines(text::lines_of(contents@), clock::time_of(*clock)) {
            Err(f) => r matches Err(e) && e@ == f && final(store)@ == old(store)@,
            Ok(pairs) => exists|ids: Seq<Seq<char>>| #[trigger]
                migration::all_random(ids) && ids.len() == pairs.len() && (
                    final(store)@,
                    seen_count(r),
                ) == pairs_imported(old(store)@, pairs, ids, clock::time_of(*clock)),
        },
{
    let aliases = match parse_aliases(contents, clock) {
        Ok(aliases) => aliases,
        Err(e) => {
            return Err(e);
        },
    };
    let ghost pairs = parse::pairs_in_lines(text::lines_of(contents@), clock::time_of(*clock))->Ok_0;
    let ghost want = shared_entries(pairs);
    let mut entries: Vec<ExportAlias> = Vec::new();
    for i in 0..aliases.len()
        invariant
            parse::are_new_aliases(rows::recs(aliases@), pairs, clock::time_of(*clock)),
            want == shared_entries(pairs),
            rows::recs(entries@) =~= want.take(i as int),
    {
        let ghost before = rows::recs(entries@);
        let alias = &aliases[i];
        proof {
            let list = rows::recs(aliases@);
            assert(list[i as int] == alias@);
            assert(parse::is_new_alias(list[i as int], pairs[i as int], clock::time_of(*clock)));
        }
        entries.push(
            ExportAlias {
                name: alias.name.clone(),
                command: alias.command.clone(),
                collection: alias.collection_name.clone(),
            },
        );
        assert(rows::recs(entries@) =~= before.push(want[i as int]));
        assert(want.take(i + 1) =~= want.take(i as int).push(want[i as int]));
    }
    assert(want.take(want.len() as int) =~= want);
    let ids = random_uuids(entries.len());
    let count = entries.len();
    match upsert_all_with_ids(store, &entries, &ids, clock) {
        Ok(()) => Ok(count),
        Err(e) => Err(e),
    }
}

// ---------------------------------------------------------------------------
// What an import brings
// ---------------------------------------------------------------------------
/// The command of every alias that is not deleted, by the name of its collection and its own.
pub open spec fn published(st: StoreState) -> Map<(Seq<char>, Seq<char>), Seq<char>> {
    Map::new(
        |p: (Seq<char>, Seq<char>)|
            match model::id_of_name(st, p.0) {
                Some(id) => model::holds(st, id, p.1),
                None => false,
            },
        |p: (Seq<char>, Seq<char>)|
            st.aliases[(model::id_of_name(st, p.0).unwrap(), p.1)].command,
    )
}

/// Putting an alias into a collection publishes its command there, and nothing else.
proof fn lemma_upsert_publishes(
    st: StoreState,
    collection: Seq<char>,
    name: Seq<char>,
    command: Seq<char>,
    id: Seq<char>,
    now: Option<i64>,
)
    requires
        model::consistent(st),
        model::alias_upserted(st, collection, name, command, id, now).1 is Ok,
    ensures
        published(model::alias_upserted(st, collection, name, command, id, now).0) == published(
            st,
        ).insert((collection, name), command),
{
    laws::law_upserted_is_there(st, collection, name, command, id, now);
    let after = model::alias_upserted(st, collection, name, command, id, now).0;
    let cid = model::collection_named(st, collection)->Ok_0;
    assert(model::has_name(st, cid, collection));
    let left = published(after);
    let right = published(st).insert((collection, name), command);
    assert forall|p: (Seq<char>, Seq<char>)|
        #![trigger left.contains_key(p)]
        #![trigger right.contains_key(p)]
        #![trigger left[p]]
        left.contains_key(p) == right.contains_key(p) && (left.contains_key(p) ==> left[p]
            == right[p]) by {
        laws::lemma_same_collections(st, after, p.0);
        laws::lemma_same_collections(st, after, collection);
        if let Some(other) = model::id_of_name(st, p.0) {
            assert(model::has_name(st, other, p.0));
            if (other, p.1) != (cid, name) {
                assert(after.aliases.remove((cid, name)).contains_key((other, p.1))
                    == st.aliases.remove((cid, name)).contains_key((other, p.1)));
                if st.aliases.contains_key((other, p.1)) {
                    assert(after.aliases.remove((cid, name))[(other, p.1)] == st.aliases.remove(
                        (cid, name),
                    )[(other, p.1)]);
                }
                assert(p != (collection, name));
            } else {
                assert(p.0 == collection);
            }
        }
    }
    assert(left =~= right);
}

/// Some alias is in a collection of the given id.
spec fn holds_aliases(st: StoreState, id: Seq<char>) -> bool {
    exists|k: AliasKey| #[trigger] st.aliases.contains_key(k) && k.0 == id
}

/// Creating a collection keeps what is published, and brings back only what was in a deleted
/// collection of that name, or without one.
proof fn lemma_create_publishes(st: StoreState, name: Seq<char>, now: Option<i64>)
    requires
        model::consistent(st),
        model::collection_created(st, name, now).1 is Ok,
    ensures
        published(st).submap_of(published(model::collection_created(st, name, now).0)),
        model::collection_named(st, name) is Ok || (model::id_of_name(st, name) is None
            && !holds_aliases(st, names::id_for_name(name))) ==> published(
            model::collection_created(st, name, now).0,
        ) == published(st),
        forall|other: Seq<char>|
            model::collection_named(st, other) is Ok ==> #[trigger] model::collection_named(
                model::collection_created(st, name, now).0,
                other,
            ) is Ok,
        model::collection_named(model::collection_created(st, name, now).0, name) is Ok,
{
    let after = model::collection_created(st, name, now).0;
    laws::law_create_keeps_order(st, name, now);
    if name == DEFAULT_COLLECTION_NAME@ {
        laws::law_shared_ensured(st, now.unwrap());
        assert(after == st);
        rows::lemma_id_of_name(st, DEFAULT_COLLECTION_ID@);
    } else {
        let id = match model::id_of_name(st, name) {
            Some(id) => id,
            None => names::id_for_name(name),
        };
        if model::id_of_name(st, name) is Some {
            assert(model::has_name(st, id, name));
        }
        rows::lemma_id_of_name(after, id);
        assert forall|other: Seq<char>| other != name implies #[trigger] model::id_of_name(
            after,
            other,
        ) == model::id_of_name(st, other) by {
            match model::id_of_name(st, other) {
                Some(k) => {
                    assert(model::has_name(st, k, other));
                    assert(k != id);
                    rows::lemma_id_of_name(after, k);
                },
                None => {
                    if exists|k: Seq<char>| model::has_name(after, k, other) {
                        let k = choose|k: Seq<char>| model::has_name(after, k, other);
                        assert(model::has_name(st, k, other));
                    }
                },
            }
        }
        let old_map = published(st);
        let new_map = published(after);
        assert forall|p: (Seq<char>, Seq<char>)| old_map.contains_key(p) implies
            new_map.contains_key(p) && new_map[p] == old_map[p] by {
            let k = model::id_of_name(st, p.0).unwrap();
            assert(model::has_name(st, k, p.0));
        }
        assert forall|p: (Seq<char>, Seq<char>)|
            (model::collection_named(st, name) is Ok || (model::id_of_name(st, name) is None
                && !holds_aliases(st, id))) && new_map.contains_key(p) implies old_map.contains_key(p) by {
            let k = model::id_of_name(after, p.0).unwrap();
            assert(model::has_name(after, k, p.0));
            if p.0 == name && model::id_of_name(st, name) is None {
                assert(st.aliases.contains_key((k, p.1)));
            }
        }
        if model::collection_named(st, name) is Ok || (model::id_of_name(st, name) is None
            && !holds_aliases(st, id)) {
            assert(old_map =~= new_map);
        }
        assert forall|other: Seq<char>| model::collection_named(st, other) is Ok implies #[trigger]
            model::collection_named(after, other) is Ok by {
            let k = model::collection_named(st, other)->Ok_0;
            assert(model::has_name(st, k, other));
        }
    }
}

/// What the entries publish, later ones over earlier ones.
pub open spec fn entries_published(entries: Seq<Entry>) -> Map<(Seq<char>, Seq<char>), Seq<char>>
    decreases entries.len(),
{
    if entries.len() == 0 {
        Map::empty()
    } else {
        let e = entries.last();
        entries_published(entries.drop_last()).insert((e.collection, e.name), e.command)
    }
}

proof fn lemma_all_created(st: StoreState, collections: Seq<Seq<char>>, now: Option<i64>)
    requires
        model::consistent(st),
        all_created(st, collections, now).1 is Ok,
    ensures
        model::consistent(all_created(st, collections, now).0),
        published(st).submap_of(published(all_created(st, collections, now).0)),
    decreases collections.len(),
{
    if collections.len() > 0 {
        lemma_all_created(st, collections.drop_last(), now);
        let mid = all_created(st, collections.drop_last(), now).0;
        lemma_create_publishes(mid, collections.last(), now);
        laws::law_create_keeps_order(mid, collections.last(), now);
        let after = all_created(st, collections, now).0;
        assert forall|p: (Seq<char>, Seq<char>)| #[trigger]
            published(st).dom().contains(p) implies published(after).dom().contains(p)
            && published(after)[p] == published(st)[p] by {
            assert(published(mid).dom().contains(p));
        }
    }
}

proof fn lemma_all_upserted(
    st: StoreState,
    entries: Seq<Entry>,
    ids: Seq<Seq<char>>,
    now: Option<i64>,
)
    requires
        model::consistent(st),
        all_upserted(st, entries, ids, now).1 is Ok,
    ensures
        model::consistent(all_upserted(st, entries, ids, now).0),
        published(all_upserted(st, entries, ids, now).0) == published(st).union_prefer_right(
            entries_published(entries),
        ),
        all_upserted(st, entries, ids, now).0.collections == st.collections,
    decreases entries.len(),
{
    if entries.len() > 0 {
        let before = entries.drop_last();
        lemma_all_upserted(st, before, ids, now);
        let mid = all_upserted(st, before, ids, now).0;
        let e = entries.last();
        let id = ids[entries.len() - 1];
        lemma_upsert_publishes(mid, e.collection, e.name, e.command, id, now);
        laws::law_upsert_keeps_order(mid, e.collection, e.name, e.command, id, now);
        laws::law_upserted_is_there(mid, e.collection, e.name, e.command, id, now);
        assert(published(st).union_prefer_right(entries_published(before)).insert(
            (e.collection, e.name),
            e.command,
        ) =~= published(st).union_prefer_right(entries_published(entries)));
    } else {
        assert(published(st).union_prefer_right(Map::empty()) =~= published(st));
    }
}

/// Every alias in an imported file is there afterwards, with its command: an alias of the same
/// collection and name is updated. All other aliases are kept.
pub proof fn law_import_brings_aliases(
    st: StoreState,
    version: u8,
    collections: Seq<Seq<char>>,
    aliases: Seq<Entry>,
    ids: Seq<Seq<char>>,
    now: Option<i64>,
)
    requires
        model::consistent(st),
        imported(st, version, collections, aliases, ids, now).1 is Ok,
    ensures
        published(st).union_prefer_right(entries_published(aliases)).submap_of(
            published(imported(st, version, collections, aliases, ids, now).0),
        ),
        model::consistent(imported(st, version, collections, aliases, ids, now).0),
{
    let mid = if version >= 2 {
        all_created(st, collections, now).0
    } else {
        st
    };
    if version >= 2 {
        lemma_all_created(st, collections, now);
    }
    lemma_all_upserted(mid, aliases, ids, now);
    let after = imported(st, version, collections, aliases, ids, now).0;
    let want = published(st).union_prefer_right(entries_published(aliases));
    assert forall|p: (Seq<char>, Seq<char>)| #[trigger] want.contains_key(p) implies published(
        after,
    ).contains_key(p) && published(after)[p] == want[p] by {
        if !entries_published(aliases).contains_key(p) {
            assert(published(st).contains_key(p));
            assert(published(mid).contains_key(p));
        }
    }
}

// ---------------------------------------------------------------------------
// Exporting and importing
// ---------------------------------------------------------------------------
/// A store as it is when nothing was done to it: the shared collection, and no aliases.
pub open spec fn is_fresh(st: StoreState) -> bool {
    &&& model::consistent(st)
    &&& st.collections.dom() == set![DEFAULT_COLLECTION_ID@]
    &&& st.aliases.dom() == Set::<AliasKey>::empty()
}

/// Every collection has the id that its name gives it, and none is deleted.
spec fn plain_collections(st: StoreState) -> bool {
    forall|id: Seq<char>| #[trigger]
        st.collections.contains_key(id) ==> id == names::id_for_name(st.collections[id].name)
            && !st.collections[id].deleted && names::valid_name(st.collections[id].name)
}

spec fn knows(st: StoreState, name: Seq<char>) -> bool {
    model::collection_named(st, name) is Ok
}

proof fn lemma_create_plain(st: StoreState, name: Seq<char>, now: Option<i64>)
    requires
        model::consistent(st),
        plain_collections(st),
        names::valid_name(name),
        now is Some,
    ensures
        model::collection_created(st, name, now).1 is Ok,
        model::consistent(model::collection_created(st, name, now).0),
        plain_collections(model::collection_created(st, name, now).0),
        model::collection_created(st, name, now).0.aliases == st.aliases,
        forall|n: Seq<char>| #[trigger]
            knows(model::collection_created(st, name, now).0, n) == (knows(st, n) || n == name),
{
    laws::law_create_keeps_order(st, name, now);
    let after = model::collection_created(st, name, now).0;
    if name == DEFAULT_COLLECTION_NAME@ {
        laws::law_shared_ensured(st, now.unwrap());
        rows::lemma_id_of_name(st, DEFAULT_COLLECTION_ID@);
        assert(knows(st, name));
    } else {
        let new_id = names::id_for_name(name);
        if model::id_of_name(st, name) is None && st.collections.contains_key(new_id) {
            names::lemma_ids_differ(name, st.collections[new_id].name);
            assert(model::has_name(st, new_id, name));
        }
        if let Some(id) = model::id_of_name(st, name) {
            assert(model::has_name(st, id, name));
        }
        lemma_create_publishes(st, name, now);
        assert forall|n: Seq<char>| #[trigger] knows(after, n) implies knows(st, n) || n
            == name by {
            let k = model::collection_named(after, n)->Ok_0;
            assert(model::has_name(after, k, n));
            if n != name {
                assert(model::has_name(st, k, n));
                rows::lemma_id_of_name(st, k);
            }
        }
    }
}

proof fn lemma_all_created_plain(st: StoreState, collections: Seq<Seq<char>>, now: Option<i64>)
    requires
        model::consistent(st),
        plain_collections(st),
        forall|i: int| 0 <= i < collections.len() ==> names::valid_name(#[trigger] collections[i]),
        now is Some,
    ensures
        all_created(st, collections, now).1 is Ok,
        model::consistent(all_created(st, collections, now).0),
        plain_collections(all_created(st, collections, now).0),
        all_created(st, collections, now).0.aliases == st.aliases,
        forall|n: Seq<char>| #[trigger]
            knows(all_created(st, collections, now).0, n) == (knows(st, n)
                || collections.contains(n)),
    decreases collections.len(),
{
    if collections.len() > 0 {
        let before = collections.drop_last();
        assert forall|i: int| 0 <= i < before.len() implies names::valid_name(
            #[trigger] before[i],
        ) by {
            assert(before[i] == collections[i]);
        }
        lemma_all_created_plain(st, before, now);
        let mid = all_created(st, before, now).0;
        assert(collections[collections.len() - 1] == collections.last());
        lemma_create_plain(mid, collections.last(), now);
        let after = all_created(st, collections, now).0;
        assert forall|n: Seq<char>| #[trigger] knows(after, n) == (knows(st, n)
            || collections.contains(n)) by {
            assert(knows(after, n) == (knows(mid, n) || n == collections.last()));
            if collections.contains(n) {
                let k = collections.index_of(n);
                if k < before.len() {
                    assert(before[k] == n);
                }
            }
            if before.contains(n) {
                let k = before.index_of(n);
                assert(collections[k] == n);
            }
        }
    }
}

proof fn lemma_all_upserted_fresh(
    st: StoreState,
    entries: Seq<Entry>,
    ids: Seq<Seq<char>>,
    now: Option<i64>,
)
    requires
        model::consistent(st),
        st.aliases.dom() == Set::<AliasKey>::empty(),
        forall|i: int|
            0 <= i < entries.len() ==> names::valid_name((#[trigger] entries[i]).name) && knows(
                st,
                entries[i].collection,
            ),
        ids.no_duplicates(),
        entries.len() <= ids.len(),
        now is Some,
    ensures
        all_upserted(st, entries, ids, now).1 is Ok,
        forall|k: AliasKey| #[trigger]
            all_upserted(st, entries, ids, now).0.aliases.contains_key(k) ==> exists|i: int|
                0 <= i < entries.len() && ids[i] == all_upserted(
                    st,
                    entries,
                    ids,
                    now,
                ).0.aliases[k].id,
    decreases entries.len(),
{
    if entries.len() > 0 {
        let before = entries.drop_last();
        assert forall|i: int| 0 <= i < before.len() implies names::valid_name(
            (#[trigger] before[i]).name,
        ) && knows(st, before[i].collection) by {
            assert(before[i] == entries[i]);
        }
        lemma_all_upserted_fresh(st, before, ids, now);
        lemma_all_upserted(st, before, ids, now);
        let mid = all_upserted(st, before, ids, now).0;
        let e = entries.last();
        let n = entries.len() - 1;
        assert(entries[n] == e);
        laws::lemma_same_collections(st, mid, e.collection);
        let id = ids[n];
        assert(!model::alias_id_taken(mid, id)) by {
            if model::alias_id_taken(mid, id) {
                let k = choose|k: AliasKey| #[trigger]
                    mid.aliases.contains_key(k) && mid.aliases[k].id == id;
                let i = choose|i: int| 0 <= i < before.len() && ids[i] == mid.aliases[k].id;
                assert(ids[i] == ids[n] && i != n);
            }
        }
        let after = all_upserted(st, entries, ids, now).0;
        let cid = model::collection_named(mid, e.collection)->Ok_0;
        assert forall|k: AliasKey| #[trigger] after.aliases.contains_key(k) implies exists|i: int|
            0 <= i < entries.len() && ids[i] == after.aliases[k].id by {
            if k == (cid, e.name) && !mid.aliases.contains_key(k) {
                assert(after.aliases[k].id == ids[n]);
            } else {
                assert(mid.aliases.contains_key(k));
                assert(model::keys_agree(mid));
                let i = choose|i: int| 0 <= i < before.len() && ids[i] == mid.aliases[k].id;
                assert(0 <= i < entries.len() && ids[i] == after.aliases[k].id);
            }
        }
    }
}

spec fn entry_key(e: Entry) -> (Seq<char>, Seq<char>) {
    (e.collection, e.name)
}

/// Entries with keys of their own publish each its command.
proof fn lemma_distinct_entries(entries: Seq<Entry>)
    requires
        forall|i: int, j: int|
            0 <= i < j < entries.len() ==> entry_key(#[trigger] entries[i]) != entry_key(
                #[trigger] entries[j],
            ),
    ensures
        forall|i: int|
            0 <= i < entries.len() ==> entries_published(entries).contains_key(
                entry_key(#[trigger] entries[i]),
            ) && entries_published(entries)[entry_key(entries[i])] == entries[i].command,
        forall|p: (Seq<char>, Seq<char>)| #[trigger]
            entries_published(entries).contains_key(p) ==> exists|i: int|
                0 <= i < entries.len() && entry_key(#[trigger] entries[i]) == p,
    decreases entries.len(),
{
    if entries.len() > 0 {
        let before = entries.drop_last();
        assert forall|i: int, j: int| 0 <= i < j < before.len() implies entry_key(
            #[trigger] before[i],
        ) != entry_key(#[trigger] before[j]) by {
            assert(before[i] == entries[i] && before[j] == entries[j]);
        }
        lemma_distinct_entries(before);
        let n = entries.len() - 1;
        let all = entries_published(entries);
        assert forall|i: int| 0 <= i < entries.len() implies all.contains_key(
            entry_key(#[trigger] entries[i]),
        ) && all[entry_key(entries[i])] == entries[i].command by {
            if i < n {
                assert(before[i] == entries[i]);
                assert(entry_key(entries[i]) != entry_key(entries[n]));
            }
        }
        assert forall|p: (Seq<char>, Seq<char>)| #[trigger] all.contains_key(p) implies exists|
            i: int,
        | 0 <= i < entries.len() && entry_key(#[trigger] entries[i]) == p by {
            if p == entry_key(entries[n]) {
            } else {
                assert(entries_published(before).contains_key(p));
                let i = choose|i: int|
                    0 <= i < before.len() && entry_key(#[trigger] before[i]) == p;
                assert(before[i] == entries[i]);
            }
        }
    }
}

/// An export publishes what the store publishes.
proof fn lemma_export_publishes(st: StoreState, list: Seq<AliasInfo>)
    requires
        model::consistent(st),
        model::is_alias_list(list, st, None),
    ensures
        entries_published(alias_entries(list)) == published(st),
{
    let entries = alias_entries(list);
    let keys = model::live_keys(st);
    assert forall|i: int| 0 <= i < list.len() implies {
        let a = #[trigger] list[i];
        &&& model::holds(st, a.collection_id, a.name)
        &&& st.collections[a.collection_id].name == a.collection_name
        &&& st.aliases[(a.collection_id, a.name)].command == a.command
        &&& model::id_of_name(st, a.collection_name) == Some(a.collection_id)
    } by {
        let a = list[i];
        assert(keys.contains((a.collection_id, a.name)));
        rows::lemma_id_of_name(st, a.collection_id);
    }
    assert forall|i: int, j: int| 0 <= i < j < entries.len() implies entry_key(
        #[trigger] entries[i],
    ) != entry_key(#[trigger] entries[j]) by {
        assert(list[i] != list[j]);
        if entry_key(entries[i]) == entry_key(entries[j]) {
            assert(list[i].collection_id == list[j].collection_id);
            assert(list[i] == list[j]);
        }
    }
    lemma_distinct_entries(entries);
    let left = entries_published(entries);
    let right = published(st);
    assert forall|p: (Seq<char>, Seq<char>)|
        #![trigger left.contains_key(p)]
        #![trigger right.contains_key(p)]
        #![trigger left[p]]
        left.contains_key(p) == right.contains_key(p) && (left.contains_key(p) ==> left[p]
            == right[p]) by {
        if left.contains_key(p) {
            let i = choose|i: int| 0 <= i < entries.len() && entry_key(#[trigger] entries[i]) == p;
            let a = list[i];
            assert(entries[i].collection == a.collection_name && entries[i].name == a.name);
            assert(left[p] == a.command);
        }
        if right.contains_key(p) {
            let id = model::id_of_name(st, p.0).unwrap();
            assert(model::has_name(st, id, p.0));
            assert(keys.contains((id, p.1)));
            let info = model::alias_info(st, (id, p.1));
            let i = list.index_of(info);
            assert(list[i] == info);
            assert(st.aliases.contains_key((id, p.1)));
            assert(entry_key(entries[i]) == p);
        }
    }
    assert(left =~= right);
}

/// Importing an export into a fresh store succeeds, and gives the same collections and the same
/// aliases with the same commands.
pub proof fn law_export_and_import(
    source: StoreState,
    target: StoreState,
    collections: Seq<Seq<char>>,
    aliases: Seq<Entry>,
    ids: Seq<Seq<char>>,
    now: Option<i64>,
)
    requires
        model::consistent(source),
        model::names_valid(source),
        is_export(source, 2, collections, aliases),
        is_fresh(target),
        ids.no_duplicates(),
        ids.len() == aliases.len(),
        now is Some,
    ensures
        imported(target, 2, collections, aliases, ids, now).1 == Ok::<nat, Failure>(aliases.len()),
        published(imported(target, 2, collections, aliases, ids, now).0) == published(source),
        forall|name: Seq<char>|
            model::collection_named(
                imported(target, 2, collections, aliases, ids, now).0,
                name,
            ) is Ok <==> #[trigger] model::collection_named(source, name) is Ok,
{
    let cs = choose|list: Seq<CollectionInfo>| #[trigger]
        model::is_collection_list(list, source) && collections == collection_names(list);
    let list = choose|list: Seq<AliasInfo>| #[trigger]
        model::is_alias_list(list, source, None) && aliases == alias_entries(list);
    let shared = DEFAULT_COLLECTION_NAME@;
    names::lemma_shared_is_valid();
    assert(plain_collections(target)) by {
        assert forall|id: Seq<char>| #[trigger] target.collections.contains_key(id) implies id
            == names::id_for_name(target.collections[id].name) && !target.collections[id].deleted
            && names::valid_name(target.collections[id].name) by {
            assert(target.collections.dom().contains(id));
        }
    }
    // The collections of the export are those that the source knows.
    assert forall|n: Seq<char>| #[trigger] collections.contains(n) == knows(source, n) by {
        if collections.contains(n) {
            let k = collections.index_of(n);
            assert(collections[k] == cs[k].name);
            assert(model::live_ids(source).contains(cs[k].id));
            rows::lemma_id_of_name(source, cs[k].id);
        }
        if knows(source, n) {
            let id = model::collection_named(source, n)->Ok_0;
            assert(model::has_name(source, id, n));
            assert(model::live_ids(source).contains(id));
            let info = model::collection_info(source, id);
            let k = cs.index_of(info);
            assert(cs[k] == info);
            assert(collections[k] == n);
        }
    }
    assert forall|i: int| 0 <= i < collections.len() implies names::valid_name(
        #[trigger] collections[i],
    ) by {
        assert(collections.contains(collections[i]));
        assert(knows(source, collections[i]));
    }
    lemma_all_created_plain(target, collections, now);
    let mid = all_created(target, collections, now).0;
    assert(knows(source, shared)) by {
        rows::lemma_id_of_name(source, DEFAULT_COLLECTION_ID@);
    }
    assert forall|n: Seq<char>| knows(mid, n) == #[trigger] knows(source, n) by {
        if knows(target, n) {
            let id = model::collection_named(target, n)->Ok_0;
            assert(model::has_name(target, id, n));
            assert(target.collections.dom().contains(id));
            assert(n == shared);
        }
        assert(collections.contains(n) == knows(source, n));
    }
    assert forall|i: int| 0 <= i < aliases.len() implies names::valid_name(
        (#[trigger] aliases[i]).name,
    ) && knows(mid, aliases[i].collection) by {
        let a = list[i];
        assert(model::live_keys(source).contains((a.collection_id, a.name)));
        assert(source.aliases.contains_key((a.collection_id, a.name)));
        assert(source.collections.contains_key(a.collection_id));
        rows::lemma_id_of_name(source, a.collection_id);
        assert(knows(source, a.collection_name));
    }
    assert(mid.aliases.dom() =~= Set::<AliasKey>::empty());
    lemma_all_upserted_fresh(mid, aliases, ids, now);
    lemma_all_upserted(mid, aliases, ids, now);
    lemma_export_publishes(source, list);
    let after = imported(target, 2, collections, aliases, ids, now).0;
    assert(published(mid) =~= Map::<(Seq<char>, Seq<char>), Seq<char>>::empty()) by {
        assert forall|p: (Seq<char>, Seq<char>)| !published(mid).contains_key(p) by {
            if let Some(id) = model::id_of_name(mid, p.0) {
                assert(!mid.aliases.dom().contains((id, p.1)));
            }
        }
    }
    assert(published(after) =~= published(source));
    assert forall|name: Seq<char>|
        model::collection_named(after, name) is Ok <==> #[trigger] model::collection_named(
            source,
            name,
        ) is Ok by {
        laws::lemma_same_collections(mid, after, name);
        assert(knows(mid, name) == knows(source, name));
    }
}

/// The store determines its export.
pub proof fn law_export_is_determined(
    st: StoreState,
    version: u8,
    collections: Seq<Seq<char>>,
    aliases: Seq<Entry>,
    other_version: u8,
    other_collections: Seq<Seq<char>>,
    other_aliases: Seq<Entry>,
)
    requires
        model::consistent(st),
        is_export(st, version, collections, aliases),
        is_export(st, other_version, other_collections, other_aliases),
    ensures
        version == other_version,
        collections == other_collections,
        aliases == other_aliases,
{
    let c1 = choose|list: Seq<CollectionInfo>| #[trigger]
        model::is_collection_list(list, st) && collections == collection_names(list);
    let c2 = choose|list: Seq<CollectionInfo>| #[trigger]
        model::is_collection_list(list, st) && other_collections == collection_names(list);
    listing::law_collection_list_is_determined(c1, c2, st);
    let a1 = choose|list: Seq<AliasInfo>| #[trigger]
        model::is_alias_list(list, st, None) && aliases == alias_entries(list);
    let a2 = choose|list: Seq<AliasInfo>| #[trigger]
        model::is_alias_list(list, st, None) && other_aliases == alias_entries(list);
    listing::law_alias_list_is_determined(a1, a2, st, None);
}

proof fn lemma_all_created_known(st: StoreState, collections: Seq<Seq<char>>, now: Option<i64>)
    requires
        model::consistent(st),
        forall|i: int| 0 <= i < collections.len() ==> knows(st, #[trigger] collections[i]),
        now is Some,
    ensures
        all_created(st, collections, now).1 is Ok,
        model::consistent(all_created(st, collections, now).0),
        published(all_created(st, collections, now).0) == published(st),
        all_created(st, collections, now).0.aliases == st.aliases,
        forall|n: Seq<char>| knows(st, n) ==> #[trigger] knows(
            all_created(st, collections, now).0,
            n,
        ),
        forall|n: Seq<char>|
            model::id_of_name(st, n) is Some ==> #[trigger] model::id_of_name(
                all_created(st, collections, now).0,
                n,
            ) == model::id_of_name(st, n),
    decreases collections.len(),
{
    if collections.len() > 0 {
        let before = collections.drop_last();
        assert forall|i: int| 0 <= i < before.len() implies knows(st, #[trigger] before[i]) by {
            assert(before[i] == collections[i]);
        }
        lemma_all_created_known(st, before, now);
        let mid = all_created(st, before, now).0;
        let name = collections.last();
        assert(collections[collections.len() - 1] == name);
        assert(knows(mid, name));
        if name == DEFAULT_COLLECTION_NAME@ {
            laws::law_shared_ensured(mid, now.unwrap());
        }
        lemma_create_publishes(mid, name, now);
        laws::law_create_keeps_order(mid, name, now);
        let after = all_created(st, collections, now).0;
        assert forall|n: Seq<char>| knows(st, n) implies #[trigger] knows(after, n) by {
            assert(knows(mid, n));
            assert(model::collection_named(mid, n) is Ok);
        }
        assert forall|n: Seq<char>| model::id_of_name(st, n) is Some implies #[trigger]
            model::id_of_name(after, n) == model::id_of_name(st, n) by {
            assert(model::id_of_name(mid, n) == model::id_of_name(st, n));
            let id = model::id_of_name(mid, n).unwrap();
            assert(model::has_name(mid, id, n));
            assert(after.collections.contains_key(id) && after.collections[id].name == n);
            rows::lemma_id_of_name(after, id);
        }
    }
}

proof fn lemma_all_upserted_known(
    st: StoreState,
    entries: Seq<Entry>,
    ids: Seq<Seq<char>>,
    now: Option<i64>,
)
    requires
        model::consistent(st),
        forall|i: int|
            0 <= i < entries.len() ==> names::valid_name((#[trigger] entries[i]).name) && knows(
                st,
                entries[i].collection,
            ) && st.aliases.contains_key(
                (model::collection_named(st, entries[i].collection)->Ok_0, entries[i].name),
            ),
        now is Some,
    ensures
        all_upserted(st, entries, ids, now).1 is Ok,
        all_upserted(st, entries, ids, now).0.aliases.dom() == st.aliases.dom(),
    decreases entries.len(),
{
    if entries.len() > 0 {
        let before = entries.drop_last();
        assert forall|i: int| 0 <= i < before.len() implies names::valid_name(
            (#[trigger] before[i]).name,
        ) && knows(st, before[i].collection) && st.aliases.contains_key(
            (model::collection_named(st, before[i].collection)->Ok_0, before[i].name),
        ) by {
            assert(before[i] == entries[i]);
        }
        lemma_all_upserted_known(st, before, ids, now);
        lemma_all_upserted(st, before, ids, now);
        let mid = all_upserted(st, before, ids, now).0;
        let e = entries.last();
        assert(entries[entries.len() - 1] == e);
        laws::lemma_same_collections(st, mid, e.collection);
        let key = (model::collection_named(mid, e.collection)->Ok_0, e.name);
        assert(mid.aliases.dom().contains(key));
        assert(model::keys_agree(mid));
        assert(all_upserted(st, entries, ids, now).0.aliases.dom() =~= st.aliases.dom());
    }
}

/// Importing an export into the store that it came from succeeds and changes no command.
pub proof fn law_import_of_own_export(
    st: StoreState,
    collections: Seq<Seq<char>>,
    aliases: Seq<Entry>,
    ids: Seq<Seq<char>>,
    now: Option<i64>,
)
    requires
        model::consistent(st),
        model::names_valid(st),
        is_export(st, 2, collections, aliases),
        now is Some,
    ensures
        imported(st, 2, collections, aliases, ids, now).1 == Ok::<nat, Failure>(aliases.len()),
        published(imported(st, 2, collections, aliases, ids, now).0) == published(st),
{
    let cs = choose|list: Seq<CollectionInfo>| #[trigger]
        model::is_collection_list(list, st) && collections == collection_names(list);
    let list = choose|list: Seq<AliasInfo>| #[trigger]
        model::is_alias_list(list, st, None) && aliases == alias_entries(list);
    assert forall|i: int| 0 <= i < collections.len() implies knows(
        st,
        #[trigger] collections[i],
    ) by {
        assert(model::live_ids(st).contains(cs[i].id));
        rows::lemma_id_of_name(st, cs[i].id);
        assert(st.collections.contains_key(cs[i].id));
    }
    lemma_all_created_known(st, collections, now);
    let mid = all_created(st, collections, now).0;
    assert forall|i: int| 0 <= i < aliases.len() implies names::valid_name(
        (#[trigger] aliases[i]).name,
    ) && knows(mid, aliases[i].collection) && mid.aliases.contains_key(
        (model::collection_named(mid, aliases[i].collection)->Ok_0, aliases[i].name),
    ) by {
        let a = list[i];
        assert(model::live_keys(st).contains((a.collection_id, a.name)));
        assert(st.aliases.contains_key((a.collection_id, a.name)));
        assert(st.collections.contains_key(a.collection_id));
        rows::lemma_id_of_name(st, a.collection_id);
        assert(knows(st, a.collection_name));
        assert(model::id_of_name(mid, a.collection_name) == model::id_of_name(
            st,
            a.collection_name,
        ));
    }
    lemma_all_upserted_known(mid, aliases, ids, now);
    lemma_all_upserted(mid, aliases, ids, now);
    lemma_export_publishes(st, list);
    assert(published(st).union_prefer_right(published(st)) =~= published(st));
}

// ---------------------------------------------------------------------------
// One after the other
// ---------------------------------------------------------------------------
/// Collections are created in turn: those of one list, then those of the next. What fails in the
/// first list ends it all.
pub proof fn law_created_in_turn(
    st: StoreState,
    a: Seq<Seq<char>>,
    b: Seq<Seq<char>>,
    now: Option<i64>,
)
    ensures
        all_created(st, Seq::empty(), now) == (st, Ok::<(), Failure>(())),
        all_created(st, a, now).1 is Ok ==> all_created(st, a + b, now) == all_created(
            all_created(st, a, now).0,
            b,
            now,
        ),
        all_created(st, a, now).1 is Err ==> all_created(st, a + b, now) == all_created(st, a, now),
        a.len() == 1 ==> all_created(st, a, now) == model::collection_created(st, a[0], now),
    decreases b.len(),
{
    if b.len() == 0 {
        assert(a + b =~= a);
    } else {
        assert((a + b).drop_last() =~= a + b.drop_last());
        assert((a + b).last() == b.last());
        law_created_in_turn(st, a, b.drop_last(), now);
    }
    if a.len() == 1 {
        reveal_with_fuel(all_created, 2);
        assert(a.drop_last() =~= Seq::<Seq<char>>::empty());
        assert(a.last() == a[0]);
    }
}

/// Aliases are put into their collections in turn: those of one list, then those of the next, each
/// with its own id. What fails in the first list ends it all.
pub proof fn law_upserted_in_turn(
    st: StoreState,
    a: Seq<Entry>,
    a_ids: Seq<Seq<char>>,
    b: Seq<Entry>,
    b_ids: Seq<Seq<char>>,
    now: Option<i64>,
)
    requires
        a_ids.len() == a.len(),
        b_ids.len() == b.len(),
    ensures
        all_upserted(st, Seq::empty(), a_ids, now) == (st, Ok::<(), Failure>(())),
        all_upserted(st, a, a_ids, now).1 is Ok ==> all_upserted(st, a + b, a_ids + b_ids, now)
            == all_upserted(all_upserted(st, a, a_ids, now).0, b, b_ids, now),
        all_upserted(st, a, a_ids, now).1 is Err ==> all_upserted(st, a + b, a_ids + b_ids, now)
            == all_upserted(st, a, a_ids, now),
        a.len() == 1 ==> all_upserted(st, a, a_ids, now) == model::alias_upserted(
            st,
            a[0].collection,
            a[0].name,
            a[0].command,
            a_ids[0],
            now,
        ),
    decreases b.len(),
{
    let ids = a_ids + b_ids;
    if b.len() == 0 {
        assert(a + b =~= a);
        assert(ids =~= a_ids);
    } else {
        assert((a + b).drop_last() =~= a + b.drop_last());
        assert((a + b).last() == b.last());
        law_upserted_in_turn(st, a, a_ids, b.drop_last(), b_ids.drop_last(), now);
        let fewer = a_ids + b_ids.drop_last();
        lemma_same_ids(st, a + b.drop_last(), fewer, ids, now);
        lemma_same_ids(
            all_upserted(st, a, a_ids, now).0,
            b.drop_last(),
            b_ids.drop_last(),
            b_ids,
            now,
        );
        assert(ids[(a + b).len() - 1] == b_ids[b.len() - 1]);
    }
    if a.len() == 1 {
        reveal_with_fuel(all_upserted, 2);
        assert(a.drop_last() =~= Seq::<Entry>::empty());
        assert(a.last() == a[0]);
    }
}

proof fn lemma_same_ids(
    st: StoreState,
    entries: Seq<Entry>,
    some: Seq<Seq<char>>,
    more: Seq<Seq<char>>,
    now: Option<i64>,
)
    requires
        some.len() >= entries.len(),
        more.len() >= entries.len(),
        forall|i: int| 0 <= i < entries.len() ==> some[i] == more[i],
    ensures
        all_upserted(st, entries, some, now) == all_upserted(st, entries, more, now),
    decreases entries.len(),
{
    if entries.len() > 0 {
        lemma_same_ids(st, entries.drop_last(), some, more, now);
        assert(some[entries.len() - 1] == more[entries.len() - 1]);
    }
}

/// A file of the first version has no collections to create; one of the second has, and its
/// aliases come after them. No other version is read. Where all goes well the value is the number
/// of aliases.
pub proof fn law_import_versions(
    st: StoreState,
    version: u8,
    collections: Seq<Seq<char>>,
    aliases: Seq<Entry>,
    ids: Seq<Seq<char>>,
    now: Option<i64>,
)
    ensures
        version != 1 && version != 2 ==> imported(st, version, collections, aliases, ids, now) == (
            st,
            Err::<nat, Failure>(Failure::UnsupportedExportVersion(version)),
        ),
        imported(st, 1, collections, aliases, ids, now) == imported(
            st,
            1,
            Seq::empty(),
            aliases,
            ids,
            now,
        ),
        ({
            let (mid, r) = imported(st, 2, collections, Seq::empty(), ids, now);
            &&& r is Ok ==> imported(st, 2, collections, aliases, ids, now) == imported(
                mid,
                1,
                Seq::empty(),
                aliases,
                ids,
                now,
            )
            &&& r is Err ==> imported(st, 2, collections, aliases, ids, now) == (mid, r)
            &&& mid == all_created(st, collections, now).0
            &&& r is Ok <==> all_created(st, collections, now).1 is Ok
            &&& r matches Err(f) ==> all_created(st, collections, now).1 == Err::<(), Failure>(f)
        }),
        ({
            let (after, r) = imported(st, 1, collections, aliases, ids, now);
            &&& after == all_upserted(st, aliases, ids, now).0
            &&& r is Ok <==> all_upserted(st, aliases, ids, now).1 is Ok
            &&& r matches Ok(n) ==> n == aliases.len()
            &&& r matches Err(f) ==> all_upserted(st, aliases, ids, now).1 == Err::<(), Failure>(f)
        }),
{
}

/// The alias is the one that an entry names.
pub open spec fn named_by(st: StoreState, k: AliasKey, e: Entry) -> bool {
    st.collections.contains_key(k.0) && st.collections[k.0].name == e.collection && k.1 == e.name
}

/// Aliases that were put into collections wait to be sent as changed now, and are not deleted. No
/// other alias changes, none is lost, and neither does anything else change.
pub proof fn law_upserted_are_changed(
    st: StoreState,
    entries: Seq<Entry>,
    ids: Seq<Seq<char>>,
    now: Option<i64>,
)
    requires
        model::consistent(st),
        all_upserted(st, entries, ids, now).1 is Ok,
    ensures
        ({
            let after = all_upserted(st, entries, ids, now).0;
            &&& model::consistent(after)
            &&& after.collections == st.collections
            &&& after.active == st.active
            &&& after.backups == st.backups
            &&& forall|k: AliasKey, i: int|
                0 <= i < entries.len() && #[trigger] named_by(st, k, #[trigger] entries[i]) ==> {
                    &&& after.aliases.contains_key(k)
                    &&& !after.aliases[k].deleted
                    &&& after.aliases[k].dirty
                    &&& now == Some(after.aliases[k].updated_at)
                    &&& st.aliases.contains_key(k) ==> after.aliases[k].id == st.aliases[k].id
                        && after.aliases[k].created_at == st.aliases[k].created_at
                        && after.aliases[k].sync_version == st.aliases[k].sync_version
                }
            &&& forall|k: AliasKey|
                (forall|i: int| 0 <= i < entries.len() ==> !named_by(st, k, #[trigger] entries[i]))
                    ==> (#[trigger] after.aliases.contains_key(k) <==> st.aliases.contains_key(k))
                    && after.aliases[k] == st.aliases[k]
        }),
    decreases entries.len(),
{
    if entries.len() > 0 {
        let fewer = entries.drop_last();
        law_upserted_are_changed(st, fewer, ids, now);
        let mid = all_upserted(st, fewer, ids, now).0;
        let after = all_upserted(st, entries, ids, now).0;
        let e = entries.last();
        let n = entries.len() - 1;
        laws::law_upsert_keeps_order(mid, e.collection, e.name, e.command, ids[n], now);
        laws::law_upserted_is_there(mid, e.collection, e.name, e.command, ids[n], now);
        let cid = model::collection_named(mid, e.collection)->Ok_0;
        let key = (cid, e.name);
        assert(model::has_name(mid, cid, e.collection));
        assert(named_by(st, key, e));
        assert forall|k: AliasKey| k != key implies (#[trigger] after.aliases.contains_key(k)
            <==> mid.aliases.contains_key(k)) && after.aliases[k] == mid.aliases[k] by {}
        assert forall|k: AliasKey, i: int|
            0 <= i < entries.len() && #[trigger] named_by(st, k, #[trigger] entries[i]) implies {
            &&& after.aliases.contains_key(k)
            &&& !after.aliases[k].deleted
            &&& after.aliases[k].dirty
            &&& now == Some(after.aliases[k].updated_at)
            &&& st.aliases.contains_key(k) ==> after.aliases[k].id == st.aliases[k].id
                && after.aliases[k].created_at == st.aliases[k].created_at
                && after.aliases[k].sync_version == st.aliases[k].sync_version
        } by {
            if k == key {
                if exists|j: int| 0 <= j < n && named_by(st, k, #[trigger] fewer[j]) {
                    let j = choose|j: int| 0 <= j < n && named_by(st, k, #[trigger] fewer[j]);
                    assert(named_by(st, k, fewer[j]));
                } else {
                    assert(mid.aliases.contains_key(k) <==> st.aliases.contains_key(k));
                }
            } else {
                assert((k.0, k.1) == k);
                if i == n {
                    assert(st.collections.contains_key(k.0) && st.collections.contains_key(cid));
                }
                assert(i < n);
                assert(fewer[i] == entries[i]);
                assert(mid.aliases.contains_key(k));
            }
        }
        assert forall|k: AliasKey|
            (forall|i: int| 0 <= i < entries.len() ==> !named_by(st, k, #[trigger] entries[i]))
            implies (#[trigger] after.aliases.contains_key(k) <==> st.aliases.contains_key(k))
            && after.aliases[k] == st.aliases[k] by {
            assert(entries[n] == e);
            assert(k != key);
            assert forall|i: int| 0 <= i < fewer.len() implies !named_by(
                st,
                k,
                #[trigger] fewer[i],
            ) by {
                assert(fewer[i] == entries[i]);
            }
            assert(mid.aliases.contains_key(k) <==> st.aliases.contains_key(k));
        }
    }
}

/// The entry is an alias that stands.
pub open spec fn comes_from(st: StoreState, e: Entry) -> bool {
    exists|cid: Seq<char>| #[trigger]
        effects::stands(st, cid, e.name) && e.command == st.aliases[(cid, e.name)].command
            && e.collection == st.collections[cid].name
}

/// The name is that of a collection that is not deleted.
pub open spec fn names_collection(st: StoreState, name: Seq<char>) -> bool {
    exists|id: Seq<char>| #[trigger]
        st.collections.contains_key(id) && !st.collections[id].deleted && st.collections[id].name
            == name
}

/// An exported file is of the second version and has the name of every collection that is not
/// deleted, once, and of no other; and every alias that stands, with its command and the name of
/// its collection, once, and no other.
pub proof fn law_export_holds(
    st: StoreState,
    version: u8,
    collections: Seq<Seq<char>>,
    aliases: Seq<Entry>,
)
    requires
        model::consistent(st),
        is_export(st, version, collections, aliases),
    ensures
        version == 2,
        forall|id: Seq<char>| #[trigger]
            st.collections.contains_key(id) && !st.collections[id].deleted ==> collections.contains(
                st.collections[id].name,
            ),
        forall|i: int|
            0 <= i < collections.len() ==> names_collection(st, #[trigger] collections[i]),
        collections.no_duplicates(),
        forall|cid: Seq<char>, name: Seq<char>| #[trigger]
            effects::stands(st, cid, name) ==> exists|i: int|
                0 <= i < aliases.len() && (#[trigger] aliases[i]).name == name && aliases[i].command
                    == st.aliases[(cid, name)].command && aliases[i].collection
                    == st.collections[cid].name,
        forall|i: int| 0 <= i < aliases.len() ==> comes_from(st, #[trigger] aliases[i]),
        forall|i: int, j: int|
            0 <= i < j < aliases.len() ==> (#[trigger] aliases[i]).name != (
            #[trigger] aliases[j]).name || aliases[i].collection != aliases[j].collection,
{
    let cs = choose|list: Seq<CollectionInfo>| #[trigger]
        model::is_collection_list(list, st) && collections == collection_names(list);
    let list = choose|list: Seq<AliasInfo>| #[trigger]
        model::is_alias_list(list, st, None) && aliases == alias_entries(list);
    effects::law_collection_list(cs, st);
    effects::law_whole_list(list, st);
    assert forall|id: Seq<char>| #[trigger]
        st.collections.contains_key(id) && !st.collections[id].deleted implies collections.contains(
        st.collections[id].name,
    ) by {
        let i = choose|i: int| 0 <= i < cs.len() && (#[trigger] cs[i]).id == id;
        assert(effects::lists_collection(cs, id));
        assert(effects::shows_collection(st, cs[i]));
        assert(collections[i] == cs[i].name);
    }
    assert forall|i: int| 0 <= i < collections.len() implies names_collection(
        st,
        #[trigger] collections[i],
    ) by {
        assert(effects::shows_collection(st, cs[i]));
        assert(st.collections.contains_key(cs[i].id));
    }
    assert forall|i: int, j: int| 0 <= i < j < collections.len() implies collections[i]
        != collections[j] by {
        assert(cs[i].id != cs[j].id);
        assert(st.collections.contains_key(cs[i].id) && st.collections.contains_key(cs[j].id));
    }
    assert forall|cid: Seq<char>, name: Seq<char>| #[trigger] effects::stands(
        st,
        cid,
        name,
    ) implies exists|i: int|
        0 <= i < aliases.len() && (#[trigger] aliases[i]).name == name && aliases[i].command
            == st.aliases[(cid, name)].command && aliases[i].collection
            == st.collections[cid].name by {
        assert(effects::lists(list, (cid, name)));
        let i = choose|i: int|
            0 <= i < list.len() && (#[trigger] list[i]).collection_id == cid && list[i].name
                == name;
        assert(effects::shows(st, list[i]));
        assert(aliases[i].name == name);
    }
    assert forall|i: int| 0 <= i < aliases.len() implies comes_from(st, #[trigger] aliases[i]) by {
        assert(effects::shows(st, list[i]));
        assert(effects::stands(st, list[i].collection_id, list[i].name));
    }
    assert forall|i: int, j: int| 0 <= i < j < aliases.len() implies (#[trigger] aliases[i]).name
        != (#[trigger] aliases[j]).name || aliases[i].collection != aliases[j].collection by {
        assert(effects::shows(st, list[i]) && effects::shows(st, list[j]));
        assert(st.collections.contains_key(list[i].collection_id) && st.collections.contains_key(
            list[j].collection_id,
        ));
    }
}

/// What is read from a startup file is imported in its order, into the shared collection.
pub proof fn law_shared_entries(pairs: Seq<parse::Pair>, i: int)
    requires
        0 <= i < pairs.len(),
    ensures
        shared_entries(pairs).len() == pairs.len(),
        shared_entries(pairs)[i].name == pairs[i].0,
        shared_entries(pairs)[i].command == pairs[i].1,
        shared_entries(pairs)[i].collection == "shared"@,
{
}

/// Every alias that was read from a startup file stands in the shared collection afterwards and
/// waits to be sent, with the command that its name got last. No alias of another name or collection
/// changes, and the value is the number of aliases that were read.
pub proof fn law_startup_file_is_imported(
    st: StoreState,
    pairs: Seq<parse::Pair>,
    ids: Seq<Seq<char>>,
    now: Option<i64>,
)
    requires
        model::consistent(st),
        pairs_imported(st, pairs, ids, now).1 is Ok,
    ensures
        ({
            let (after, r) = pairs_imported(st, pairs, ids, now);
            let shared = "collection:shared"@;
            &&& r == Ok::<nat, Failure>(pairs.len())
            &&& after.collections == st.collections
            &&& after.active == st.active
            &&& after.backups == st.backups
            &&& forall|i: int|
                0 <= i < pairs.len() ==> effects::stands(after, shared, (#[trigger] pairs[i]).0)
                    && after.aliases[(shared, pairs[i].0)].dirty
            &&& forall|i: int|
                0 <= i < pairs.len() && (forall|j: int|
                    i < j < pairs.len() ==> (#[trigger] pairs[j]).0 != pairs[i].0)
                    ==> after.aliases[(shared, (#[trigger] pairs[i]).0)].command == pairs[i].1
            &&& forall|k: AliasKey|
                (k.0 != shared || forall|i: int|
                    0 <= i < pairs.len() ==> (#[trigger] pairs[i]).0 != k.1) ==> (
                #[trigger] after.aliases.contains_key(k) <==> st.aliases.contains_key(k))
                    && after.aliases[k] == st.aliases[k]
        }),
{
    let shared = DEFAULT_COLLECTION_ID@;
    let entries = shared_entries(pairs);
    let after = all_upserted(st, entries, ids, now).0;
    law_upserted_are_changed(st, entries, ids, now);
    assert(st.collections.contains_key(shared));
    assert forall|i: int| 0 <= i < pairs.len() implies effects::stands(
        after,
        shared,
        (#[trigger] pairs[i]).0,
    ) && after.aliases[(shared, pairs[i].0)].dirty by {
        assert(named_by(st, (shared, pairs[i].0), entries[i]));
    }
    assert forall|k: AliasKey|
        (k.0 != shared || forall|i: int| 0 <= i < pairs.len() ==> (#[trigger] pairs[i]).0 != k.1)
        implies (#[trigger] after.aliases.contains_key(k) <==> st.aliases.contains_key(k))
        && after.aliases[k] == st.aliases[k] by {
        assert forall|i: int| 0 <= i < entries.len() implies !named_by(
            st,
            k,
            #[trigger] entries[i],
        ) by {
            assert(entries[i].name == pairs[i].0);
            assert(entries[i].collection == DEFAULT_COLLECTION_NAME@);
        }
    }
    lemma_last_command(st, entries, ids, now);
    assert forall|i: int|
        0 <= i < pairs.len() && (forall|j: int|
            i < j < pairs.len() ==> (#[trigger] pairs[j]).0 != pairs[i].0) implies after.aliases[(
        shared,
        (#[trigger] pairs[i]).0,
    )].command == pairs[i].1 by {
        let k = (shared, pairs[i].0);
        assert(named_by(st, k, entries[i]));
        assert forall|j: int| i < j < entries.len() implies !named_by(
            st,
            k,
            #[trigger] entries[j],
        ) by {
            assert(entries[j].name == pairs[j].0);
        }
    }
}

proof fn lemma_last_command(
    st: StoreState,
    entries: Seq<Entry>,
    ids: Seq<Seq<char>>,
    now: Option<i64>,
)
    requires
        model::consistent(st),
        all_upserted(st, entries, ids, now).1 is Ok,
    ensures
        forall|k: AliasKey, i: int|
            0 <= i < entries.len() && #[trigger] named_by(st, k, #[trigger] entries[i]) && (forall|
                j: int,
            |
                i < j < entries.len() ==> !named_by(st, k, #[trigger] entries[j]))
                ==> all_upserted(st, entries, ids, now).0.aliases[k].command == entries[i].command,
    decreases entries.len(),
{
    if entries.len() > 0 {
        let fewer = entries.drop_last();
        lemma_last_command(st, fewer, ids, now);
        law_upserted_are_changed(st, fewer, ids, now);
        let mid = all_upserted(st, fewer, ids, now).0;
        let after = all_upserted(st, entries, ids, now).0;
        let e = entries.last();
        let n = entries.len() - 1;
        laws::law_upserted_is_there(mid, e.collection, e.name, e.command, ids[n], now);
        let cid = model::collection_named(mid, e.collection)->Ok_0;
        let key = (cid, e.name);
        assert(model::has_name(mid, cid, e.collection));
        assert(named_by(st, key, e));
        assert forall|k: AliasKey, i: int|
            0 <= i < entries.len() && #[trigger] named_by(st, k, #[trigger] entries[i]) && (forall|
                j: int,
            |
                i < j < entries.len() ==> !named_by(st, k, #[trigger] entries[j])) implies
            after.aliases[k].command == entries[i].command by {
            if i == n {
                assert(st.collections.contains_key(k.0) && st.collections.contains_key(cid));
                assert(k == key);
            } else {
                assert(!named_by(st, k, entries[n]));
                assert(k != key);
                assert(fewer[i] == entries[i]);
                assert forall|j: int| i < j < fewer.len() implies !named_by(
                    st,
                    k,
                    #[trigger] fewer[j],
                ) by {
                    assert(fewer[j] == entries[j]);
                }
                assert(after.aliases.remove(key)[k] == mid.aliases.remove(key)[k]);
            }
        }
    }
}

/// An exported file has its collections in the order in which they are listed, the shared one
/// first, and its aliases by collection and name.
pub proof fn law_export_order(
    st: StoreState,
    version: u8,
    collections: Seq<Seq<char>>,
    aliases: Seq<Entry>,
    list: Seq<CollectionInfo>,
)
    requires
        model::consistent(st),
        is_export(st, version, collections, aliases),
        model::is_collection_list(list, st),
    ensures
        collections.len() == list.len(),
        forall|i: int| 0 <= i < list.len() ==> #[trigger] collections[i] == list[i].name,
        collections[0] == "shared"@,
        forall|i: int, j: int|
            0 <= i < j < aliases.len() ==> text::text_lt(
                (#[trigger] aliases[i]).collection,
                (#[trigger] aliases[j]).collection,
            ) || (aliases[i].collection == aliases[j].collection && text::text_lt(
                aliases[i].name,
                aliases[j].name,
            )),
{
    let cs = choose|list: Seq<CollectionInfo>| #[trigger]
        model::is_collection_list(list, st) && collections == collection_names(list);
    let shown = choose|list: Seq<AliasInfo>| #[trigger]
        model::is_alias_list(list, st, None) && aliases == alias_entries(list);
    listing::law_collection_list_is_determined(cs, list, st);
    listing::law_shared_comes_first(list, st);
    effects::law_whole_list(shown, st);
}

} // verus!
