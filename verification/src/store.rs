//! The aliases of a computer: looking up, adding, changing and removing them.

pub mod listing;
pub mod remote;

use vstd::prelude::*;

use crate::clock;
use crate::clock::{now_unix, Clock};
use crate::error;
use crate::error::{AliazError, Failure};
use crate::laws;
use crate::model;
use crate::model::{AliasInfo, CollectionInfo, StoreState};
use crate::names::{
    collection_id_for_name,
    validate_name,
    DEFAULT_COLLECTION_ID,
    DEFAULT_COLLECTION_NAME,
};
use crate::outside;
use crate::outside::random_uuid;
use crate::rows;
use crate::rows::{
    active_ids_differ,
    alias_ids_differ,
    alias_names_differ,
    backup_ids_differ,
    collection_ids_differ,
    collection_names_differ,
    ActiveRow,
    AliasRow,
    CollectionRow,
    Tables,
};
use crate::table;
use crate::text;
use crate::text::same_text;

verus! {

/// An alias with the name of its collection.
#[derive(Debug)]
pub struct Alias {
    pub id: String,
    pub collection_id: String,
    pub collection_name: String,
    pub name: String,
    pub command: String,
    pub deleted: bool,
    pub dirty: bool,
    pub sync_version: i64,
    pub updated_at: i64,
}

impl View for Alias {
    type V = AliasInfo;

    open spec fn view(&self) -> AliasInfo {
        AliasInfo {
            id: self.id@,
            collection_id: self.collection_id@,
            collection_name: self.collection_name@,
            name: self.name@,
            command: self.command@,
            deleted: self.deleted,
            dirty: self.dirty,
            sync_version: self.sync_version,
            updated_at: self.updated_at,
        }
    }
}

/// A collection, with whether it is active and its priority, which is -1 where it is not.
#[derive(Debug)]
pub struct Collection {
    pub id: String,
    pub name: String,
    pub deleted: bool,
    pub dirty: bool,
    pub sync_version: i64,
    pub updated_at: i64,
    pub active: bool,
    pub priority: i64,
}

impl View for Collection {
    type V = CollectionInfo;

    open spec fn view(&self) -> CollectionInfo {
        CollectionInfo {
            id: self.id@,
            name: self.name@,
            deleted: self.deleted,
            dirty: self.dirty,
            sync_version: self.sync_version,
            updated_at: self.updated_at,
            active: self.active,
            priority: self.priority,
        }
    }
}

// ---------------------------------------------------------------------------
// Opening
// ---------------------------------------------------------------------------
/// What is wrong with the keys of the tables.
pub open spec fn key_fault(t: Tables) -> Option<Failure> {
    if !table::distinct(rows::recs(t.collections@), model::collection_key()) {
        Some(Failure::DuplicateCollectionId)
    } else if !table::distinct(rows::recs(t.collections@), model::collection_name_key()) {
        Some(Failure::DuplicateCollectionName)
    } else if !table::distinct(rows::recs(t.active@), model::active_key()) {
        Some(Failure::DuplicateActiveCollection)
    } else if !table::distinct(rows::recs(t.aliases@), model::alias_id_key()) {
        Some(Failure::DuplicateAliasId)
    } else if !table::distinct(rows::recs(t.aliases@), model::alias_key()) {
        Some(Failure::DuplicateAliasName)
    } else if !table::distinct(rows::recs(t.backups@), model::backup_key()) {
        Some(Failure::DuplicateBackupId)
    } else {
        None
    }
}

/// The store that the tables hold, with the shared collection made sure of.
pub open spec fn opened(t: Tables, now: Option<i64>) -> Result<StoreState, Failure> {
    match key_fault(t) {
        Some(f) => Err(f),
        None => match now {
            None => Err(Failure::ClockBeforeEpoch),
            Some(time) => model::shared_ensured(t@, time),
        },
    }
}

proof fn lemma_keys_agree(t: Tables)
    requires
        key_fault(t) is None,
    ensures
        model::keys_agree(t@),
{
    let st = t@;
    let collections = rows::recs(t.collections@);
    let active = rows::recs(t.active@);
    let aliases = rows::recs(t.aliases@);
    let backups = rows::recs(t.backups@);
    table::lemma_finite(collections, model::collection_key());
    table::lemma_finite(active, model::active_key());
    table::lemma_finite(aliases, model::alias_key());
    assert forall|id: Seq<char>| #[trigger] st.collections.contains_key(id) implies
        st.collections[id].id == id by {
        let i = table::lemma_key(collections, model::collection_key(), id);
    }
    assert forall|a: Seq<char>, b: Seq<char>| #[trigger]
        st.collections.contains_key(a) && #[trigger] st.collections.contains_key(b)
            && st.collections[a].name == st.collections[b].name implies a == b by {
        let i = table::lemma_key(collections, model::collection_key(), a);
        let j = table::lemma_key(collections, model::collection_key(), b);
        let name = model::collection_name_key();
        assert(name(collections[i]) == name(collections[j]));
    }
    assert forall|id: Seq<char>| #[trigger] st.active.contains_key(id) implies
        st.active[id].collection_id == id by {
        let i = table::lemma_key(active, model::active_key(), id);
    }
    assert forall|k: model::AliasKey| #[trigger] st.aliases.contains_key(k) implies
        st.aliases[k].collection_id == k.0 && st.aliases[k].name == k.1 by {
        let i = table::lemma_key(aliases, model::alias_key(), k);
    }
    assert forall|a: model::AliasKey, b: model::AliasKey| #[trigger]
        st.aliases.contains_key(a) && #[trigger] st.aliases.contains_key(b) && st.aliases[a].id
            == st.aliases[b].id implies a == b by {
        let i = table::lemma_key(aliases, model::alias_key(), a);
        let j = table::lemma_key(aliases, model::alias_key(), b);
        let id = model::alias_id_key();
        assert(id(aliases[i]) == id(aliases[j]));
    }
    assert forall|id: Seq<char>| #[trigger] st.backups.contains_key(id) implies st.backups[id].id
        == id by {
        let i = table::lemma_key(backups, model::backup_key(), id);
    }
}

/// Tables that a store keeps can be opened again, and hold the same store.
pub proof fn law_reopen(t: Tables, now: i64)
    requires
        t.keyed(),
        model::consistent(t@),
    ensures
        opened(t, Some(now)) == Ok::<StoreState, Failure>(t@),
{
    let collections = rows::recs(t.collections@);
    let aliases = rows::recs(t.aliases@);
    let name = model::collection_name_key();
    assert forall|i: int, j: int| 0 <= i < j < collections.len() implies name(
        #[trigger] collections[i],
    ) != name(#[trigger] collections[j]) by {
        table::lemma_row(collections, model::collection_key(), i);
        table::lemma_row(collections, model::collection_key(), j);
        let id = model::collection_key();
        assert(id(collections[i]) != id(collections[j]));
        assert(t@.collections.contains_key(collections[i].id));
        assert(t@.collections.contains_key(collections[j].id));
    }
    let id = model::alias_id_key();
    assert forall|i: int, j: int| 0 <= i < j < aliases.len() implies id(#[trigger] aliases[i])
        != id(#[trigger] aliases[j]) by {
        table::lemma_row(aliases, model::alias_key(), i);
        table::lemma_row(aliases, model::alias_key(), j);
        let key = model::alias_key();
        assert(key(aliases[i]) != key(aliases[j]));
        assert(t@.aliases.contains_key(key(aliases[i])));
        assert(t@.aliases.contains_key(key(aliases[j])));
    }
    laws::law_shared_ensured(t@, now);
}

/// All collections, aliases, marks and backups of a computer.
#[derive(Debug)]
pub struct Store {
    tables: Tables,
}

impl View for Store {
    type V = StoreState;

    closed spec fn view(&self) -> StoreState {
        self.tables@
    }
}

/// Makes sure that the shared collection is there, is not deleted and is active with priority 0.
fn ensure_shared_collection(tables: &mut Tables, now: i64) -> (r: Result<(), AliazError>)
    requires
        old(tables).keyed(),
    ensures
        final(tables).keyed(),
        match model::shared_ensured(old(tables)@, now) {
            Ok(st) => r is Ok && final(tables)@ == st,
            Err(f) => r matches Err(e) && e@ == f && *final(tables) == *old(tables),
        },
{
    let ghost id = DEFAULT_COLLECTION_ID@;
    let ghost name = DEFAULT_COLLECTION_NAME@;
    let ghost all = rows::recs(tables.collections@);
    for i in 0..tables.collections.len()
        invariant
            *tables == *old(tables),
            tables.keyed(),
            all == rows::recs(tables.collections@),
            id == DEFAULT_COLLECTION_ID@,
            name == DEFAULT_COLLECTION_NAME@,
            forall|k: int|
                0 <= k < i ==> (#[trigger] all[k]).id == id || all[k].name != name,
    {
        assert(all[i as int] == tables.collections@[i as int]@);
        if same_text(tables.collections[i].name.as_str(), DEFAULT_COLLECTION_NAME) && !same_text(
            tables.collections[i].id.as_str(),
            DEFAULT_COLLECTION_ID,
        ) {
            proof {
                table::lemma_row(all, model::collection_key(), i as int);
                assert(model::has_name(tables@, all[i as int].id, name));
            }
            return Err(AliazError::DuplicateCollectionName);
        }
    }
    proof {
        if exists|other: Seq<char>| other != id && model::has_name(tables@, other, name) {
            let other = choose|other: Seq<char>|
                other != id && model::has_name(tables@, other, name);
            let k = table::lemma_key(all, model::collection_key(), other);
            assert(all[k].id == other && all[k].name == name);
        }
    }
    let ghost before = tables@;
    match tables.collection_row(DEFAULT_COLLECTION_ID) {
        Some(i) => {
            let there = &tables.collections[i];
            let row = CollectionRow {
                id: there.id.clone(),
                name: DEFAULT_COLLECTION_NAME.to_owned(),
                deleted: false,
                dirty: there.dirty,
                sync_version: there.sync_version,
                created_at: there.created_at,
                updated_at: there.updated_at,
            };
            tables.set_collection(i, row);
        },
        None => {
            let row = CollectionRow {
                id: DEFAULT_COLLECTION_ID.to_owned(),
                name: DEFAULT_COLLECTION_NAME.to_owned(),
                deleted: false,
                dirty: false,
                sync_version: 0,
                created_at: now,
                updated_at: now,
            };
            tables.add_collection(row);
        },
    }
    let mark = ActiveRow { collection_id: DEFAULT_COLLECTION_ID.to_owned(), priority: 0 };
    match tables.active_row(DEFAULT_COLLECTION_ID) {
        Some(i) => {
            tables.set_active(i, mark);
        },
        None => {
            tables.add_active(mark);
        },
    }
    Ok(())
}

/// Making sure of the shared collection leaves no two collections with one name.
proof fn lemma_shared_ensured_agrees(st: StoreState, now: i64)
    requires
        model::keys_agree(st),
    ensures
        model::shared_ensured(st, now) matches Ok(after) ==> model::keys_agree(after)
            && model::shared_present(after),
{
    if let Ok(after) = model::shared_ensured(st, now) {
        let id = DEFAULT_COLLECTION_ID@;
        assert forall|a: Seq<char>, b: Seq<char>| #[trigger]
            after.collections.contains_key(a) && #[trigger] after.collections.contains_key(b)
                && after.collections[a].name == after.collections[b].name implies a == b by {
            if a == id && b != id {
                assert(!model::has_name(st, b, DEFAULT_COLLECTION_NAME@));
            }
            if b == id && a != id {
                assert(!model::has_name(st, a, DEFAULT_COLLECTION_NAME@));
            }
        }
    }
}

/// A store that was opened is in order, and every alias and backup that the tables hold is there
/// as it was. Only the shared collection and its mark may have changed.
pub proof fn law_open_keeps_aliases(t: Tables, now: Option<i64>)
    requires
        opened(t, now) is Ok,
    ensures
        ({
            let st = opened(t, now)->Ok_0;
            let shared = DEFAULT_COLLECTION_ID@;
            &&& model::consistent(st)
            &&& st.aliases == t@.aliases
            &&& st.backups == t@.backups
            &&& st.collections.remove(shared) == t@.collections.remove(shared)
            &&& st.active.remove(shared) == t@.active.remove(shared)
        }),
{
    lemma_keys_agree(t);
    lemma_shared_ensured_agrees(t@, now.unwrap());
    let st = opened(t, now)->Ok_0;
    let shared = DEFAULT_COLLECTION_ID@;
    assert(st.collections.remove(shared) =~= t@.collections.remove(shared));
    assert(st.active.remove(shared) =~= t@.active.remove(shared));
}

/// Where there are no rows yet, the store has the shared collection, which is active and does not
/// wait to be sent, and nothing else.
pub proof fn law_open_empty(t: Tables, now: i64)
    requires
        t.collections@.len() == 0,
        t.active@.len() == 0,
        t.aliases@.len() == 0,
        t.backups@.len() == 0,
    ensures
        opened(t, Some(now)) is Ok,
        ({
            let st = opened(t, Some(now))->Ok_0;
            let shared = DEFAULT_COLLECTION_ID@;
            &&& model::consistent(st)
            &&& st.collections.dom() == set![shared]
            &&& !st.collections[shared].dirty
            &&& st.active.dom() == set![shared]
            &&& st.aliases.dom() == Set::<model::AliasKey>::empty()
            &&& st.backups.dom() == Set::<Seq<char>>::empty()
        }),
{
    let shared = DEFAULT_COLLECTION_ID@;
    assert(t@.collections.dom() =~= Set::<Seq<char>>::empty());
    assert(!exists|other: Seq<char>|
        other != shared && model::has_name(t@, other, DEFAULT_COLLECTION_NAME@)) by {
        assert forall|other: Seq<char>| !model::has_name(t@, other, DEFAULT_COLLECTION_NAME@) by {
            assert(!t@.collections.dom().contains(other));
        }
    }
    law_open_keeps_aliases(t, Some(now));
    let st = opened(t, Some(now))->Ok_0;
    assert(st.collections.dom() =~= set![shared]);
    assert(st.active.dom() =~= set![shared]);
    assert(st.aliases.dom() =~= Set::<model::AliasKey>::empty());
    assert(st.backups.dom() =~= Set::<Seq<char>>::empty());
}

impl Store {
    pub closed spec fn keyed(&self) -> bool {
        self.tables.keyed()
    }

    /// What holds of every store.
    pub open spec fn wf(&self) -> bool {
        self.keyed() && model::consistent(self@)
    }

    /// Opens the store that the tables hold, and makes sure of the shared collection.
    pub fn open(tables: Tables, clock: &Clock) -> (r: Result<Store, AliazError>)
        ensures
            match opened(tables, clock::time_of(*clock)) {
                Ok(st) => r matches Ok(store) && store.wf() && store@ == st,
                Err(f) => r matches Err(e) && e@ == f,
            },
    {
        if !collection_ids_differ(&tables.collections) {
            return Err(AliazError::DuplicateCollectionId);
        }
        if !collection_names_differ(&tables.collections) {
            return Err(AliazError::DuplicateCollectionName);
        }
        if !active_ids_differ(&tables.active) {
            return Err(AliazError::DuplicateActiveCollection);
        }
        if !alias_ids_differ(&tables.aliases) {
            return Err(AliazError::DuplicateAliasId);
        }
        if !alias_names_differ(&tables.aliases) {
            return Err(AliazError::DuplicateAliasName);
        }
        if !backup_ids_differ(&tables.backups) {
            return Err(AliazError::DuplicateBackupId);
        }
        let now = match now_unix(clock) {
            Ok(now) => now,
            Err(e) => {
                return Err(e);
            },
        };
        proof {
            lemma_keys_agree(tables);
            lemma_shared_ensured_agrees(tables@, now);
        }
        let mut tables = tables;
        if let Err(e) = ensure_shared_collection(&mut tables, now) {
            return Err(e);
        }
        Ok(Store { tables })
    }

    /// The tables, to be kept until the store is opened again.
    pub fn tables(&self) -> (r: &Tables)
        requires
            self.wf(),
        ensures
            r@ == self@,
            r.keyed(),
    {
        &self.tables
    }
}

// ---------------------------------------------------------------------------
// Looking up
// ---------------------------------------------------------------------------
impl Store {
    /// The row of the collection of the given name, unless it is deleted.
    fn live_row(&self, name: &str) -> (r: Result<usize, AliazError>)
        requires
            self.wf(),
        ensures
            match model::collection_named(self@, name@) {
                Ok(id) => r matches Ok(i) && i < self.tables.collections@.len()
                    && self.tables.collections@[i as int].id@ == id
                    && self.tables.collections@[i as int]@ == self@.collections[id]
                    && self@.collections.contains_key(id) && self@.collections[id].name == name@,
                Err(f) => r matches Err(e) && e@ == f,
            },
    {
        if let Err(e) = validate_name(name) {
            return Err(e);
        }
        match self.tables.named_row(name) {
            Some(i) => {
                if self.tables.collections[i].deleted {
                    Err(AliazError::CollectionNotFound(name.to_owned()))
                } else {
                    Ok(i)
                }
            },
            None => Err(AliazError::CollectionNotFound(name.to_owned())),
        }
    }

    /// A collection as it is shown.
    fn collection_from_row(&self, i: usize) -> (r: Collection)
        requires
            self.wf(),
            i < self.tables.collections@.len(),
        ensures
            r@ == model::collection_info(self@, self.tables.collections@[i as int].id@),
            self@.collections.contains_key(r@.id),
    {
        let row = &self.tables.collections[i];
        proof {
            let all = rows::recs(self.tables.collections@);
            table::lemma_row(all, model::collection_key(), i as int);
            let key = model::collection_key();
            assert(key(all[i as int]) == row.id@);
        }
        let (active, priority) = match self.tables.active_row(row.id.as_str()) {
            Some(k) => (true, self.tables.active[k].priority),
            None => (false, -1),
        };
        Collection {
            id: row.id.clone(),
            name: row.name.clone(),
            deleted: row.deleted,
            dirty: row.dirty,
            sync_version: row.sync_version,
            updated_at: row.updated_at,
            active,
            priority,
        }
    }

    /// An alias as it is shown.
    fn alias_from_row(&self, i: usize) -> (r: Alias)
        requires
            self.wf(),
            i < self.tables.aliases@.len(),
            self@.collections.contains_key(self.tables.aliases@[i as int].collection_id@),
        ensures
            r@ == model::alias_info(
                self@,
                (
                    self.tables.aliases@[i as int].collection_id@,
                    self.tables.aliases@[i as int].name@,
                ),
            ),
            self@.aliases.contains_key((r@.collection_id, r@.name)),
    {
        let row = &self.tables.aliases[i];
        proof {
            let all = rows::recs(self.tables.aliases@);
            table::lemma_row(all, model::alias_key(), i as int);
            let key = model::alias_key();
            assert(key(all[i as int]) == (row.collection_id@, row.name@));
            assert(self@.aliases.contains_key((row.collection_id@, row.name@)));
        }
        let collection_name = match self.tables.collection_row(row.collection_id.as_str()) {
            Some(k) => self.tables.collections[k].name.clone(),
            None => {
                assert(false);
                String::new()
            },
        };
        Alias {
            id: row.id.clone(),
            collection_id: row.collection_id.clone(),
            collection_name,
            name: row.name.clone(),
            command: row.command.clone(),
            deleted: row.deleted,
            dirty: row.dirty,
            sync_version: row.sync_version,
            updated_at: row.updated_at,
        }
    }

    /// The collection of the given name, unless it is deleted.
    pub fn collection_by_name(&self, name: &str) -> (r: Result<Collection, AliazError>)
        requires
            self.wf(),
        ensures
            match model::collection_named(self@, name@) {
                Ok(id) => r matches Ok(c) && c@ == model::collection_info(self@, id),
                Err(f) => r matches Err(e) && e@ == f,
            },
    {
        match self.live_row(name) {
            Ok(i) => Ok(self.collection_from_row(i)),
            Err(e) => Err(e),
        }
    }

    /// The alias of the given name in a collection that is there, deleted or not.
    pub fn find_alias_by_collection_and_name(&self, collection_id: &str, name: &str) -> (r: Option<
        Alias,
    >)
        requires
            self.wf(),
        ensures
            match r {
                Some(alias) => self@.aliases.contains_key((collection_id@, name@))
                    && self@.collections.contains_key(collection_id@) && alias@
                    == model::alias_info(self@, (collection_id@, name@)),
                None => !self@.aliases.contains_key((collection_id@, name@))
                    || !self@.collections.contains_key(collection_id@),
            },
    {
        if self.tables.collection_row(collection_id).is_none() {
            return None;
        }
        match self.tables.alias_row(collection_id, name) {
            Some(i) => Some(self.alias_from_row(i)),
            None => None,
        }
    }
}

// ---------------------------------------------------------------------------
// Collections
// ---------------------------------------------------------------------------
proof fn lemma_each_activated_fails(st: StoreState, names: Seq<Seq<char>>, n: int)
    requires
        0 <= n <= names.len(),
        model::each_activated(st, names.take(n)).1 is Err,
    ensures
        model::each_activated(st, names) == model::each_activated(st, names.take(n)),
    decreases names.len(),
{
    if n == names.len() {
        assert(names.take(n) =~= names);
    } else {
        assert(names.drop_last().take(n) =~= names.take(n));
        lemma_each_activated_fails(st, names.drop_last(), n);
    }
}

impl Store {
    /// Creates a collection, or takes back its deletion.
    pub fn create_collection(&mut self, name: &str, clock: &Clock) -> (r: Result<(), AliazError>)
        requires
            old(self).wf(),
        ensures
            final(self).wf(),
            (final(self)@, error::seen(r)) == model::collection_created(
                old(self)@,
                name@,
                clock::time_of(*clock),
            ),
    {
        proof {
            laws::law_create_keeps_order(self@, name@, clock::time_of(*clock));
        }
        if let Err(e) = validate_name(name) {
            return Err(e);
        }
        let now = match now_unix(clock) {
            Ok(now) => now,
            Err(e) => {
                return Err(e);
            },
        };
        if same_text(name, DEFAULT_COLLECTION_NAME) {
            proof {
                laws::law_shared_ensured(self@, now);
            }
            return Ok(());
        }
        match self.tables.named_row(name) {
            Some(i) => {
                let there = &self.tables.collections[i];
                let row = CollectionRow {
                    id: there.id.clone(),
                    name: there.name.clone(),
                    deleted: false,
                    dirty: true,
                    sync_version: there.sync_version,
                    created_at: there.created_at,
                    updated_at: now,
                };
                self.tables.set_collection(i, row);
            },
            None => {
                let id = collection_id_for_name(name);
                if self.tables.collection_row(id.as_str()).is_some() {
                    return Err(AliazError::DuplicateCollectionId);
                }
                let row = CollectionRow {
                    id,
                    name: name.to_owned(),
                    deleted: false,
                    dirty: true,
                    sync_version: 0,
                    created_at: now,
                    updated_at: now,
                };
                self.tables.add_collection(row);
            },
        }
        Ok(())
    }

    /// The highest priority in use.
    fn highest_collection_priority(&self) -> (r: i64)
        requires
            self.wf(),
        ensures
            r == model::highest_priority(self@),
    {
        let ghost all = rows::recs(self.tables.active@);
        let mut highest: i64 = 0;
        proof {
            let k = table::lemma_key(all, model::active_key(), DEFAULT_COLLECTION_ID@);
            assert(all[k].priority == 0);
        }
        let ghost mut best: Seq<char> = DEFAULT_COLLECTION_ID@;
        for i in 0..self.tables.active.len()
            invariant
                self.wf(),
                all == rows::recs(self.tables.active@),
                self@.active.contains_key(best) && self@.active[best].priority == highest,
                forall|k: int| 0 <= k < i ==> (#[trigger] all[k]).priority <= highest,
        {
            assert(all[i as int] == self.tables.active@[i as int]@);
            if self.tables.active[i].priority > highest {
                highest = self.tables.active[i].priority;
                proof {
                    table::lemma_row(all, model::active_key(), i as int);
                    let key = model::active_key();
                    best = key(all[i as int]);
                }
            }
        }
        proof {
            assert forall|id: Seq<char>| #[trigger] self@.active.contains_key(id) implies
                self@.active[id].priority <= highest by {
                let k = table::lemma_key(all, model::active_key(), id);
                assert(all[k].priority <= highest);
            }
            assert(model::is_highest(self@, highest as int));
            laws::lemma_highest(self@);
        }
        highest
    }

    /// The priority that the next active collection gets, where one is left.
    pub fn next_collection_priority(&self) -> (r: Result<i64, AliazError>)
        requires
            self.wf(),
        ensures
            if model::highest_priority(self@) < i64::MAX {
                r matches Ok(p) && p == model::highest_priority(self@) + 1
            } else {
                r matches Err(e) && e@ == Failure::PriorityOverflow
            },
    {
        proof {
            laws::lemma_highest(self@);
        }
        let highest = self.highest_collection_priority();
        if highest == i64::MAX {
            Err(AliazError::PriorityOverflow)
        } else {
            Ok(highest + 1)
        }
    }

    /// Activates one collection above all others; says whether it was not active before.
    fn activate_collection(&mut self, name: &str) -> (r: Result<bool, AliazError>)
        requires
            old(self).wf(),
        ensures
            final(self).wf(),
            (final(self)@, error::seen(r)) == model::collection_activated(old(self)@, name@),
    {
        proof {
            laws::law_activate_keeps_order(self@, name@);
            laws::lemma_highest(self@);
        }
        if let Err(e) = validate_name(name) {
            return Err(e);
        }
        if same_text(name, DEFAULT_COLLECTION_NAME) {
            return Ok(false);
        }
        let i = match self.live_row(name) {
            Ok(i) => i,
            Err(e) => {
                return Err(e);
            },
        };
        let id = self.tables.collections[i].id.clone();
        if self.tables.active_row(id.as_str()).is_some() {
            return Ok(false);
        }
        let priority = match self.next_collection_priority() {
            Ok(priority) => priority,
            Err(e) => {
                return Err(e);
            },
        };
        self.tables.add_active(ActiveRow { collection_id: id, priority });
        Ok(true)
    }

    /// Activates collections one after the other, each above all others. Returns the names of
    /// those that were not active before. The shared collection is passed over.
    pub fn activate_collections(&mut self, names: &Vec<String>) -> (r: Result<
        Vec<String>,
        AliazError,
    >)
        requires
            old(self).wf(),
        ensures
            final(self).wf(),
            (final(self)@, error::seen_texts(r)) == model::collections_activated(
                old(self)@,
                text::texts(names@),
            ),
    {
        let ghost start = self@;
        let ghost all = text::texts(names@);
        proof {
            laws::lemma_highest(self@);
        }
        if let Err(e) = self.next_collection_priority() {
            return Err(e);
        }
        let mut activated: Vec<String> = Vec::new();
        assert(text::texts(activated@) =~= Seq::<Seq<char>>::empty());
        assert(all.take(0) =~= Seq::<Seq<char>>::empty());
        for i in 0..names.len()
            invariant
                self.wf(),
                start == old(self)@,
                model::highest_priority(start) < i64::MAX,
                all == text::texts(names@),
                model::each_activated(start, all.take(i as int)) == (
                    self@,
                    Ok::<Seq<Seq<char>>, Failure>(text::texts(activated@)),
                ),
        {
            assert(all.take(i + 1).drop_last() =~= all.take(i as int));
            assert(all.take(i + 1).last() == names@[i as int]@);
            match self.activate_collection(names[i].as_str()) {
                Ok(changed) => {
                    if changed {
                        let ghost before = text::texts(activated@);
                        activated.push(names[i].clone());
                        assert(text::texts(activated@) =~= before.push(names@[i as int]@));
                    }
                },
                Err(e) => {
                    proof {
                        lemma_each_activated_fails(start, all, i + 1);
                    }
                    return Err(e);
                },
            }
        }
        assert(all.take(all.len() as int) =~= all);
        Ok(activated)
    }

    /// Deactivates a collection other than the shared one; says whether it was active.
    pub fn deactivate_collection(&mut self, name: &str) -> (r: Result<bool, AliazError>)
        requires
            old(self).wf(),
        ensures
            final(self).wf(),
            (final(self)@, error::seen(r)) == model::collection_deactivated(old(self)@, name@),
    {
        proof {
            laws::law_deactivate_keeps_order(self@, name@);
        }
        if let Err(e) = validate_name(name) {
            return Err(e);
        }
        if same_text(name, DEFAULT_COLLECTION_NAME) {
            return Err(AliazError::SharedAlwaysActive);
        }
        let i = match self.live_row(name) {
            Ok(i) => i,
            Err(e) => {
                return Err(e);
            },
        };
        match self.tables.active_row(self.tables.collections[i].id.as_str()) {
            Some(k) => {
                self.tables.remove_active(k);
                Ok(true)
            },
            None => {
                assert(self@.active.remove(self.tables.collections@[i as int].id@)
                    =~= self@.active);
                Ok(false)
            },
        }
    }
}

// ---------------------------------------------------------------------------
// Aliases
// ---------------------------------------------------------------------------
impl Store {
    /// Whether the alias in a row and its collection are not deleted.
    fn row_is_live(&self, i: usize) -> (r: bool)
        requires
            self.wf(),
            i < self.tables.aliases@.len(),
        ensures
            r == model::holds(
                self@,
                self.tables.aliases@[i as int].collection_id@,
                self.tables.aliases@[i as int].name@,
            ),
            self@.aliases.contains_key(
                (
                    self.tables.aliases@[i as int].collection_id@,
                    self.tables.aliases@[i as int].name@,
                ),
            ),
    {
        let row = &self.tables.aliases[i];
        proof {
            let all = rows::recs(self.tables.aliases@);
            table::lemma_row(all, model::alias_key(), i as int);
            let key = model::alias_key();
            assert(key(all[i as int]) == (row.collection_id@, row.name@));
        }
        match self.tables.collection_row(row.collection_id.as_str()) {
            Some(k) => !row.deleted && !self.tables.collections[k].deleted,
            None => false,
        }
    }

    /// The row of the collection in which an alias is to be changed.
    fn scope_row(&self, collection: Option<&str>, alias_name: &str) -> (r: Result<
        usize,
        AliazError,
    >)
        requires
            self.wf(),
        ensures
            match model::scope_of(self@, text::seen_option(collection), alias_name@) {
                Ok(id) => r matches Ok(i) && i < self.tables.collections@.len()
                    && self.tables.collections@[i as int].id@ == id
                    && self.tables.collections@[i as int]@ == self@.collections[id]
                    && self@.collections.contains_key(id),
                Err(f) => r matches Err(e) && e@ == f,
            },
    {
        if let Some(name) = collection {
            return self.live_row(name);
        }
        let ghost all = rows::recs(self.tables.aliases@);
        let ghost name = alias_name@;
        let mut found: Option<usize> = None;
        for i in 0..self.tables.aliases.len()
            invariant
                self.wf(),
                collection is None,
                name == alias_name@,
                all == rows::recs(self.tables.aliases@),
                found matches Some(k) ==> k < i && all[k as int].name == name && model::holds(
                    self@,
                    all[k as int].collection_id,
                    name,
                ),
                forall|k: int|
                    0 <= k < i && (#[trigger] all[k]).name == name && model::holds(
                        self@,
                        all[k].collection_id,
                        name,
                    ) ==> found == Some(k as usize),
        {
            assert(all[i as int] == self.tables.aliases@[i as int]@);
            if same_text(self.tables.aliases[i].name.as_str(), alias_name) && self.row_is_live(i) {
                match found {
                    Some(k) => {
                        proof {
                            let key = model::alias_key();
                            assert(key(all[k as int]) != key(all[i as int]));
                            let a = all[k as int].collection_id;
                            let b = all[i as int].collection_id;
                            assert(model::holds(self@, a, name) && model::holds(self@, b, name));
                        }
                        return Err(AliazError::AmbiguousAlias);
                    },
                    None => {
                        found = Some(i);
                    },
                }
            }
        }
        proof {
            assert forall|id: Seq<char>| model::holds(self@, id, name) implies found is Some
                && id == all[found.unwrap() as int].collection_id by {
                let k = table::lemma_key(all, model::alias_key(), (id, name));
                assert(all[k].name == name && all[k].collection_id == id);
            }
        }
        match found {
            Some(k) => {
                let id = &self.tables.aliases[k].collection_id;
                assert(all[k as int] == self.tables.aliases@[k as int]@);
                assert(model::holds(self@, id@, name));
                match self.tables.collection_row(id.as_str()) {
                    Some(i) => Ok(i),
                    None => {
                        assert(false);
                        Err(AliazError::AliasNotFound(alias_name.to_owned()))
                    },
                }
            },
            None => Err(AliazError::AliasNotFound(alias_name.to_owned())),
        }
    }

    /// The collection in which an alias is to be changed: the one that is named, or else the only
    /// one that has the alias.
    pub fn resolve_alias_scope(&self, collection_name: Option<&str>, alias_name: &str) -> (r: Result<
        Collection,
        AliazError,
    >)
        requires
            self.wf(),
        ensures
            match model::scope_of(self@, text::seen_option(collection_name), alias_name@) {
                Ok(id) => r matches Ok(c) && c@ == model::collection_info(self@, id),
                Err(f) => r matches Err(e) && e@ == f,
            },
    {
        match self.scope_row(collection_name, alias_name) {
            Ok(i) => Ok(self.collection_from_row(i)),
            Err(e) => Err(e),
        }
    }

    /// Puts a command under a name in a collection. An alias that is new gets the given id.
    pub fn upsert_with_id(
        &mut self,
        collection_name: &str,
        name: &str,
        command: &str,
        id: String,
        clock: &Clock,
    ) -> (r: Result<(), AliazError>)
        requires
            old(self).wf(),
        ensures
            final(self).wf(),
            (final(self)@, error::seen(r)) == model::alias_upserted(
                old(self)@,
                collection_name@,
                name@,
                command@,
                id@,
                clock::time_of(*clock),
            ),
    {
        proof {
            laws::law_upsert_keeps_order(
                self@,
                collection_name@,
                name@,
                command@,
                id@,
                clock::time_of(*clock),
            );
        }
        if let Err(e) = validate_name(name) {
            return Err(e);
        }
        let i = match self.live_row(collection_name) {
            Ok(i) => i,
            Err(e) => {
                return Err(e);
            },
        };
        let now = match now_unix(clock) {
            Ok(now) => now,
            Err(e) => {
                return Err(e);
            },
        };
        let cid = self.tables.collections[i].id.clone();
        match self.tables.alias_row(cid.as_str(), name) {
            Some(k) => {
                let there = &self.tables.aliases[k];
                let row = AliasRow {
                    id: there.id.clone(),
                    collection_id: cid,
                    name: there.name.clone(),
                    command: command.to_owned(),
                    deleted: false,
                    dirty: true,
                    sync_version: there.sync_version,
                    created_at: there.created_at,
                    updated_at: now,
                };
                let ghost added = row@;
                self.tables.set_alias(k, row);
                assert(self@ =~= model::with_alias(old(self)@, added));
            },
            None => {
                if self.tables.alias_id_row(id.as_str()).is_some() {
                    return Err(AliazError::DuplicateAliasId);
                }
                let row = AliasRow {
                    id,
                    collection_id: cid,
                    name: name.to_owned(),
                    command: command.to_owned(),
                    deleted: false,
                    dirty: true,
                    sync_version: 0,
                    created_at: now,
                    updated_at: now,
                };
                self.tables.add_alias(row);
            },
        }
        Ok(())
    }

    /// Puts a command under a name in a collection. An alias that is new gets a random id.
    pub fn upsert_in_collection(
        &mut self,
        collection_name: &str,
        name: &str,
        command: &str,
        clock: &Clock,
    ) -> (r: Result<(), AliazError>)
        requires
            old(self).wf(),
        ensures
            final(self).wf(),
            exists|id: Seq<char>|
                #![trigger outside::is_random_uuid(id)]
                outside::is_random_uuid(id) && (final(self)@, error::seen(r))
                    == model::alias_upserted(
                    old(self)@,
                    collection_name@,
                    name@,
                    command@,
                    id,
                    clock::time_of(*clock),
                ),
    {
        let id = random_uuid();
        self.upsert_with_id(collection_name, name, command, id, clock)
    }

    /// Gives an alias another command. Returns the name of its collection.
    pub fn update_alias(
        &mut self,
        collection_name: Option<&str>,
        name: &str,
        command: &str,
        clock: &Clock,
    ) -> (r: Result<String, AliazError>)
        requires
            old(self).wf(),
        ensures
            final(self).wf(),
            (final(self)@, error::seen_text(r)) == model::alias_updated(
                old(self)@,
                text::seen_option(collection_name),
                name@,
                command@,
                clock::time_of(*clock),
            ),
    {
        proof {
            laws::law_update_keeps_order(
                self@,
                text::seen_option(collection_name),
                name@,
                command@,
                clock::time_of(*clock),
            );
        }
        if let Err(e) = validate_name(name) {
            return Err(e);
        }
        let i = match self.scope_row(collection_name, name) {
            Ok(i) => i,
            Err(e) => {
                return Err(e);
            },
        };
        let now = match now_unix(clock) {
            Ok(now) => now,
            Err(e) => {
                return Err(e);
            },
        };
        let cid = self.tables.collections[i].id.clone();
        let collection = self.tables.collections[i].name.clone();
        match self.tables.alias_row(cid.as_str(), name) {
            Some(k) => {
                let there = &self.tables.aliases[k];
                if there.deleted {
                    return Err(AliazError::AliasNotFound(name.to_owned()));
                }
                let row = AliasRow {
                    id: there.id.clone(),
                    collection_id: cid,
                    name: there.name.clone(),
                    command: command.to_owned(),
                    deleted: false,
                    dirty: true,
                    sync_version: there.sync_version,
                    created_at: there.created_at,
                    updated_at: now,
                };
                let ghost added = row@;
                self.tables.set_alias(k, row);
                assert(self@ =~= model::with_alias(old(self)@, added));
                Ok(collection)
            },
            None => Err(AliazError::AliasNotFound(name.to_owned())),
        }
    }

    /// Deletes an alias. Returns the name of its collection.
    pub fn delete_alias(
        &mut self,
        collection_name: Option<&str>,
        name: &str,
        clock: &Clock,
    ) -> (r: Result<String, AliazError>)
        requires
            old(self).wf(),
        ensures
            final(self).wf(),
            (final(self)@, error::seen_text(r)) == model::alias_deleted(
                old(self)@,
                text::seen_option(collection_name),
                name@,
                clock::time_of(*clock),
            ),
    {
        proof {
            laws::law_delete_keeps_order(
                self@,
                text::seen_option(collection_name),
                name@,
                clock::time_of(*clock),
            );
        }
        if let Err(e) = validate_name(name) {
            return Err(e);
        }
        let i = match self.scope_row(collection_name, name) {
            Ok(i) => i,
            Err(e) => {
                return Err(e);
            },
        };
        let now = match now_unix(clock) {
            Ok(now) => now,
            Err(e) => {
                return Err(e);
            },
        };
        let cid = self.tables.collections[i].id.clone();
        let collection = self.tables.collections[i].name.clone();
        match self.tables.alias_row(cid.as_str(), name) {
            Some(k) => {
                let there = &self.tables.aliases[k];
                if there.deleted {
                    return Err(AliazError::AliasNotFound(name.to_owned()));
                }
                let row = AliasRow {
                    id: there.id.clone(),
                    collection_id: cid,
                    name: there.name.clone(),
                    command: there.command.clone(),
                    deleted: true,
                    dirty: true,
                    sync_version: there.sync_version,
                    created_at: there.created_at,
                    updated_at: now,
                };
                let ghost added = row@;
                self.tables.set_alias(k, row);
                assert(self@ =~= model::with_alias(old(self)@, added));
                Ok(collection)
            },
            None => Err(AliazError::AliasNotFound(name.to_owned())),
        }
    }

    /// Moves an alias to another collection.
    pub fn move_alias(&mut self, name: &str, from: &str, to: &str, clock: &Clock) -> (r: Result<
        (),
        AliazError,
    >)
        requires
            old(self).wf(),
        ensures
            final(self).wf(),
            (final(self)@, error::seen(r)) == model::alias_moved(
                old(self)@,
                name@,
                from@,
                to@,
                clock::time_of(*clock),
            ),
    {
        proof {
            laws::law_move_keeps_order(self@, name@, from@, to@, clock::time_of(*clock));
        }
        if let Err(e) = validate_name(name) {
            return Err(e);
        }
        let source = match self.live_row(from) {
            Ok(i) => self.tables.collections[i].id.clone(),
            Err(e) => {
                return Err(e);
            },
        };
        let target = match self.live_row(to) {
            Ok(i) => self.tables.collections[i].id.clone(),
            Err(e) => {
                return Err(e);
            },
        };
        let taken = self.tables.alias_row(target.as_str(), name);
        if let Some(k) = taken {
            if !self.tables.aliases[k].deleted {
                return Err(AliazError::AliasExistsInTarget(name.to_owned()));
            }
        }
        let now = match now_unix(clock) {
            Ok(now) => now,
            Err(e) => {
                return Err(e);
            },
        };
        match self.tables.alias_row(source.as_str(), name) {
            Some(k) => {
                let there = &self.tables.aliases[k];
                if there.deleted {
                    return Err(AliazError::AliasNotFound(name.to_owned()));
                }
                if taken.is_some() {
                    return Err(AliazError::DuplicateAliasName);
                }
                let row = AliasRow {
                    id: there.id.clone(),
                    collection_id: target,
                    name: there.name.clone(),
                    command: there.command.clone(),
                    deleted: there.deleted,
                    dirty: true,
                    sync_version: there.sync_version,
                    created_at: there.created_at,
                    updated_at: now,
                };
                self.tables.set_alias(k, row);
                Ok(())
            },
            None => Err(AliazError::AliasNotFound(name.to_owned())),
        }
    }
}

// ---------------------------------------------------------------------------
// What the rows become
// ---------------------------------------------------------------------------
/// No two rows of a table may have the same key: ids and names of collections, marks, ids of
/// aliases, names of aliases in one collection, and ids of backups. The first table with a fault is
/// named.
pub proof fn law_key_fault(t: Tables)
    ensures
        key_fault(t) is None <==> {
            &&& forall|i: int, j: int|
                0 <= i < j < t.collections@.len() ==> (#[trigger] t.collections@[i]).id@ != (
                #[trigger] t.collections@[j]).id@ && t.collections@[i].name@
                    != t.collections@[j].name@
            &&& forall|i: int, j: int|
                0 <= i < j < t.active@.len() ==> (#[trigger] t.active@[i]).collection_id@ != (
                #[trigger] t.active@[j]).collection_id@
            &&& forall|i: int, j: int|
                0 <= i < j < t.aliases@.len() ==> (#[trigger] t.aliases@[i]).id@ != (
                #[trigger] t.aliases@[j]).id@ && (t.aliases@[i].collection_id@
                    != t.aliases@[j].collection_id@ || t.aliases@[i].name@ != t.aliases@[j].name@)
            &&& forall|i: int, j: int|
                0 <= i < j < t.backups@.len() ==> (#[trigger] t.backups@[i]).id@ != (
                #[trigger] t.backups@[j]).id@
        },
        (exists|i: int, j: int|
            0 <= i < j < t.collections@.len() && (#[trigger] t.collections@[i]).id@ == (
            #[trigger] t.collections@[j]).id@) ==> key_fault(t) == Some(
            Failure::DuplicateCollectionId,
        ),
        key_fault(t) == Some(Failure::DuplicateCollectionName) ==> exists|i: int, j: int|
            0 <= i < j < t.collections@.len() && (#[trigger] t.collections@[i]).name@ == (
            #[trigger] t.collections@[j]).name@,
        key_fault(t) == Some(Failure::DuplicateActiveCollection) ==> exists|i: int, j: int|
            0 <= i < j < t.active@.len() && (#[trigger] t.active@[i]).collection_id@ == (
            #[trigger] t.active@[j]).collection_id@,
        key_fault(t) == Some(Failure::DuplicateAliasId) ==> exists|i: int, j: int|
            0 <= i < j < t.aliases@.len() && (#[trigger] t.aliases@[i]).id@ == (
            #[trigger] t.aliases@[j]).id@,
        key_fault(t) == Some(Failure::DuplicateAliasName) ==> exists|i: int, j: int|
            0 <= i < j < t.aliases@.len() && (#[trigger] t.aliases@[i]).name@ == (
            #[trigger] t.aliases@[j]).name@ && t.aliases@[i].collection_id@
                == t.aliases@[j].collection_id@,
        key_fault(t) == Some(Failure::DuplicateBackupId) ==> exists|i: int, j: int|
            0 <= i < j < t.backups@.len() && (#[trigger] t.backups@[i]).id@ == (
            #[trigger] t.backups@[j]).id@,
{
    lemma_distinct_is(t.collections@, model::collection_key());
    lemma_distinct_is(t.collections@, model::collection_name_key());
    lemma_distinct_is(t.active@, model::active_key());
    lemma_distinct_is(t.aliases@, model::alias_id_key());
    lemma_distinct_is(t.aliases@, model::alias_key());
    lemma_distinct_is(t.backups@, model::backup_key());
}

proof fn lemma_distinct_is<K, R: View>(all: Seq<R>, key: spec_fn(R::V) -> K)
    ensures
        table::distinct(rows::recs(all), key) <==> forall|i: int, j: int|
            0 <= i < j < all.len() ==> key((#[trigger] all[i])@) != key((#[trigger] all[j])@),
{
    let seen = rows::recs(all);
    if table::distinct(seen, key) {
        assert forall|i: int, j: int| 0 <= i < j < all.len() implies key((#[trigger] all[i])@)
            != key((#[trigger] all[j])@) by {
            assert(seen[i] == all[i]@ && seen[j] == all[j]@);
        }
    }
    if forall|i: int, j: int|
        0 <= i < j < all.len() ==> key((#[trigger] all[i])@) != key((#[trigger] all[j])@) {
        assert forall|i: int, j: int| 0 <= i < j < seen.len() implies key(#[trigger] seen[i])
            != key(#[trigger] seen[j]) by {
            assert(seen[i] == all[i]@ && seen[j] == all[j]@);
        }
    }
}

/// Every row of aliases and of backups is in the store that was opened, as it was found, and nothing
/// else is; so are the collections and marks other than those of the shared collection.
pub proof fn law_opened_holds_rows(t: Tables, now: Option<i64>)
    requires
        opened(t, now) is Ok,
    ensures
        ({
            let st = opened(t, now)->Ok_0;
            let shared = "collection:shared"@;
            &&& forall|i: int|
                0 <= i < t.aliases@.len() ==> {
                    let row = #[trigger] t.aliases@[i];
                    let key = (row.collection_id@, row.name@);
                    &&& st.aliases.contains_key(key)
                    &&& st.aliases[key].id == row.id@
                    &&& st.aliases[key].command == row.command@
                    &&& st.aliases[key].deleted == row.deleted
                    &&& st.aliases[key].dirty == row.dirty
                    &&& st.aliases[key].sync_version == row.sync_version
                    &&& st.aliases[key].created_at == row.created_at
                    &&& st.aliases[key].updated_at == row.updated_at
                }
            &&& forall|k: model::AliasKey| #[trigger]
                st.aliases.contains_key(k) ==> exists|i: int|
                    0 <= i < t.aliases@.len() && (#[trigger] t.aliases@[i]).collection_id@ == k.0
                        && t.aliases@[i].name@ == k.1
            &&& forall|i: int|
                0 <= i < t.collections@.len() ==> {
                    let row = #[trigger] t.collections@[i];
                    row.id@ != shared ==> {
                        &&& st.collections.contains_key(row.id@)
                        &&& st.collections[row.id@].name == row.name@
                        &&& st.collections[row.id@].deleted == row.deleted
                        &&& st.collections[row.id@].dirty == row.dirty
                        &&& st.collections[row.id@].sync_version == row.sync_version
                        &&& st.collections[row.id@].created_at == row.created_at
                        &&& st.collections[row.id@].updated_at == row.updated_at
                    }
                }
            &&& forall|id: Seq<char>| #[trigger]
                st.collections.contains_key(id) && id != shared ==> exists|i: int|
                    0 <= i < t.collections@.len() && (#[trigger] t.collections@[i]).id@ == id
            &&& forall|i: int|
                0 <= i < t.active@.len() ==> {
                    let row = #[trigger] t.active@[i];
                    row.collection_id@ != shared ==> st.active.contains_key(row.collection_id@)
                        && st.active[row.collection_id@].priority == row.priority
                }
            &&& forall|id: Seq<char>| #[trigger]
                st.active.contains_key(id) && id != shared ==> exists|i: int|
                    0 <= i < t.active@.len() && (#[trigger] t.active@[i]).collection_id@ == id
            &&& forall|i: int|
                0 <= i < t.backups@.len() ==> {
                    let row = #[trigger] t.backups@[i];
                    &&& st.backups.contains_key(row.id@)
                    &&& st.backups[row.id@].alias_name == row.alias_name@
                    &&& st.backups[row.id@].command == row.command@
                    &&& st.backups[row.id@].remote_version == row.remote_version
                    &&& st.backups[row.id@].created_at == row.created_at
                }
        }),
{
    let st = opened(t, now)->Ok_0;
    let shared = DEFAULT_COLLECTION_ID@;
    law_open_keeps_aliases(t, now);
    let collections = rows::recs(t.collections@);
    let active = rows::recs(t.active@);
    let aliases = rows::recs(t.aliases@);
    let backups = rows::recs(t.backups@);
    assert forall|i: int| 0 <= i < t.aliases@.len() implies t@.aliases.contains_key(
        ((#[trigger] t.aliases@[i]).collection_id@, t.aliases@[i].name@),
    ) && t@.aliases[(t.aliases@[i].collection_id@, t.aliases@[i].name@)] == t.aliases@[i]@ by {
        assert(aliases[i] == t.aliases@[i]@);
        table::lemma_row(aliases, model::alias_key(), i);
    }
    assert forall|k: model::AliasKey| #[trigger] st.aliases.contains_key(k) implies exists|i: int|
        0 <= i < t.aliases@.len() && (#[trigger] t.aliases@[i]).collection_id@ == k.0
            && t.aliases@[i].name@ == k.1 by {
        let i = table::lemma_key(aliases, model::alias_key(), k);
        assert(aliases[i] == t.aliases@[i]@);
    }
    assert forall|i: int| 0 <= i < t.collections@.len() && (#[trigger] t.collections@[i]).id@
        != shared implies st.collections.contains_key(t.collections@[i].id@)
        && st.collections[t.collections@[i].id@] == t.collections@[i]@ by {
        let id = t.collections@[i].id@;
        assert(collections[i] == t.collections@[i]@);
        table::lemma_row(collections, model::collection_key(), i);
        assert(t@.collections.remove(shared).contains_key(id));
        assert(st.collections.remove(shared)[id] == t@.collections.remove(shared)[id]);
    }
    assert forall|id: Seq<char>| #[trigger]
        st.collections.contains_key(id) && id != shared implies exists|i: int|
        0 <= i < t.collections@.len() && (#[trigger] t.collections@[i]).id@ == id by {
        assert(st.collections.remove(shared).contains_key(id));
        assert(t@.collections.contains_key(id));
        let i = table::lemma_key(collections, model::collection_key(), id);
        assert(collections[i] == t.collections@[i]@);
    }
    assert forall|i: int| 0 <= i < t.active@.len() && (#[trigger] t.active@[i]).collection_id@
        != shared implies st.active.contains_key(t.active@[i].collection_id@)
        && st.active[t.active@[i].collection_id@] == t.active@[i]@ by {
        let id = t.active@[i].collection_id@;
        assert(active[i] == t.active@[i]@);
        table::lemma_row(active, model::active_key(), i);
        assert(t@.active.remove(shared).contains_key(id));
        assert(st.active.remove(shared)[id] == t@.active.remove(shared)[id]);
    }
    assert forall|id: Seq<char>| #[trigger]
        st.active.contains_key(id) && id != shared implies exists|i: int|
        0 <= i < t.active@.len() && (#[trigger] t.active@[i]).collection_id@ == id by {
        assert(st.active.remove(shared).contains_key(id));
        assert(t@.active.contains_key(id));
        let i = table::lemma_key(active, model::active_key(), id);
        assert(active[i] == t.active@[i]@);
    }
    assert forall|i: int| 0 <= i < t.backups@.len() implies st.backups.contains_key(
        (#[trigger] t.backups@[i]).id@,
    ) && st.backups[t.backups@[i].id@] == t.backups@[i]@ by {
        assert(backups[i] == t.backups@[i]@);
        table::lemma_row(backups, model::backup_key(), i);
    }
}

/// Tables without a fault are opened unless there is no time or another collection than the shared
/// one has its name; otherwise the fault is what is said.
pub proof fn law_open_is_owed(t: Tables, now: Option<i64>)
    ensures
        key_fault(t) matches Some(f) ==> opened(t, now) == Err::<StoreState, Failure>(f),
        key_fault(t) is None && now is None ==> opened(t, now) == Err::<StoreState, Failure>(
            Failure::ClockBeforeEpoch,
        ),
        key_fault(t) is None && now is Some && (forall|i: int|
            0 <= i < t.collections@.len() && (#[trigger] t.collections@[i]).name@ == "shared"@
                ==> t.collections@[i].id@ == "collection:shared"@) ==> opened(t, now) is Ok,
        forall|i: int|
            key_fault(t) is None && now is Some && 0 <= i < t.collections@.len() && (
            #[trigger] t.collections@[i]).name@ == "shared"@ && t.collections@[i].id@
                != "collection:shared"@ ==> opened(t, now) == Err::<StoreState, Failure>(
                Failure::DuplicateCollectionName,
            ),
{
    let collections = rows::recs(t.collections@);
    let shared = DEFAULT_COLLECTION_ID@;
    let name = DEFAULT_COLLECTION_NAME@;
    if key_fault(t) is None && now is Some {
        if exists|other: Seq<char>| other != shared && model::has_name(t@, other, name) {
            let other = choose|other: Seq<char>|
                other != shared && model::has_name(t@, other, name);
            let i = table::lemma_key(collections, model::collection_key(), other);
            assert(collections[i] == t.collections@[i]@);
        }
        assert forall|i: int|
            0 <= i < t.collections@.len() && (#[trigger] t.collections@[i]).name@ == "shared"@
                && t.collections@[i].id@ != "collection:shared"@ implies opened(t, now) == Err::<
            StoreState,
            Failure,
        >(Failure::DuplicateCollectionName) by {
            assert(collections[i] == t.collections@[i]@);
            table::lemma_row(collections, model::collection_key(), i);
            assert(model::has_name(t@, t.collections@[i].id@, name));
        }
    }
}

/// What is shown of an alias and of a collection are their own fields.
pub proof fn law_shown_fields(a: Alias, c: Collection)
    ensures
        a@.id == a.id@ && a@.collection_id == a.collection_id@ && a@.collection_name
            == a.collection_name@ && a@.name == a.name@ && a@.command == a.command@,
        a@.deleted == a.deleted && a@.dirty == a.dirty && a@.sync_version == a.sync_version
            && a@.updated_at == a.updated_at,
        c@.id == c.id@ && c@.name == c.name@ && c@.deleted == c.deleted && c@.dirty == c.dirty,
        c@.sync_version == c.sync_version && c@.updated_at == c.updated_at && c@.active == c.active
            && c@.priority == c.priority,
{
}

} // verus!
