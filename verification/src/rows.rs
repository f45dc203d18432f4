//! The tables in which everything is stored, row by row.

use vstd::prelude::*;

use crate::model;
use crate::model::{
    ActiveRec,
    AliasKey,
    AliasRec,
    BackupRec,
    CollectionRec,
    StoreState,
};
use crate::table;
use crate::text::same_text;

verus! {

/// A row of the table of collections.
#[derive(Debug)]
pub struct CollectionRow {
    pub id: String,
    pub name: String,
    pub deleted: bool,
    pub dirty: bool,
    pub sync_version: i64,
    pub created_at: i64,
    pub updated_at: i64,
}

/// A row of the table of active collections.
#[derive(Debug)]
pub struct ActiveRow {
    pub collection_id: String,
    pub priority: i64,
}

/// A row of the table of aliases.
#[derive(Debug)]
pub struct AliasRow {
    pub id: String,
    pub collection_id: String,
    pub name: String,
    pub command: String,
    pub deleted: bool,
    pub dirty: bool,
    pub sync_version: i64,
    pub created_at: i64,
    pub updated_at: i64,
}

/// A row of the table of backups.
#[derive(Debug)]
pub struct BackupRow {
    pub id: String,
    pub alias_name: String,
    pub command: String,
    pub remote_version: i64,
    pub created_at: i64,
}

/// The four tables.
#[derive(Debug)]
pub struct Tables {
    pub collections: Vec<CollectionRow>,
    pub active: Vec<ActiveRow>,
    pub aliases: Vec<AliasRow>,
    pub backups: Vec<BackupRow>,
}

impl View for CollectionRow {
    type V = CollectionRec;

    open spec fn view(&self) -> CollectionRec {
        CollectionRec {
            id: self.id@,
            name: self.name@,
            deleted: self.deleted,
            dirty: self.dirty,
            sync_version: self.sync_version,
            created_at: self.created_at,
            updated_at: self.updated_at,
        }
    }
}

impl View for ActiveRow {
    type V = ActiveRec;

    open spec fn view(&self) -> ActiveRec {
        ActiveRec { collection_id: self.collection_id@, priority: self.priority }
    }
}

impl View for AliasRow {
    type V = AliasRec;

    open spec fn view(&self) -> AliasRec {
        AliasRec {
            id: self.id@,
            collection_id: self.collection_id@,
            name: self.name@,
            command: self.command@,
            deleted: self.deleted,
            dirty: self.dirty,
            sync_version: self.sync_version,
            created_at: self.created_at,
            updated_at: self.updated_at,
        }
    }
}

impl View for BackupRow {
    type V = BackupRec;

    open spec fn view(&self) -> BackupRec {
        BackupRec {
            id: self.id@,
            alias_name: self.alias_name@,
            command: self.command@,
            remote_version: self.remote_version,
            created_at: self.created_at,
        }
    }
}

/// The records that a vector of rows holds.
pub open spec fn recs<R: View>(rows: Seq<R>) -> Seq<R::V> {
    rows.map_values(|r: R| r@)
}

impl View for Tables {
    type V = StoreState;

    open spec fn view(&self) -> StoreState {
        StoreState {
            collections: table::table(recs(self.collections@), model::collection_key()),
            active: table::table(recs(self.active@), model::active_key()),
            aliases: table::table(recs(self.aliases@), model::alias_key()),
            backups: table::table(recs(self.backups@), model::backup_key()),
        }
    }
}

impl Tables {
    /// No key occurs twice in a table.
    pub open spec fn keyed(&self) -> bool {
        &&& table::distinct(recs(self.collections@), model::collection_key())
        &&& table::distinct(recs(self.active@), model::active_key())
        &&& table::distinct(recs(self.aliases@), model::alias_key())
        &&& table::distinct(recs(self.backups@), model::backup_key())
    }

    /// The row of the collection with the given id.
    pub fn collection_row(&self, id: &str) -> (r: Option<usize>)
        requires
            self.keyed(),
        ensures
            match r {
                Some(i) => i < self.collections@.len() && self.collections@[i as int].id@ == id@
                    && self@.collections.contains_key(id@) && self@.collections[id@]
                    == self.collections@[i as int]@,
                None => !self@.collections.contains_key(id@),
            },
    {
        let ghost all = recs(self.collections@);
        for i in 0..self.collections.len()
            invariant
                self.keyed(),
                all == recs(self.collections@),
                forall|k: int| 0 <= k < i ==> (#[trigger] all[k]).id != id@,
        {
            assert(all[i as int] == self.collections@[i as int]@);
            if same_text(self.collections[i].id.as_str(), id) {
                proof {
                    table::lemma_row(all, model::collection_key(), i as int);
                }
                return Some(i);
            }
        }
        proof {
            if self@.collections.contains_key(id@) {
                let k = table::lemma_key(all, model::collection_key(), id@);
                assert(all[k].id == id@);
            }
        }
        None
    }

    /// The row of the collection with the given name.
    pub fn named_row(&self, name: &str) -> (r: Option<usize>)
        requires
            self.keyed(),
            model::keys_agree(self@),
        ensures
            match r {
                Some(i) => {
                    &&& i < self.collections@.len()
                    &&& self.collections@[i as int].name@ == name@
                    &&& model::id_of_name(self@, name@) == Some(self.collections@[i as int].id@)
                    &&& self@.collections.contains_key(self.collections@[i as int].id@)
                    &&& self@.collections[self.collections@[i as int].id@]
                        == self.collections@[i as int]@
                },
                None => model::id_of_name(self@, name@) is None,
            },
    {
        let ghost all = recs(self.collections@);
        for i in 0..self.collections.len()
            invariant
                self.keyed(),
                model::keys_agree(self@),
                all == recs(self.collections@),
                forall|k: int| 0 <= k < i ==> (#[trigger] all[k]).name != name@,
        {
            assert(all[i as int] == self.collections@[i as int]@);
            if same_text(self.collections[i].name.as_str(), name) {
                proof {
                    table::lemma_row(all, model::collection_key(), i as int);
                    lemma_id_of_name(self@, all[i as int].id);
                }
                return Some(i);
            }
        }
        proof {
            if model::id_of_name(self@, name@) is Some {
                let id = choose|id: Seq<char>| model::has_name(self@, id, name@);
                let k = table::lemma_key(all, model::collection_key(), id);
                assert(all[k].name == name@);
            }
        }
        None
    }

    /// The row that marks a collection as active.
    pub fn active_row(&self, id: &str) -> (r: Option<usize>)
        requires
            self.keyed(),
        ensures
            match r {
                Some(i) => i < self.active@.len() && self.active@[i as int].collection_id@ == id@
                    && self@.active.contains_key(id@) && self@.active[id@]
                    == self.active@[i as int]@,
                None => !self@.active.contains_key(id@),
            },
    {
        let ghost all = recs(self.active@);
        for i in 0..self.active.len()
            invariant
                self.keyed(),
                all == recs(self.active@),
                forall|k: int| 0 <= k < i ==> (#[trigger] all[k]).collection_id != id@,
        {
            assert(all[i as int] == self.active@[i as int]@);
            if same_text(self.active[i].collection_id.as_str(), id) {
                proof {
                    table::lemma_row(all, model::active_key(), i as int);
                }
                return Some(i);
            }
        }
        proof {
            if self@.active.contains_key(id@) {
                let k = table::lemma_key(all, model::active_key(), id@);
                assert(all[k].collection_id == id@);
            }
        }
        None
    }

    /// The row of an alias of a collection.
    pub fn alias_row(&self, collection_id: &str, name: &str) -> (r: Option<usize>)
        requires
            self.keyed(),
        ensures
            match r {
                Some(i) => i < self.aliases@.len() && self.aliases@[i as int].collection_id@
                    == collection_id@ && self.aliases@[i as int].name@ == name@
                    && self@.aliases.contains_key((collection_id@, name@))
                    && self@.aliases[(collection_id@, name@)] == self.aliases@[i as int]@,
                None => !self@.aliases.contains_key((collection_id@, name@)),
            },
    {
        let ghost all = recs(self.aliases@);
        let ghost key: AliasKey = (collection_id@, name@);
        for i in 0..self.aliases.len()
            invariant
                self.keyed(),
                all == recs(self.aliases@),
                key == (collection_id@, name@),
                forall|k: int|
                    0 <= k < i ==> ((#[trigger] all[k]).collection_id, all[k].name) != key,
        {
            assert(all[i as int] == self.aliases@[i as int]@);
            if same_text(self.aliases[i].name.as_str(), name) && same_text(
                self.aliases[i].collection_id.as_str(),
                collection_id,
            ) {
                proof {
                    table::lemma_row(all, model::alias_key(), i as int);
                }
                return Some(i);
            }
        }
        proof {
            if self@.aliases.contains_key(key) {
                let k = table::lemma_key(all, model::alias_key(), key);
                assert((all[k].collection_id, all[k].name) == key);
            }
        }
        None
    }

    /// The row of the alias with the given id.
    pub fn alias_id_row(&self, id: &str) -> (r: Option<usize>)
        requires
            self.keyed(),
        ensures
            match r {
                Some(i) => {
                    let row = self.aliases@[i as int]@;
                    &&& i < self.aliases@.len()
                    &&& row.id == id@
                    &&& self@.aliases.contains_key((row.collection_id, row.name))
                    &&& self@.aliases[(row.collection_id, row.name)] == row
                },
                None => !model::alias_id_taken(self@, id@),
            },
    {
        let ghost all = recs(self.aliases@);
        for i in 0..self.aliases.len()
            invariant
                self.keyed(),
                all == recs(self.aliases@),
                forall|k: int| 0 <= k < i ==> (#[trigger] all[k]).id != id@,
        {
            assert(all[i as int] == self.aliases@[i as int]@);
            if same_text(self.aliases[i].id.as_str(), id) {
                proof {
                    table::lemma_row(all, model::alias_key(), i as int);
                }
                return Some(i);
            }
        }
        proof {
            if model::alias_id_taken(self@, id@) {
                let key = choose|key: AliasKey| #[trigger]
                    self@.aliases.contains_key(key) && self@.aliases[key].id == id@;
                let k = table::lemma_key(all, model::alias_key(), key);
                assert(all[k].id == id@);
            }
        }
        None
    }

    /// Whether a backup has the given id.
    pub fn has_backup(&self, id: &str) -> (r: bool)
        requires
            self.keyed(),
        ensures
            r == self@.backups.contains_key(id@),
    {
        let ghost all = recs(self.backups@);
        for i in 0..self.backups.len()
            invariant
                self.keyed(),
                all == recs(self.backups@),
                forall|k: int| 0 <= k < i ==> (#[trigger] all[k]).id != id@,
        {
            assert(all[i as int] == self.backups@[i as int]@);
            if same_text(self.backups[i].id.as_str(), id) {
                proof {
                    table::lemma_row(all, model::backup_key(), i as int);
                }
                return true;
            }
        }
        proof {
            if self@.backups.contains_key(id@) {
                let k = table::lemma_key(all, model::backup_key(), id@);
                assert(all[k].id == id@);
            }
        }
        false
    }

    /// Adds a collection with an id of its own.
    pub fn add_collection(&mut self, row: CollectionRow)
        requires
            old(self).keyed(),
            !old(self)@.collections.contains_key(row.id@),
        ensures
            final(self).keyed(),
            final(self)@ == model::with_collection(old(self)@, row@),
    {
        let ghost before = recs(self.collections@);
        proof {
            table::lemma_push(before, model::collection_key(), row@);
        }
        let ghost added = row@;
        self.collections.push(row);
        assert(recs(self.collections@) =~= before.push(added));
    }

    /// Replaces the row of a collection by one with the same id.
    pub fn set_collection(&mut self, i: usize, row: CollectionRow)
        requires
            old(self).keyed(),
            i < old(self).collections@.len(),
            old(self).collections@[i as int].id@ == row.id@,
        ensures
            final(self).keyed(),
            final(self)@ == model::with_collection(old(self)@, row@),
    {
        let ghost before = recs(self.collections@);
        let ghost added = row@;
        proof {
            table::lemma_update(before, model::collection_key(), i as int, added);
        }
        self.collections.set(i, row);
        assert(recs(self.collections@) =~= before.update(i as int, added));
        assert(self@.collections =~= old(self)@.collections.insert(added.id, added));
    }

    /// Marks a collection as active that is not.
    pub fn add_active(&mut self, row: ActiveRow)
        requires
            old(self).keyed(),
            !old(self)@.active.contains_key(row.collection_id@),
        ensures
            final(self).keyed(),
            final(self)@ == (StoreState {
                active: old(self)@.active.insert(row.collection_id@, row@),
                ..old(self)@
            }),
    {
        let ghost before = recs(self.active@);
        let ghost added = row@;
        proof {
            table::lemma_push(before, model::active_key(), row@);
        }
        self.active.push(row);
        assert(recs(self.active@) =~= before.push(added));
    }

    /// Changes the priority of an active collection.
    pub fn set_active(&mut self, i: usize, row: ActiveRow)
        requires
            old(self).keyed(),
            i < old(self).active@.len(),
            old(self).active@[i as int].collection_id@ == row.collection_id@,
        ensures
            final(self).keyed(),
            final(self)@ == (StoreState {
                active: old(self)@.active.insert(row.collection_id@, row@),
                ..old(self)@
            }),
    {
        let ghost before = recs(self.active@);
        let ghost added = row@;
        proof {
            table::lemma_update(before, model::active_key(), i as int, added);
        }
        self.active.set(i, row);
        assert(recs(self.active@) =~= before.update(i as int, added));
        assert(self@.active =~= old(self)@.active.insert(added.collection_id, added));
    }

    /// Takes the mark off an active collection.
    pub fn remove_active(&mut self, i: usize)
        requires
            old(self).keyed(),
            i < old(self).active@.len(),
        ensures
            final(self).keyed(),
            final(self)@ == (StoreState {
                active: old(self)@.active.remove(old(self).active@[i as int].collection_id@),
                ..old(self)@
            }),
    {
        let ghost before = recs(self.active@);
        proof {
            table::lemma_remove(before, model::active_key(), i as int);
        }
        self.active.remove(i);
        assert(recs(self.active@) =~= before.remove(i as int));
    }

    /// Adds an alias under a name that its collection does not have.
    pub fn add_alias(&mut self, row: AliasRow)
        requires
            old(self).keyed(),
            !old(self)@.aliases.contains_key((row.collection_id@, row.name@)),
        ensures
            final(self).keyed(),
            final(self)@ == model::with_alias(old(self)@, row@),
    {
        let ghost before = recs(self.aliases@);
        let ghost added = row@;
        proof {
            table::lemma_push(before, model::alias_key(), row@);
        }
        self.aliases.push(row);
        assert(recs(self.aliases@) =~= before.push(added));
    }

    /// Replaces the row of an alias by one with the same collection and name, or with a collection
    /// and a name that no alias has.
    pub fn set_alias(&mut self, i: usize, row: AliasRow)
        requires
            old(self).keyed(),
            i < old(self).aliases@.len(),
            (row.collection_id@ == old(self).aliases@[i as int].collection_id@ && row.name@
                == old(self).aliases@[i as int].name@) || !old(self)@.aliases.contains_key(
                (row.collection_id@, row.name@),
            ),
        ensures
            final(self).keyed(),
            final(self)@ == (StoreState {
                aliases: old(self)@.aliases.remove(
                    (
                        old(self).aliases@[i as int].collection_id@,
                        old(self).aliases@[i as int].name@,
                    ),
                ).insert((row.collection_id@, row.name@), row@),
                ..old(self)@
            }),
    {
        let ghost before = recs(self.aliases@);
        let ghost added = row@;
        assert(before[i as int] == self.aliases@[i as int]@);
        proof {
            table::lemma_update(before, model::alias_key(), i as int, added);
        }
        self.aliases.set(i, row);
        assert(recs(self.aliases@) =~= before.update(i as int, added));
    }

    /// Adds a backup with an id of its own.
    pub fn add_backup(&mut self, row: BackupRow)
        requires
            old(self).keyed(),
            !old(self)@.backups.contains_key(row.id@),
        ensures
            final(self).keyed(),
            final(self)@ == (StoreState {
                backups: old(self)@.backups.insert(row.id@, row@),
                ..old(self)@
            }),
            final(self).aliases == old(self).aliases,
    {
        let ghost before = recs(self.backups@);
        let ghost added = row@;
        proof {
            table::lemma_push(before, model::backup_key(), row@);
        }
        self.backups.push(row);
        assert(recs(self.backups@) =~= before.push(added));
    }
}

/// Only one collection has a given name.
pub proof fn lemma_id_of_name(st: StoreState, id: Seq<char>)
    requires
        model::keys_agree(st),
        st.collections.contains_key(id),
    ensures
        model::id_of_name(st, st.collections[id].name) == Some(id),
{
    let name = st.collections[id].name;
    assert(model::has_name(st, id, name));
    let other = choose|other: Seq<char>| model::has_name(st, other, name);
    assert(model::has_name(st, other, name));
}

// ---------------------------------------------------------------------------
// Looking for keys that occur twice
// ---------------------------------------------------------------------------

/// Whether no two collections have the same id.
pub fn collection_ids_differ(rows: &Vec<CollectionRow>) -> (r: bool)
    ensures
        r == table::distinct(recs(rows@), model::collection_key()),
{
    for i in 0..rows.len()
        invariant
            forall|a: int, b: int|
                0 <= a < b < i ==> (#[trigger] rows@[a]).id@ != (#[trigger] rows@[b]).id@,
    {
        for j in 0..i
            invariant
                i < rows@.len(),
                forall|a: int, b: int|
                    0 <= a < b < i ==> (#[trigger] rows@[a]).id@ != (#[trigger] rows@[b]).id@,
                forall|a: int| 0 <= a < j ==> (#[trigger] rows@[a]).id@ != rows@[i as int].id@,
        {
            if same_text(rows[j].id.as_str(), rows[i].id.as_str()) {
                let ghost all = recs(rows@);
                assert(all[j as int] == rows@[j as int]@ && all[i as int] == rows@[i as int]@);
                return false;
            }
        }
    }
    true
}

/// Whether no two collections have the same name.
pub fn collection_names_differ(rows: &Vec<CollectionRow>) -> (r: bool)
    ensures
        r == table::distinct(recs(rows@), model::collection_name_key()),
{
    for i in 0..rows.len()
        invariant
            forall|a: int, b: int|
                0 <= a < b < i ==> (#[trigger] rows@[a]).name@ != (#[trigger] rows@[b]).name@,
    {
        for j in 0..i
            invariant
                i < rows@.len(),
                forall|a: int, b: int|
                    0 <= a < b < i ==> (#[trigger] rows@[a]).name@ != (#[trigger] rows@[b]).name@,
                forall|a: int| 0 <= a < j ==> (#[trigger] rows@[a]).name@ != rows@[i as int].name@,
        {
            if same_text(rows[j].name.as_str(), rows[i].name.as_str()) {
                let ghost all = recs(rows@);
                assert(all[j as int] == rows@[j as int]@ && all[i as int] == rows@[i as int]@);
                return false;
            }
        }
    }
    true
}

/// Whether no collection is marked active twice.
pub fn active_ids_differ(rows: &Vec<ActiveRow>) -> (r: bool)
    ensures
        r == table::distinct(recs(rows@), model::active_key()),
{
    for i in 0..rows.len()
        invariant
            forall|a: int, b: int|
                0 <= a < b < i ==> (#[trigger] rows@[a]).collection_id@ != (#[trigger] rows@[b]).collection_id@,
    {
        for j in 0..i
            invariant
                i < rows@.len(),
                forall|a: int, b: int|
                    0 <= a < b < i ==> (#[trigger] rows@[a]).collection_id@ != (#[trigger] rows@[b]).collection_id@,
                forall|a: int| 0 <= a < j ==> (#[trigger] rows@[a]).collection_id@ != rows@[i as int].collection_id@,
        {
            if same_text(rows[j].collection_id.as_str(), rows[i].collection_id.as_str()) {
                let ghost all = recs(rows@);
                assert(all[j as int] == rows@[j as int]@ && all[i as int] == rows@[i as int]@);
                return false;
            }
        }
    }
    true
}

/// Whether no two aliases have the same id.
pub fn alias_ids_differ(rows: &Vec<AliasRow>) -> (r: bool)
    ensures
        r == table::distinct(recs(rows@), model::alias_id_key()),
{
    for i in 0..rows.len()
        invariant
            forall|a: int, b: int|
                0 <= a < b < i ==> (#[trigger] rows@[a]).id@ != (#[trigger] rows@[b]).id@,
    {
        for j in 0..i
            invariant
                i < rows@.len(),
                forall|a: int, b: int|
                    0 <= a < b < i ==> (#[trigger] rows@[a]).id@ != (#[trigger] rows@[b]).id@,
                forall|a: int| 0 <= a < j ==> (#[trigger] rows@[a]).id@ != rows@[i as int].id@,
        {
            if same_text(rows[j].id.as_str(), rows[i].id.as_str()) {
                let ghost all = recs(rows@);
                assert(all[j as int] == rows@[j as int]@ && all[i as int] == rows@[i as int]@);
                return false;
            }
        }
    }
    true
}

/// Whether no two aliases of a collection have the same name.
pub fn alias_names_differ(rows: &Vec<AliasRow>) -> (r: bool)
    ensures
        r == table::distinct(recs(rows@), model::alias_key()),
{
    for i in 0..rows.len()
        invariant
            forall|a: int, b: int|
                0 <= a < b < i ==> ((#[trigger] rows@[a]).collection_id@, (#[trigger] rows@[a]).name@) != ((#[trigger] rows@[b]).collection_id@, (#[trigger] rows@[b]).name@),
    {
        for j in 0..i
            invariant
                i < rows@.len(),
                forall|a: int, b: int|
                    0 <= a < b < i ==> ((#[trigger] rows@[a]).collection_id@, (#[trigger] rows@[a]).name@) != ((#[trigger] rows@[b]).collection_id@, (#[trigger] rows@[b]).name@),
                forall|a: int| 0 <= a < j ==> ((#[trigger] rows@[a]).collection_id@, (#[trigger] rows@[a]).name@) != (rows@[i as int].collection_id@, rows@[i as int].name@),
        {
            if same_text(rows[j].collection_id.as_str(), rows[i].collection_id.as_str()) && same_text(rows[j].name.as_str(), rows[i].name.as_str()) {
                let ghost all = recs(rows@);
                assert(all[j as int] == rows@[j as int]@ && all[i as int] == rows@[i as int]@);
                return false;
            }
        }
    }
    true
}

/// Whether no two backups have the same id.
pub fn backup_ids_differ(rows: &Vec<BackupRow>) -> (r: bool)
    ensures
        r == table::distinct(recs(rows@), model::backup_key()),
{
    for i in 0..rows.len()
        invariant
            forall|a: int, b: int|
                0 <= a < b < i ==> (#[trigger] rows@[a]).id@ != (#[trigger] rows@[b]).id@,
    {
        for j in 0..i
            invariant
                i < rows@.len(),
                forall|a: int, b: int|
                    0 <= a < b < i ==> (#[trigger] rows@[a]).id@ != (#[trigger] rows@[b]).id@,
                forall|a: int| 0 <= a < j ==> (#[trigger] rows@[a]).id@ != rows@[i as int].id@,
        {
            if same_text(rows[j].id.as_str(), rows[i].id.as_str()) {
                let ghost all = recs(rows@);
                assert(all[j as int] == rows@[j as int]@ && all[i as int] == rows@[i as int]@);
                return false;
            }
        }
    }
    true
}

} // verus!
