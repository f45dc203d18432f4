//! Tables of earlier versions: which columns they lack, and how their rows are completed.

use vstd::prelude::*;

use crate::clock;
use crate::clock::{now_unix, Clock};
use crate::error::{AliazError, Failure};
use crate::model;
use crate::model::{AliasInfo, AliasKey, AliasRec, CollectionInfo, StoreState};
use crate::names::{DEFAULT_COLLECTION_ID, DEFAULT_COLLECTION_NAME};
use crate::outside;
use crate::outside::random_uuid;
use crate::rows;
use crate::rows::{ActiveRow, AliasRow, BackupRow, CollectionRow, Tables};
use crate::store;
use crate::store::Store;
use crate::table;
use crate::text;
use crate::text::{has_item, same_text};

verus! {

// ---------------------------------------------------------------------------
// Columns
// ---------------------------------------------------------------------------
/// One statement, or none.
pub open spec fn statement_if(needed: bool, statement: Seq<char>) -> Seq<Seq<char>> {
    if needed {
        seq![statement]
    } else {
        Seq::empty()
    }
}

/// The statements that add to the table of aliases the columns that it lacks.
pub open spec fn added_columns(columns: Seq<Seq<char>>) -> Seq<Seq<char>> {
    statement_if(!columns.contains("id"@), "ALTER TABLE aliases ADD COLUMN id TEXT"@)
        + statement_if(
        !columns.contains("created_at"@),
        "ALTER TABLE aliases ADD COLUMN created_at INTEGER NOT NULL DEFAULT 0"@,
    ) + statement_if(
        !columns.contains("updated_at"@),
        "ALTER TABLE aliases ADD COLUMN updated_at INTEGER NOT NULL DEFAULT 0"@,
    ) + statement_if(
        !columns.contains("deleted"@),
        "ALTER TABLE aliases ADD COLUMN deleted INTEGER NOT NULL DEFAULT 0"@,
    ) + statement_if(
        !columns.contains("dirty"@),
        "ALTER TABLE aliases ADD COLUMN dirty INTEGER NOT NULL DEFAULT 0"@,
    ) + statement_if(
        !columns.contains("sync_version"@),
        "ALTER TABLE aliases ADD COLUMN sync_version INTEGER NOT NULL DEFAULT 0"@,
    )
}

fn push_if(list: &mut Vec<String>, needed: bool, statement: &str)
    ensures
        text::texts(final(list)@) == text::texts(old(list)@) + statement_if(needed, statement@),
{
    let ghost before = text::texts(list@);
    if needed {
        list.push(statement.to_owned());
    }
    assert(text::texts(list@) =~= before + statement_if(needed, statement@));
}

/// The statements that add to the table of aliases the columns that it lacks.
pub fn migrate_alias_table(columns: &Vec<String>) -> (r: Vec<String>)
    ensures
        text::texts(r@) == added_columns(text::texts(columns@)),
{
    let mut out: Vec<String> = Vec::new();
    assert(text::texts(out@) =~= Seq::<Seq<char>>::empty());
    push_if(
        &mut out,
        !has_item(columns, "id"),
        "ALTER TABLE aliases ADD COLUMN id TEXT",
    );
    push_if(
        &mut out,
        !has_item(columns, "created_at"),
        "ALTER TABLE aliases ADD COLUMN created_at INTEGER NOT NULL DEFAULT 0",
    );
    push_if(
        &mut out,
        !has_item(columns, "updated_at"),
        "ALTER TABLE aliases ADD COLUMN updated_at INTEGER NOT NULL DEFAULT 0",
    );
    push_if(
        &mut out,
        !has_item(columns, "deleted"),
        "ALTER TABLE aliases ADD COLUMN deleted INTEGER NOT NULL DEFAULT 0",
    );
    push_if(
        &mut out,
        !has_item(columns, "dirty"),
        "ALTER TABLE aliases ADD COLUMN dirty INTEGER NOT NULL DEFAULT 0",
    );
    push_if(
        &mut out,
        !has_item(columns, "sync_version"),
        "ALTER TABLE aliases ADD COLUMN sync_version INTEGER NOT NULL DEFAULT 0",
    );
    assert(text::texts(out@) =~= added_columns(text::texts(columns@)));
    out
}

/// Whether the table of aliases is from before there were collections, and has to be made anew.
pub fn migrate_alias_collections(columns: &Vec<String>) -> (r: bool)
    ensures
        r == !text::texts(columns@).contains("collection_id"@),
{
    !has_item(columns, "collection_id")
}

// ---------------------------------------------------------------------------
// Rows
// ---------------------------------------------------------------------------
/// What a column of times holds.
#[derive(Debug)]
pub enum Stamp {
    /// Nothing.
    Missing,
    /// A text, as the first versions wrote it.
    Text,
    /// Seconds since the beginning of 1970.
    Number(i64),
}

/// A row of the table of aliases as it may be found.
#[derive(Debug)]
pub struct LegacyAlias {
    pub id: Option<String>,
    pub collection_id: Option<String>,
    pub name: String,
    pub command: String,
    pub deleted: bool,
    pub dirty: bool,
    pub sync_version: i64,
    pub created_at: Stamp,
    pub updated_at: Stamp,
}

/// The row has no id yet.
pub open spec fn lacks_id(row: LegacyAlias) -> bool {
    match row.id {
        Some(id) => id@.len() == 0,
        None => true,
    }
}

/// The names of the rows without an id.
pub open spec fn names_without_id(rows: Seq<LegacyAlias>) -> Seq<Seq<char>>
    decreases rows.len(),
{
    if rows.len() == 0 {
        Seq::empty()
    } else if lacks_id(rows.last()) {
        names_without_id(rows.drop_last()).push(rows.last().name@)
    } else {
        names_without_id(rows.drop_last())
    }
}

/// The id of a row once every name without an id got the new id in its place: the last one that
/// its name got, or else its own.
pub open spec fn completed_id(
    names: Seq<Seq<char>>,
    fresh: Seq<Seq<char>>,
    name: Seq<char>,
    own: Seq<char>,
) -> Seq<char>
    decreases names.len(),
{
    if names.len() == 0 {
        own
    } else if names.last() == name {
        fresh[names.len() - 1]
    } else {
        completed_id(names.drop_last(), fresh, name, own)
    }
}

/// The time that a column holds, or the present where it holds none.
pub open spec fn completed_time(stamp: Stamp, now: i64) -> i64 {
    match stamp {
        Stamp::Number(t) => if t == 0 {
            now
        } else {
            t
        },
        _ => now,
    }
}

/// A row with all that it lacks.
pub open spec fn completed(
    row: LegacyAlias,
    names: Seq<Seq<char>>,
    fresh: Seq<Seq<char>>,
    now: i64,
) -> AliasRec {
    AliasRec {
        id: completed_id(
            names,
            fresh,
            row.name@,
            match row.id {
                Some(id) => id@,
                None => Seq::empty(),
            },
        ),
        collection_id: match row.collection_id {
            Some(id) => id@,
            None => DEFAULT_COLLECTION_ID@,
        },
        name: row.name@,
        command: row.command@,
        deleted: row.deleted,
        dirty: row.dirty,
        sync_version: row.sync_version,
        created_at: completed_time(row.created_at, now),
        updated_at: completed_time(row.updated_at, now),
    }
}

/// The rows with all that they lack.
pub open spec fn all_completed(rows: Seq<LegacyAlias>, fresh: Seq<Seq<char>>, now: i64) -> Seq<
    AliasRec,
> {
    rows.map_values(|row: LegacyAlias| completed(row, names_without_id(rows), fresh, now))
}

/// A row that lacks nothing stays as it is, where no row of its name lacks an id.
pub proof fn law_complete_rows_stay(
    row: LegacyAlias,
    names: Seq<Seq<char>>,
    fresh: Seq<Seq<char>>,
    now: i64,
)
    requires
        row.id is Some,
        row.collection_id is Some,
        !names.contains(row.name@),
        row.created_at matches Stamp::Number(t) && t != 0,
        row.updated_at matches Stamp::Number(t) && t != 0,
    ensures
        completed(row, names, fresh, now) == (AliasRec {
            id: row.id.unwrap()@,
            collection_id: row.collection_id.unwrap()@,
            name: row.name@,
            command: row.command@,
            deleted: row.deleted,
            dirty: row.dirty,
            sync_version: row.sync_version,
            created_at: row.created_at->Number_0,
            updated_at: row.updated_at->Number_0,
        }),
    decreases names.len(),
{
    if names.len() > 0 {
        assert(names.contains(names.last())) by {
            assert(names[names.len() - 1] == names.last());
        }
        assert(!names.drop_last().contains(row.name@)) by {
            if names.drop_last().contains(row.name@) {
                let i = names.drop_last().index_of(row.name@);
                assert(names[i] == row.name@);
            }
        }
        law_complete_rows_stay(row, names.drop_last(), fresh, now);
    }
}

/// A row without an id gets one of the new ones.
pub proof fn law_rows_get_ids(rows: Seq<LegacyAlias>, fresh: Seq<Seq<char>>, now: i64, i: int)
    requires
        0 <= i < rows.len(),
        lacks_id(rows[i]),
        fresh.len() == names_without_id(rows).len(),
    ensures
        fresh.contains(all_completed(rows, fresh, now)[i].id),
{
    lemma_name_listed(rows, i);
    let own = match rows[i].id {
        Some(id) => id@,
        None => Seq::empty(),
    };
    lemma_listed_name_gets_id(names_without_id(rows), fresh, rows[i].name@, own);
}

proof fn lemma_name_listed(rows: Seq<LegacyAlias>, i: int)
    requires
        0 <= i < rows.len(),
        lacks_id(rows[i]),
    ensures
        names_without_id(rows).contains(rows[i].name@),
    decreases rows.len(),
{
    let before = names_without_id(rows.drop_last());
    if i == rows.len() - 1 {
        assert(before.push(rows[i].name@).last() == rows[i].name@);
    } else {
        lemma_name_listed(rows.drop_last(), i);
        let k = before.index_of(rows[i].name@);
        if lacks_id(rows.last()) {
            assert(before.push(rows.last().name@)[k] == rows[i].name@);
        }
    }
}

proof fn lemma_listed_name_gets_id(
    names: Seq<Seq<char>>,
    fresh: Seq<Seq<char>>,
    name: Seq<char>,
    own: Seq<char>,
)
    requires
        names.contains(name),
        names.len() <= fresh.len(),
    ensures
        fresh.contains(completed_id(names, fresh, name, own)),
    decreases names.len(),
{
    if names.last() == name {
        assert(fresh.contains(fresh[names.len() - 1]));
    } else {
        let k = names.index_of(name);
        assert(names.drop_last()[k] == name);
        lemma_listed_name_gets_id(names.drop_last(), fresh, name, own);
    }
}

proof fn lemma_listed_name(rows: Seq<LegacyAlias>, name: Seq<char>)
    requires
        names_without_id(rows).contains(name),
    ensures
        exists|i: int| 0 <= i < rows.len() && lacks_id(#[trigger] rows[i]) && rows[i].name@ == name,
    decreases rows.len(),
{
    let names = names_without_id(rows);
    if rows.len() > 0 {
        let before = rows.drop_last();
        if lacks_id(rows.last()) && rows.last().name@ == name {
            assert(rows[rows.len() - 1] == rows.last());
        } else {
            let k = names.index_of(name);
            assert(names_without_id(before)[k] == name);
            lemma_listed_name(before, name);
            let i = choose|i: int|
                0 <= i < before.len() && lacks_id(#[trigger] before[i]) && before[i].name@ == name;
            assert(rows[i] == before[i]);
        }
    }
}

proof fn lemma_completed_id(
    names: Seq<Seq<char>>,
    fresh: Seq<Seq<char>>,
    name: Seq<char>,
    own: Seq<char>,
)
    requires
        names.len() <= fresh.len(),
    ensures
        names.contains(name) ==> exists|m: int|
            0 <= m < names.len() && #[trigger] names[m] == name && completed_id(
                names,
                fresh,
                name,
                own,
            ) == fresh[m],
        !names.contains(name) ==> completed_id(names, fresh, name, own) == own,
    decreases names.len(),
{
    if names.len() > 0 {
        let before = names.drop_last();
        let n = names.len() - 1;
        assert(names[n] == names.last());
        if names.last() != name {
            lemma_completed_id(before, fresh, name, own);
            if names.contains(name) {
                let k = names.index_of(name);
                assert(before[k] == name);
                let m = choose|m: int|
                    0 <= m < before.len() && #[trigger] before[m] == name && completed_id(
                        before,
                        fresh,
                        name,
                        own,
                    ) == fresh[m];
                assert(names[m] == name);
            } else if before.contains(name) {
                let k = before.index_of(name);
                assert(names[k] == name);
            }
        }
    }
}

/// A table of aliases from before there were collections: no name and no id occurs twice.
pub open spec fn is_legacy(rows: Seq<LegacyAlias>) -> bool {
    &&& forall|i: int| 0 <= i < rows.len() ==> (#[trigger] rows[i]).collection_id is None
    &&& forall|i: int, j: int|
        0 <= i < j < rows.len() ==> (#[trigger] rows[i]).name@ != (#[trigger] rows[j]).name@
    &&& forall|i: int, j: int|
        0 <= i < j < rows.len() && !lacks_id(#[trigger] rows[i]) && !lacks_id(
            #[trigger] rows[j],
        ) ==> rows[i].id.unwrap()@ != rows[j].id.unwrap()@
}

/// New ids: there is one for each row without an id, none is empty, none occurs twice, and none is
/// in use.
pub open spec fn are_new_ids(rows: Seq<LegacyAlias>, fresh: Seq<Seq<char>>) -> bool {
    &&& fresh.len() == names_without_id(rows).len()
    &&& fresh.no_duplicates()
    &&& forall|m: int| 0 <= m < fresh.len() ==> (#[trigger] fresh[m]).len() > 0
    &&& forall|i: int|
        0 <= i < rows.len() && !lacks_id(#[trigger] rows[i]) ==> !fresh.contains(
            rows[i].id.unwrap()@,
        )
}

proof fn lemma_ids_completed(rows: Seq<LegacyAlias>, fresh: Seq<Seq<char>>, now: i64)
    requires
        is_legacy(rows),
        are_new_ids(rows, fresh),
    ensures
        forall|i: int|
            0 <= i < rows.len() ==> (#[trigger] all_completed(rows, fresh, now)[i]).id.len() > 0,
        forall|i: int, j: int|
            0 <= i < j < rows.len() ==> (#[trigger] all_completed(rows, fresh, now)[i]).id != (
            #[trigger] all_completed(rows, fresh, now)[j]).id,
{
    let names = names_without_id(rows);
    let all = all_completed(rows, fresh, now);
    assert forall|i: int| 0 <= i < rows.len() implies (#[trigger] all[i]).id.len() > 0 && (
    if lacks_id(rows[i]) {
        exists|m: int|
            0 <= m < names.len() && #[trigger] names[m] == rows[i].name@ && all[i].id == fresh[m]
    } else {
        all[i].id == rows[i].id.unwrap()@
    }) by {
        let own = match rows[i].id {
            Some(id) => id@,
            None => Seq::empty(),
        };
        let name = rows[i].name@;
        lemma_completed_id(names, fresh, name, own);
        if lacks_id(rows[i]) {
            lemma_name_listed(rows, i);
            let m = choose|m: int|
                0 <= m < names.len() && #[trigger] names[m] == name && completed_id(
                    names,
                    fresh,
                    name,
                    own,
                ) == fresh[m];
            assert(fresh[m].len() > 0);
            assert(names[m] == name && all[i].id == fresh[m]);
        } else if names.contains(name) {
            lemma_listed_name(rows, name);
            let j = choose|j: int|
                0 <= j < rows.len() && lacks_id(#[trigger] rows[j]) && rows[j].name@ == name;
            assert(rows[i].name@ == rows[j].name@);
        }
    }
    assert forall|i: int, j: int| 0 <= i < j < rows.len() implies (#[trigger] all[i]).id != (
    #[trigger] all[j]).id by {
        assert(rows[i].name@ != rows[j].name@);
        assert(all[i].id.len() > 0 && all[j].id.len() > 0);
        if lacks_id(rows[i]) {
            let m = choose|m: int|
                0 <= m < names.len() && #[trigger] names[m] == rows[i].name@ && all[i].id
                    == fresh[m];
            assert(fresh.contains(fresh[m]));
            if lacks_id(rows[j]) {
                let n = choose|n: int|
                    0 <= n < names.len() && #[trigger] names[n] == rows[j].name@ && all[j].id
                        == fresh[n];
                assert(m != n);
            }
        } else if lacks_id(rows[j]) {
            let n = choose|n: int|
                0 <= n < names.len() && #[trigger] names[n] == rows[j].name@ && all[j].id
                    == fresh[n];
            assert(fresh.contains(fresh[n]));
        }
    }
}

/// Opening a table from before there were collections succeeds where the other tables are in
/// order and the new ids are new. Every alias is then in the shared collection with its name and
/// its command, deleted or not as it was, and has an id; there are no others.
pub proof fn law_legacy_aliases_are_kept(
    t: Tables,
    rows: Seq<LegacyAlias>,
    fresh: Seq<Seq<char>>,
    now: i64,
)
    requires
        is_legacy(rows),
        are_new_ids(rows, fresh),
        rows::recs(t.aliases@) == all_completed(rows, fresh, now),
        table::distinct(rows::recs(t.collections@), model::collection_key()),
        table::distinct(rows::recs(t.collections@), model::collection_name_key()),
        table::distinct(rows::recs(t.active@), model::active_key()),
        table::distinct(rows::recs(t.backups@), model::backup_key()),
        model::shared_ensured(t@, now) is Ok,
    ensures
        store::opened(t, Some(now)) is Ok,
        ({
            let st = store::opened(t, Some(now))->Ok_0;
            let shared = DEFAULT_COLLECTION_ID@;
            &&& model::consistent(st)
            &&& forall|i: int|
                0 <= i < rows.len() ==> {
                    let key = (shared, (#[trigger] rows[i]).name@);
                    &&& st.aliases.contains_key(key)
                    &&& st.aliases[key] == all_completed(rows, fresh, now)[i]
                    &&& st.aliases[key].command == rows[i].command@
                    &&& st.aliases[key].deleted == rows[i].deleted
                    &&& st.aliases[key].id.len() > 0
                    &&& model::holds(st, shared, rows[i].name@) == !rows[i].deleted
                }
            &&& forall|k: AliasKey| #[trigger]
                st.aliases.contains_key(k) ==> exists|i: int|
                    0 <= i < rows.len() && k == (shared, (#[trigger] rows[i]).name@)
        }),
{
    let all = all_completed(rows, fresh, now);
    let key = model::alias_key();
    let shared = DEFAULT_COLLECTION_ID@;
    lemma_ids_completed(rows, fresh, now);
    assert forall|i: int| 0 <= i < rows.len() implies key(#[trigger] all[i]) == (
        shared,
        rows[i].name@,
    ) by {
        assert(rows[i].collection_id is None);
    }
    assert(table::distinct(all, key)) by {
        assert forall|i: int, j: int| 0 <= i < j < all.len() implies key(#[trigger] all[i]) != key(
            #[trigger] all[j],
        ) by {
            assert(rows[i].name@ != rows[j].name@);
        }
    }
    assert(table::distinct(all, model::alias_id_key()));
    store::law_open_keeps_aliases(t, Some(now));
    let st = store::opened(t, Some(now))->Ok_0;
    assert forall|i: int| 0 <= i < rows.len() implies {
        let k = (shared, (#[trigger] rows[i]).name@);
        &&& st.aliases.contains_key(k)
        &&& st.aliases[k] == all[i]
        &&& st.aliases[k].command == rows[i].command@
        &&& st.aliases[k].deleted == rows[i].deleted
        &&& st.aliases[k].id.len() > 0
        &&& model::holds(st, shared, rows[i].name@) == !rows[i].deleted
    } by {
        table::lemma_row(all, key, i);
        assert(key(all[i]) == (shared, rows[i].name@));
    }
    assert forall|k: AliasKey| #[trigger] st.aliases.contains_key(k) implies exists|i: int|
        0 <= i < rows.len() && k == (shared, (#[trigger] rows[i]).name@) by {
        let i = table::lemma_key(all, key, k);
        assert(key(all[i]) == (shared, rows[i].name@));
        assert(k == (shared, rows[i].name@));
    }
}

/// A row of the table as it was written.
pub open spec fn is_written(row: LegacyAlias, a: AliasRec) -> bool {
    &&& row.id matches Some(id) && id@ == a.id
    &&& row.collection_id matches Some(id) && id@ == a.collection_id
    &&& row.name@ == a.name
    &&& row.command@ == a.command
    &&& row.deleted == a.deleted
    &&& row.dirty == a.dirty
    &&& row.sync_version == a.sync_version
    &&& row.created_at == Stamp::Number(a.created_at)
    &&& row.updated_at == Stamp::Number(a.updated_at)
}

proof fn lemma_none_lacks_id(rows: Seq<LegacyAlias>)
    requires
        forall|i: int| 0 <= i < rows.len() ==> !lacks_id(#[trigger] rows[i]),
    ensures
        names_without_id(rows).len() == 0,
    decreases rows.len(),
{
    if rows.len() > 0 {
        let before = rows.drop_last();
        assert forall|i: int| 0 <= i < before.len() implies !lacks_id(#[trigger] before[i]) by {
            assert(before[i] == rows[i]);
        }
        lemma_none_lacks_id(before);
        assert(!lacks_id(rows[rows.len() - 1]));
    }
}

/// Opening the tables of a store again changes nothing: no row lacks anything, and the store is
/// the same. A time of 0 is left out: it counts as none.
pub proof fn law_opening_again_changes_nothing(
    t: Tables,
    rows: Seq<LegacyAlias>,
    fresh: Seq<Seq<char>>,
    later: i64,
)
    requires
        t.keyed(),
        model::consistent(t@),
        rows.len() == t.aliases@.len(),
        forall|i: int|
            0 <= i < rows.len() ==> is_written(#[trigger] rows[i], rows::recs(t.aliases@)[i]),
        forall|i: int|
            0 <= i < rows.len() ==> {
                let a = (#[trigger] rows::recs(t.aliases@)[i]);
                a.id.len() > 0 && a.created_at != 0 && a.updated_at != 0
            },
    ensures
        names_without_id(rows).len() == 0,
        all_completed(rows, fresh, later) == rows::recs(t.aliases@),
        store::opened(t, Some(later)) == Ok::<StoreState, Failure>(t@),
{
    let all = rows::recs(t.aliases@);
    assert forall|i: int| 0 <= i < rows.len() implies !lacks_id(#[trigger] rows[i]) by {
        assert(is_written(rows[i], all[i]));
        assert(all[i].id.len() > 0);
    }
    lemma_none_lacks_id(rows);
    let names = names_without_id(rows);
    assert(names =~= Seq::<Seq<char>>::empty());
    assert forall|i: int| 0 <= i < rows.len() implies #[trigger] all_completed(
        rows,
        fresh,
        later,
    )[i] == all[i] by {
        assert(is_written(rows[i], all[i]));
        assert(all[i].created_at != 0 && all[i].updated_at != 0);
        law_complete_rows_stay(rows[i], names, fresh, later);
    }
    assert(all_completed(rows, fresh, later) =~= all);
    store::law_reopen(t, later);
}

/// The tables of a database, and the rows of aliases in it as they are found: there are none yet,
/// or they are those of a store, or the aliases are from before there were collections.
pub open spec fn is_database(
    t: Tables,
    rows: Seq<LegacyAlias>,
    fresh: Seq<Seq<char>>,
    now: i64,
) -> bool {
    &&& rows::recs(t.aliases@) == all_completed(rows, fresh, now)
    &&& {
        ||| {
            &&& rows.len() == 0
            &&& t.collections@.len() == 0
            &&& t.active@.len() == 0
            &&& t.backups@.len() == 0
        }
        ||| {
            &&& t.keyed()
            &&& model::consistent(t@)
            &&& forall|i: int|
                0 <= i < rows.len() ==> is_written(#[trigger] rows[i], rows::recs(t.aliases@)[i])
                    && !lacks_id(rows[i])
        }
        ||| {
            &&& is_legacy(rows)
            &&& are_new_ids(rows, fresh)
            &&& table::distinct(rows::recs(t.collections@), model::collection_key())
            &&& table::distinct(rows::recs(t.collections@), model::collection_name_key())
            &&& table::distinct(rows::recs(t.active@), model::active_key())
            &&& table::distinct(rows::recs(t.backups@), model::backup_key())
            &&& model::shared_ensured(t@, now) is Ok
        }
    }
}

/// The alias that a row becomes.
pub open spec fn key_of(row: LegacyAlias) -> AliasKey {
    (
        match row.collection_id {
            Some(id) => id@,
            None => DEFAULT_COLLECTION_ID@,
        },
        row.name@,
    )
}

proof fn lemma_database_opens(
    t: Tables,
    rows: Seq<LegacyAlias>,
    fresh: Seq<Seq<char>>,
    now: i64,
)
    requires
        is_database(t, rows, fresh, now),
    ensures
        store::opened(t, Some(now)) is Ok,
        table::distinct(all_completed(rows, fresh, now), model::alias_key()),
        forall|i: int|
            0 <= i < rows.len() ==> (#[trigger] all_completed(rows, fresh, now)[i]).id.len() > 0,
{
    let all = all_completed(rows, fresh, now);
    if is_legacy(rows) && are_new_ids(rows, fresh) && table::distinct(
        rows::recs(t.collections@),
        model::collection_key(),
    ) && table::distinct(rows::recs(t.collections@), model::collection_name_key())
        && table::distinct(rows::recs(t.active@), model::active_key()) && table::distinct(
        rows::recs(t.backups@),
        model::backup_key(),
    ) && model::shared_ensured(t@, now) is Ok {
        law_legacy_aliases_are_kept(t, rows, fresh, now);
        lemma_ids_completed(rows, fresh, now);
    } else if rows.len() == 0 && t.collections@.len() == 0 && t.active@.len() == 0
        && t.backups@.len() == 0 {
        assert(rows::recs(t.aliases@).len() == t.aliases@.len());
        store::law_open_empty(t, now);
    } else {
        store::law_reopen(t, now);
        assert forall|i: int| 0 <= i < rows.len() implies (#[trigger] all[i]).id.len() > 0 by {
            assert(is_written(rows[i], rows::recs(t.aliases@)[i]));
        }
    }
}

/// Opening a database succeeds, whether it is new, was left by a store, or has aliases from before
/// there were collections. The list of collections begins with the shared one. Every alias has an
/// id. Every alias that is not deleted, in a collection that is not, is in the list of aliases with
/// its name and its command; one from before there were collections is in the shared one.
pub proof fn law_open_database(
    t: Tables,
    rows: Seq<LegacyAlias>,
    fresh: Seq<Seq<char>>,
    now: i64,
    collections: Seq<CollectionInfo>,
    aliases: Seq<AliasInfo>,
)
    requires
        is_database(t, rows, fresh, now),
        store::opened(t, Some(now)) matches Ok(st) ==> model::is_collection_list(collections, st)
            && model::is_alias_list(aliases, st, None),
    ensures
        store::opened(t, Some(now)) is Ok,
        ({
            let st = store::opened(t, Some(now))->Ok_0;
            &&& collections.len() > 0
            &&& collections[0].id == DEFAULT_COLLECTION_ID@
            &&& collections[0].name == DEFAULT_COLLECTION_NAME@
            &&& collections[0].active
            &&& collections[0].priority == 0
            &&& forall|k: AliasKey| #[trigger]
                st.aliases.contains_key(k) ==> st.aliases[k].id.len() > 0
            &&& forall|i: int|
                0 <= i < rows.len() && !(#[trigger] rows[i]).deleted && model::live_ids(
                    st,
                ).contains(key_of(rows[i]).0) ==> exists|n: int|
                    {
                        &&& 0 <= n < aliases.len()
                        &&& (#[trigger] aliases[n]).collection_id == key_of(rows[i]).0
                        &&& aliases[n].name == rows[i].name@
                        &&& aliases[n].command == rows[i].command@
                        &&& rows[i].collection_id is None ==> aliases[n].collection_name
                            == DEFAULT_COLLECTION_NAME@
                    }
            &&& model::live_ids(st).contains(DEFAULT_COLLECTION_ID@)
        }),
{
    lemma_database_opens(t, rows, fresh, now);
    store::law_open_keeps_aliases(t, Some(now));
    let st = store::opened(t, Some(now))->Ok_0;
    let all = all_completed(rows, fresh, now);
    let key = model::alias_key();
    store::listing::law_shared_comes_first(collections, st);
    assert forall|k: AliasKey| #[trigger] st.aliases.contains_key(k) implies st.aliases[k].id.len()
        > 0 by {
        let i = table::lemma_key(all, key, k);
        assert(all[i].id.len() > 0);
    }
    assert forall|i: int|
        0 <= i < rows.len() && !(#[trigger] rows[i]).deleted && model::live_ids(st).contains(
            key_of(rows[i]).0,
        ) implies exists|n: int|
        {
            &&& 0 <= n < aliases.len()
            &&& (#[trigger] aliases[n]).collection_id == key_of(rows[i]).0
            &&& aliases[n].name == rows[i].name@
            &&& aliases[n].command == rows[i].command@
            &&& rows[i].collection_id is None ==> aliases[n].collection_name
                == DEFAULT_COLLECTION_NAME@
        } by {
        let k = key_of(rows[i]);
        table::lemma_row(all, key, i);
        assert(key(all[i]) == k);
        assert(st.aliases[k] == all[i]);
        assert(model::holds(st, k.0, k.1));
        assert(model::live_keys(st).contains(k));
        let info = model::alias_info(st, k);
        let n = aliases.index_of(info);
        assert(aliases[n] == info);
    }
}

/// A database that was opened and written, at a time other than 0, is opened again without any
/// change: the store is the same, and so are its lists of collections and of aliases.
pub proof fn law_database_is_completed_once(
    t: Tables,
    rows: Seq<LegacyAlias>,
    fresh: Seq<Seq<char>>,
    now: i64,
    written: Tables,
    found: Seq<LegacyAlias>,
    others: Seq<Seq<char>>,
    later: i64,
    collections: (Seq<CollectionInfo>, Seq<CollectionInfo>),
    aliases: (Seq<AliasInfo>, Seq<AliasInfo>),
)
    requires
        is_database(t, rows, fresh, now),
        store::opened(t, Some(now)) == Ok::<StoreState, Failure>(written@),
        written.keyed(),
        found.len() == written.aliases@.len(),
        forall|i: int|
            0 <= i < found.len() ==> is_written(
                #[trigger] found[i],
                rows::recs(written.aliases@)[i],
            ),
        now != 0,
        model::is_collection_list(collections.0, written@),
        model::is_alias_list(aliases.0, written@, None),
        store::opened(written, Some(later)) matches Ok(st) ==> model::is_collection_list(
            collections.1,
            st,
        ) && model::is_alias_list(aliases.1, st, None),
    ensures
        names_without_id(found).len() == 0,
        all_completed(found, others, later) == rows::recs(written.aliases@),
        store::opened(written, Some(later)) == Ok::<StoreState, Failure>(written@),
        collections.1 == collections.0,
        aliases.1 == aliases.0,
{
    let all = all_completed(rows, fresh, now);
    let kept = rows::recs(written.aliases@);
    let key = model::alias_key();
    lemma_database_opens(t, rows, fresh, now);
    store::law_open_keeps_aliases(t, Some(now));
    assert forall|i: int| 0 <= i < found.len() implies {
        let a = (#[trigger] kept[i]);
        a.id.len() > 0 && a.created_at != 0 && a.updated_at != 0
    } by {
        table::lemma_row(kept, key, i);
        let k = table::lemma_key(all, key, key(kept[i]));
        assert(kept[i] == all[k]);
        assert(all[k].id.len() > 0);
    }
    law_opening_again_changes_nothing(written, found, others, later);
    store::listing::law_collection_list_is_determined(collections.0, collections.1, written@);
    store::listing::law_alias_list_is_determined(aliases.0, aliases.1, written@, None);
}

/// The names of the rows without an id.
pub fn rows_without_id(rows: &Vec<LegacyAlias>) -> (r: Vec<String>)
    ensures
        text::texts(r@) == names_without_id(rows@),
{
    let mut out: Vec<String> = Vec::new();
    assert(text::texts(out@) =~= Seq::<Seq<char>>::empty());
    for i in 0..rows.len()
        invariant
            text::texts(out@) == names_without_id(rows@.take(i as int)),
    {
        assert(rows@.take(i + 1).drop_last() =~= rows@.take(i as int));
        let lacking = match &rows[i].id {
            Some(id) => id.as_str().is_empty(),
            None => true,
        };
        if lacking {
            let ghost before = text::texts(out@);
            out.push(rows[i].name.clone());
            assert(text::texts(out@) =~= before.push(rows@[i as int].name@));
        }
    }
    assert(rows@.take(rows@.len() as int) =~= rows@);
    out
}

fn complete_time(stamp: &Stamp, now: i64) -> (r: i64)
    ensures
        r == completed_time(*stamp, now),
{
    match stamp {
        Stamp::Number(t) => {
            if *t == 0 {
                now
            } else {
                *t
            }
        },
        _ => now,
    }
}

fn complete_row(row: &LegacyAlias, names: &Vec<String>, fresh: &Vec<String>, now: i64) -> (r:
    AliasRow)
    requires
        names@.len() <= fresh@.len(),
    ensures
        r@ == completed(*row, text::texts(names@), text::texts(fresh@), now),
{
    let ghost all = text::texts(names@);
    let ghost ids = text::texts(fresh@);
    let mut id = match &row.id {
        Some(id) => id.clone(),
        None => String::new(),
    };
    let ghost own = id@;
    assert(all.take(0) =~= Seq::<Seq<char>>::empty());
    for i in 0..names.len()
        invariant
            all == text::texts(names@),
            ids == text::texts(fresh@),
            names@.len() <= fresh@.len(),
            id@ == completed_id(all.take(i as int), ids, row.name@, own),
    {
        assert(all.take(i + 1).drop_last() =~= all.take(i as int));
        assert(all.take(i + 1).last() == names@[i as int]@);
        if same_text(names[i].as_str(), row.name.as_str()) {
            id = fresh[i].clone();
            assert(ids[i as int] == fresh@[i as int]@);
        }
    }
    assert(all.take(all.len() as int) =~= all);
    AliasRow {
        id,
        collection_id: match &row.collection_id {
            Some(id) => id.clone(),
            None => DEFAULT_COLLECTION_ID.to_owned(),
        },
        name: row.name.clone(),
        command: row.command.clone(),
        deleted: row.deleted,
        dirty: row.dirty,
        sync_version: row.sync_version,
        created_at: complete_time(&row.created_at, now),
        updated_at: complete_time(&row.updated_at, now),
    }
}

/// Completes the rows, with a given id for each row that has none.
pub fn complete_rows(rows: &Vec<LegacyAlias>, fresh: &Vec<String>, now: i64) -> (r: Vec<AliasRow>)
    requires
        fresh@.len() == names_without_id(rows@).len(),
    ensures
        rows::recs(r@) == all_completed(rows@, text::texts(fresh@), now),
{
    let names = rows_without_id(rows);
    let ghost ids = text::texts(fresh@);
    let ghost want = all_completed(rows@, ids, now);
    let mut out: Vec<AliasRow> = Vec::new();
    for i in 0..rows.len()
        invariant
            text::texts(names@) == names_without_id(rows@),
            ids == text::texts(fresh@),
            fresh@.len() == names_without_id(rows@).len(),
            want == all_completed(rows@, ids, now),
            rows::recs(out@) =~= want.take(i as int),
    {
        let ghost before = rows::recs(out@);
        out.push(complete_row(&rows[i], &names, fresh, now));
        assert(rows::recs(out@) =~= before.push(want[i as int]));
        assert(want.take(i + 1) =~= want.take(i as int).push(want[i as int]));
    }
    assert(want.take(want.len() as int) =~= want);
    out
}

/// Every text is that of a random UUID.
pub open spec fn all_random(ids: Seq<Seq<char>>) -> bool {
    forall|i: int| 0 <= i < ids.len() ==> outside::is_random_uuid(#[trigger] ids[i])
}

/// Random ids.
pub fn random_uuids(count: usize) -> (r: Vec<String>)
    ensures
        r@.len() == count,
        all_random(text::texts(r@)),
{
    let mut out: Vec<String> = Vec::new();
    for i in 0..count
        invariant
            out@.len() == i,
            forall|k: int| 0 <= k < i ==> outside::is_random_uuid((#[trigger] out@[k])@),
    {
        out.push(random_uuid());
    }
    out
}

/// Opens the store that tables hold whose aliases may lack something. Each row without an id gets
/// a random one.
pub fn open_migrated(
    collections: Vec<CollectionRow>,
    active: Vec<ActiveRow>,
    aliases: &Vec<LegacyAlias>,
    backups: Vec<BackupRow>,
    clock: &Clock,
) -> (r: Result<Store, AliazError>)
    ensures
        match clock::time_of(*clock) {
            None => r matches Err(e) && e@ == Failure::ClockBeforeEpoch,
            Some(now) => exists|fresh: Seq<Seq<char>>, t: Tables|
                #![trigger all_completed(aliases@, fresh, now), t.aliases]
                {
                    &&& all_random(fresh)
                    &&& fresh.len() == names_without_id(aliases@).len()
                    &&& rows::recs(t.aliases@) == all_completed(aliases@, fresh, now)
                    &&& t.collections == collections
                    &&& t.active == active
                    &&& t.backups == backups
                    &&& match store::opened(t, Some(now)) {
                        Ok(st) => r matches Ok(store) && store.wf() && store@ == st,
                        Err(f) => r matches Err(e) && e@ == f,
                    }
                },
        },
{
    let now = match now_unix(clock) {
        Ok(now) => now,
        Err(e) => {
            return Err(e);
        },
    };
    let names = rows_without_id(aliases);
    let fresh = random_uuids(names.len());
    assert(text::texts(names@).len() == names@.len());
    let completed = complete_rows(aliases, &fresh, now);
    let tables = Tables { collections, active, aliases: completed, backups };
    assert(rows::recs(tables.aliases@) == all_completed(aliases@, text::texts(fresh@), now));
    Store::open(tables, clock)
}

// ---------------------------------------------------------------------------
// What is completed, and with what
// ---------------------------------------------------------------------------
proof fn lemma_statements_differ()
    ensures
        ({
            let id = "ALTER TABLE aliases ADD COLUMN id TEXT"@;
            let created = "ALTER TABLE aliases ADD COLUMN created_at INTEGER NOT NULL DEFAULT 0"@;
            let updated = "ALTER TABLE aliases ADD COLUMN updated_at INTEGER NOT NULL DEFAULT 0"@;
            let deleted = "ALTER TABLE aliases ADD COLUMN deleted INTEGER NOT NULL DEFAULT 0"@;
            let dirty = "ALTER TABLE aliases ADD COLUMN dirty INTEGER NOT NULL DEFAULT 0"@;
            let version = "ALTER TABLE aliases ADD COLUMN sync_version INTEGER NOT NULL DEFAULT 0"@;
            seq![id, created, updated, deleted, dirty, version].no_duplicates()
        }),
{
    reveal_strlit("ALTER TABLE aliases ADD COLUMN id TEXT");
    reveal_strlit("ALTER TABLE aliases ADD COLUMN created_at INTEGER NOT NULL DEFAULT 0");
    reveal_strlit("ALTER TABLE aliases ADD COLUMN updated_at INTEGER NOT NULL DEFAULT 0");
    reveal_strlit("ALTER TABLE aliases ADD COLUMN deleted INTEGER NOT NULL DEFAULT 0");
    reveal_strlit("ALTER TABLE aliases ADD COLUMN dirty INTEGER NOT NULL DEFAULT 0");
    reveal_strlit("ALTER TABLE aliases ADD COLUMN sync_version INTEGER NOT NULL DEFAULT 0");
    let id = "ALTER TABLE aliases ADD COLUMN id TEXT"@;
    let created = "ALTER TABLE aliases ADD COLUMN created_at INTEGER NOT NULL DEFAULT 0"@;
    let updated = "ALTER TABLE aliases ADD COLUMN updated_at INTEGER NOT NULL DEFAULT 0"@;
    let deleted = "ALTER TABLE aliases ADD COLUMN deleted INTEGER NOT NULL DEFAULT 0"@;
    let dirty = "ALTER TABLE aliases ADD COLUMN dirty INTEGER NOT NULL DEFAULT 0"@;
    let version = "ALTER TABLE aliases ADD COLUMN sync_version INTEGER NOT NULL DEFAULT 0"@;
    assert(id[31] == 'i' && created[31] == 'c' && updated[31] == 'u' && deleted[31] == 'd'
        && dirty[31] == 'd' && version[31] == 's');
    assert(deleted[32] == 'e' && dirty[32] == 'i');
}

/// The column is added.
pub open spec fn adds(columns: Seq<Seq<char>>, statement: Seq<char>) -> bool {
    added_columns(columns).contains(statement)
}

proof fn lemma_parts_contain(
    parts: (Seq<Seq<char>>, Seq<Seq<char>>, Seq<Seq<char>>),
    more: (Seq<Seq<char>>, Seq<Seq<char>>, Seq<Seq<char>>),
    s: Seq<char>,
)
    ensures
        (parts.0 + parts.1 + parts.2 + more.0 + more.1 + more.2).contains(s) == (parts.0.contains(s)
            || parts.1.contains(s) || parts.2.contains(s) || more.0.contains(s) || more.1.contains(
            s,
        ) || more.2.contains(s)),
{
    let (a, b, c) = parts;
    let (d, e, f) = more;
    vstd::seq_lib::lemma_seq_concat_contains_all_elements(a, b, s);
    vstd::seq_lib::lemma_seq_concat_contains_all_elements(a + b, c, s);
    vstd::seq_lib::lemma_seq_concat_contains_all_elements(a + b + c, d, s);
    vstd::seq_lib::lemma_seq_concat_contains_all_elements(a + b + c + d, e, s);
    vstd::seq_lib::lemma_seq_concat_contains_all_elements(a + b + c + d + e, f, s);
}

proof fn lemma_one_statement(needed: bool, statement: Seq<char>, s: Seq<char>)
    ensures
        statement_if(needed, statement).len() <= 1,
        statement_if(needed, statement).contains(s) <==> needed && s == statement,
{
    if needed {
        assert(statement_if(needed, statement)[0] == statement);
    }
}

proof fn lemma_statements_contain(needed: Seq<bool>, all: Seq<Seq<char>>, n: int)
    requires
        needed.len() == 6,
        all.len() == 6,
        all.no_duplicates(),
        0 <= n < 6,
    ensures
        ({
            let statements = statement_if(needed[0], all[0]) + statement_if(needed[1], all[1])
                + statement_if(needed[2], all[2]) + statement_if(needed[3], all[3]) + statement_if(
                needed[4],
                all[4],
            ) + statement_if(needed[5], all[5]);
            &&& statements.contains(all[n]) <==> needed[n]
            &&& statements.len() <= 6
        }),
{
    let s = all[n];
    lemma_one_statement(needed[0], all[0], s);
    lemma_one_statement(needed[1], all[1], s);
    lemma_one_statement(needed[2], all[2], s);
    lemma_one_statement(needed[3], all[3], s);
    lemma_one_statement(needed[4], all[4], s);
    lemma_one_statement(needed[5], all[5], s);
    lemma_parts_contain(
        (
            statement_if(needed[0], all[0]),
            statement_if(needed[1], all[1]),
            statement_if(needed[2], all[2]),
        ),
        (
            statement_if(needed[3], all[3]),
            statement_if(needed[4], all[4]),
            statement_if(needed[5], all[5]),
        ),
        s,
    );
}

/// Each column is added if and only if the table lacks it.
pub proof fn law_lacking_columns_are_added(columns: Seq<Seq<char>>)
    ensures
        adds(columns, "ALTER TABLE aliases ADD COLUMN id TEXT"@) <==> !columns.contains("id"@),
        adds(columns, "ALTER TABLE aliases ADD COLUMN created_at INTEGER NOT NULL DEFAULT 0"@)
            <==> !columns.contains("created_at"@),
        adds(columns, "ALTER TABLE aliases ADD COLUMN updated_at INTEGER NOT NULL DEFAULT 0"@)
            <==> !columns.contains("updated_at"@),
        adds(columns, "ALTER TABLE aliases ADD COLUMN deleted INTEGER NOT NULL DEFAULT 0"@)
            <==> !columns.contains("deleted"@),
        adds(columns, "ALTER TABLE aliases ADD COLUMN dirty INTEGER NOT NULL DEFAULT 0"@)
            <==> !columns.contains("dirty"@),
        adds(columns, "ALTER TABLE aliases ADD COLUMN sync_version INTEGER NOT NULL DEFAULT 0"@)
            <==> !columns.contains("sync_version"@),
        added_columns(columns).len() <= 6,
{
    lemma_statements_differ();
    let all = seq![
        "ALTER TABLE aliases ADD COLUMN id TEXT"@,
        "ALTER TABLE aliases ADD COLUMN created_at INTEGER NOT NULL DEFAULT 0"@,
        "ALTER TABLE aliases ADD COLUMN updated_at INTEGER NOT NULL DEFAULT 0"@,
        "ALTER TABLE aliases ADD COLUMN deleted INTEGER NOT NULL DEFAULT 0"@,
        "ALTER TABLE aliases ADD COLUMN dirty INTEGER NOT NULL DEFAULT 0"@,
        "ALTER TABLE aliases ADD COLUMN sync_version INTEGER NOT NULL DEFAULT 0"@,
    ];
    let needed = seq![
        !columns.contains("id"@),
        !columns.contains("created_at"@),
        !columns.contains("updated_at"@),
        !columns.contains("deleted"@),
        !columns.contains("dirty"@),
        !columns.contains("sync_version"@),
    ];
    lemma_statements_contain(needed, all, 0);
    lemma_statements_contain(needed, all, 1);
    lemma_statements_contain(needed, all, 2);
    lemma_statements_contain(needed, all, 3);
    lemma_statements_contain(needed, all, 4);
    lemma_statements_contain(needed, all, 5);
}

/// The names of rows without an id, in their order: those of one list are followed by those of the
/// next. A row has an id if it holds one that is not empty.
pub proof fn law_rows_without_id(a: Seq<LegacyAlias>, b: Seq<LegacyAlias>)
    ensures
        names_without_id(a + b) == names_without_id(a) + names_without_id(b),
        a.len() == 1 ==> names_without_id(a) == if a[0].id is Some && a[0].id.unwrap()@.len() > 0 {
            Seq::empty()
        } else {
            seq![a[0].name@]
        },
    decreases b.len(),
{
    if b.len() == 0 {
        assert(a + b =~= a);
        assert(names_without_id(a) + names_without_id(b) =~= names_without_id(a));
    } else {
        assert((a + b).drop_last() =~= a + b.drop_last());
        assert((a + b).last() == b.last());
        law_rows_without_id(a, b.drop_last());
        assert(names_without_id(a + b) =~= names_without_id(a) + names_without_id(b));
    }
    if a.len() == 1 {
        reveal_with_fuel(names_without_id, 2);
        assert(a.drop_last() =~= Seq::<LegacyAlias>::empty());
        assert(Seq::<Seq<char>>::empty().push(a[0].name@) =~= seq![a[0].name@]);
    }
}

/// A row keeps its id unless its name is among those that get a new one; it then has the last one
/// that its name got.
pub proof fn law_completed_id(
    names: Seq<Seq<char>>,
    fresh: Seq<Seq<char>>,
    name: Seq<char>,
    own: Seq<char>,
    i: int,
)
    ensures
        !names.contains(name) ==> completed_id(names, fresh, name, own) == own,
        0 <= i < names.len() && names[i] == name && (forall|j: int|
            i < j < names.len() ==> #[trigger] names[j] != name) ==> completed_id(
            names,
            fresh,
            name,
            own,
        ) == fresh[i],
    decreases names.len(),
{
    if names.len() > 0 {
        let fewer = names.drop_last();
        law_completed_id(fewer, fresh, name, own, i);
        assert(names[names.len() - 1] == names.last());
        if !names.contains(name) {
            assert(!fewer.contains(name)) by {
                if fewer.contains(name) {
                    let k = fewer.index_of(name);
                    assert(names[k] == name);
                }
            }
        }
    }
}

/// A time that was stored stays; a zero, a text and nothing at all are the present.
pub proof fn law_completed_time(t: i64, now: i64)
    ensures
        t != 0 ==> completed_time(Stamp::Number(t), now) == t,
        completed_time(Stamp::Number(0), now) == now,
        completed_time(Stamp::Text, now) == now,
        completed_time(Stamp::Missing, now) == now,
{
}

/// Completing rows loses none and changes no name, command, deletion, mark or version. A row without
/// a collection goes to the shared one.
pub proof fn law_completing_keeps(rows: Seq<LegacyAlias>, fresh: Seq<Seq<char>>, now: i64, i: int)
    requires
        0 <= i < rows.len(),
    ensures
        all_completed(rows, fresh, now).len() == rows.len(),
        ({
            let row = rows[i];
            let a = all_completed(rows, fresh, now)[i];
            &&& a.name == row.name@
            &&& a.command == row.command@
            &&& a.deleted == row.deleted
            &&& a.dirty == row.dirty
            &&& a.sync_version == row.sync_version
            &&& row.collection_id is None ==> a.collection_id == "collection:shared"@
            &&& row.collection_id is Some ==> a.collection_id == row.collection_id.unwrap()@
            &&& a.created_at == match row.created_at {
                Stamp::Number(t) if t != 0 => t,
                _ => now,
            }
            &&& a.updated_at == match row.updated_at {
                Stamp::Number(t) if t != 0 => t,
                _ => now,
            }
            &&& !names_without_id(rows).contains(row.name@) && row.id is Some ==> a.id
                == row.id.unwrap()@
            &&& forall|m: int|
                {
                    &&& 0 <= m < names_without_id(rows).len()
                    &&& #[trigger] names_without_id(rows)[m] == row.name@
                    &&& forall|j: int|
                        m < j < names_without_id(rows).len() ==> #[trigger] names_without_id(
                            rows,
                        )[j] != row.name@
                } ==> a.id == fresh[m]
        }),
{
    let row = rows[i];
    let names = names_without_id(rows);
    let own = match row.id {
        Some(id) => id@,
        None => Seq::empty(),
    };
    law_completed_id(names, fresh, row.name@, own, 0);
    assert forall|m: int|
        {
            &&& 0 <= m < names.len()
            &&& #[trigger] names[m] == row.name@
            &&& forall|j: int| m < j < names.len() ==> #[trigger] names[j] != row.name@
        } implies all_completed(rows, fresh, now)[i].id == fresh[m] by {
        law_completed_id(names, fresh, row.name@, own, m);
    }
}

} // verus!
