//! What holds of the stored aliases as a whole, whatever is done to them.

use vstd::prelude::*;

use crate::error::Failure;
use crate::model;
use crate::model::{
    ActiveRec,
    AliasKey,
    AliasRec,
    CollectionRec,
    RemoteAlias,
    RemoteCollection,
    StoreState,
};
use crate::names;
use crate::names::{DEFAULT_COLLECTION_ID, DEFAULT_COLLECTION_NAME};
use crate::rows;

verus! {

/// What an operation may not break: what holds of every store, that priorities differ, that names
/// are valid, and that every collection that is referred to is there.
pub open spec fn keeps_order(before: StoreState, after: StoreState) -> bool {
    &&& model::consistent(before) ==> model::consistent(after)
    &&& model::consistent(before) && model::priorities_distinct(before)
        ==> model::priorities_distinct(after)
    &&& model::consistent(before) && model::names_valid(before) ==> model::names_valid(after)
    &&& model::consistent(before) && model::references_hold(before) ==> model::references_hold(
        after,
    )
}

// ---------------------------------------------------------------------------
// Every operation keeps the order
// ---------------------------------------------------------------------------
pub proof fn lemma_with_collection(st: StoreState, c: CollectionRec)
    requires
        model::consistent(st),
        st.collections.contains_key(c.id) ==> st.collections[c.id].name == c.name,
        !st.collections.contains_key(c.id) ==> model::id_of_name(st, c.name) is None
            && names::valid_name(c.name),
        c.id == DEFAULT_COLLECTION_ID@ ==> !c.deleted,
    ensures
        keeps_order(st, model::with_collection(st, c)),
{
    let after = model::with_collection(st, c);
    assert forall|a: Seq<char>, b: Seq<char>| #[trigger]
        after.collections.contains_key(a) && #[trigger] after.collections.contains_key(b)
            && after.collections[a].name == after.collections[b].name implies a == b by {
        if !st.collections.contains_key(c.id) {
            if a != c.id && b == c.id {
                assert(model::has_name(st, a, c.name));
            }
            if b != c.id && a == c.id {
                assert(model::has_name(st, b, c.name));
            }
        }
    }
    assert(model::keys_agree(after));
}

pub proof fn lemma_with_alias(st: StoreState, a: AliasRec)
    requires
        model::consistent(st),
        st.collections.contains_key(a.collection_id),
        !model::alias_id_taken_by_other(st, a.id, (a.collection_id, a.name)),
        names::valid_name(a.name),
    ensures
        keeps_order(st, model::with_alias(st, a)),
{
    let after = model::with_alias(st, a);
    let key = (a.collection_id, a.name);
    assert forall|x: AliasKey, y: AliasKey| #[trigger]
        after.aliases.contains_key(x) && #[trigger] after.aliases.contains_key(y)
            && after.aliases[x].id == after.aliases[y].id implies x == y by {
        if x != key && y == key {
            assert(st.aliases.contains_key(x));
        }
        if y != key && x == key {
            assert(st.aliases.contains_key(y));
        }
    }
    assert(model::keys_agree(after));
}

/// Where the shared collection is in order, making sure of it changes nothing.
pub proof fn law_shared_ensured(st: StoreState, now: i64)
    requires
        model::consistent(st),
    ensures
        model::shared_ensured(st, now) == Ok::<StoreState, Failure>(st),
{
    let id = DEFAULT_COLLECTION_ID@;
    let name = DEFAULT_COLLECTION_NAME@;
    if exists|other: Seq<char>| other != id && model::has_name(st, other, name) {
        let other = choose|other: Seq<char>| other != id && model::has_name(st, other, name);
        assert(st.collections.contains_key(other) && st.collections.contains_key(id));
        assert(false);
    }
    let after = StoreState {
        collections: st.collections.insert(
            id,
            CollectionRec { name: name, deleted: false, ..st.collections[id] },
        ),
        active: st.active.insert(id, ActiveRec { collection_id: id, priority: 0 }),
        ..st
    };
    assert(after =~= st);
}

/// Creating a collection keeps the order.
pub proof fn law_create_keeps_order(st: StoreState, name: Seq<char>, now: Option<i64>)
    ensures
        keeps_order(st, model::collection_created(st, name, now).0),
{
    if model::consistent(st) && names::valid_name(name) && now is Some {
        let t = now.unwrap();
        if name == DEFAULT_COLLECTION_NAME@ {
            law_shared_ensured(st, t);
        } else {
            match model::id_of_name(st, name) {
                Some(id) => {
                    assert(model::has_name(st, id, name));
                    lemma_with_collection(
                        st,
                        CollectionRec {
                            deleted: false,
                            dirty: true,
                            updated_at: t,
                            ..st.collections[id]
                        },
                    );
                },
                None => {
                    if !st.collections.contains_key(names::id_for_name(name)) {
                        lemma_with_collection(
                            st,
                            CollectionRec {
                                id: names::id_for_name(name),
                                name: name,
                                deleted: false,
                                dirty: true,
                                sync_version: 0,
                                created_at: t,
                                updated_at: t,
                            },
                        );
                    }
                },
            }
        }
    }
}

proof fn lemma_some_highest(st: StoreState, ids: Set<Seq<char>>) -> (id: Seq<char>)
    requires
        ids.finite(),
        ids.len() > 0,
    ensures
        ids.contains(id),
        forall|other: Seq<char>| #[trigger]
            ids.contains(other) ==> st.active[other].priority <= st.active[id].priority,
    decreases ids.len(),
{
    let one = ids.choose();
    let rest = ids.remove(one);
    if rest.len() == 0 {
        assert forall|other: Seq<char>| #[trigger] ids.contains(other) implies other == one by {
            if other != one {
                assert(rest.contains(other));
            }
        }
        one
    } else {
        let best = lemma_some_highest(st, rest);
        let id = if st.active[best].priority >= st.active[one].priority {
            best
        } else {
            one
        };
        assert forall|other: Seq<char>| #[trigger] ids.contains(other) implies
            st.active[other].priority <= st.active[id].priority by {
            if other != one {
                assert(rest.contains(other));
            }
        }
        id
    }
}

/// There is exactly one highest priority.
pub proof fn lemma_highest(st: StoreState)
    requires
        model::consistent(st),
    ensures
        model::is_highest(st, model::highest_priority(st)),
        forall|p: int| model::is_highest(st, p) ==> p == model::highest_priority(st),
        0 <= model::highest_priority(st) <= i64::MAX,
{
    assert(st.active.dom().contains(DEFAULT_COLLECTION_ID@));
    let id = lemma_some_highest(st, st.active.dom());
    assert(model::is_highest(st, st.active[id].priority as int));
}

/// Activating a collection keeps the order.
pub proof fn law_activate_keeps_order(st: StoreState, name: Seq<char>)
    ensures
        keeps_order(st, model::collection_activated(st, name).0),
{
    if model::consistent(st) {
        lemma_highest(st);
        names::lemma_shared_is_valid();
        let after = model::collection_activated(st, name).0;
        assert forall|a: Seq<char>, b: Seq<char>|
            model::priorities_distinct(st) && #[trigger] after.active.contains_key(a) && #[trigger]
                after.active.contains_key(b) && after.active[a].priority
                == after.active[b].priority implies a == b by {
            assert(st.active.contains_key(a) ==> st.active[a].priority <= model::highest_priority(
                st,
            ));
            assert(st.active.contains_key(b) ==> st.active[b].priority <= model::highest_priority(
                st,
            ));
        }
        match model::collection_named(st, name) {
            Ok(id) => {
                assert(model::has_name(st, id, name));
            },
            Err(_) => {},
        }
        assert(model::keys_agree(after));
    }
}

/// Activating several collections keeps the order, also where one of them fails.
pub proof fn law_activate_all_keeps_order(st: StoreState, names: Seq<Seq<char>>)
    ensures
        keeps_order(st, model::each_activated(st, names).0),
        keeps_order(st, model::collections_activated(st, names).0),
    decreases names.len(),
{
    if names.len() > 0 {
        law_activate_all_keeps_order(st, names.drop_last());
        law_activate_keeps_order(
            model::each_activated(st, names.drop_last()).0,
            names.last(),
        );
    }
}

/// Deactivating a collection keeps the order: the shared collection stays active.
pub proof fn law_deactivate_keeps_order(st: StoreState, name: Seq<char>)
    ensures
        keeps_order(st, model::collection_deactivated(st, name).0),
{
    if model::consistent(st) && names::valid_name(name) && name != DEFAULT_COLLECTION_NAME@ {
        match model::collection_named(st, name) {
            Ok(id) => {
                assert(model::has_name(st, id, name));
                assert(id != DEFAULT_COLLECTION_ID@);
                assert(model::keys_agree(model::collection_deactivated(st, name).0));
            },
            Err(_) => {},
        }
    }
}

/// Adding an alias, or giving it another command, keeps the order.
pub proof fn law_upsert_keeps_order(
    st: StoreState,
    collection: Seq<char>,
    name: Seq<char>,
    command: Seq<char>,
    id: Seq<char>,
    now: Option<i64>,
)
    ensures
        keeps_order(st, model::alias_upserted(st, collection, name, command, id, now).0),
{
    if model::consistent(st) && names::valid_name(name) && now is Some {
        match model::collection_named(st, collection) {
            Ok(cid) => {
                assert(model::has_name(st, cid, collection));
                let t = now.unwrap();
                if st.aliases.contains_key((cid, name)) {
                    lemma_with_alias(
                        st,
                        AliasRec {
                            command: command,
                            deleted: false,
                            dirty: true,
                            updated_at: t,
                            ..st.aliases[(cid, name)]
                        },
                    );
                } else if !model::alias_id_taken(st, id) {
                    lemma_with_alias(
                        st,
                        AliasRec {
                            id: id,
                            collection_id: cid,
                            name: name,
                            command: command,
                            deleted: false,
                            dirty: true,
                            sync_version: 0,
                            created_at: t,
                            updated_at: t,
                        },
                    );
                }
            },
            Err(_) => {},
        }
    }
}

/// The scope of an alias is a collection that is there.
pub proof fn lemma_scope(st: StoreState, collection: Option<Seq<char>>, name: Seq<char>)
    requires
        model::consistent(st),
    ensures
        model::scope_of(st, collection, name) matches Ok(id) ==> st.collections.contains_key(id),
{
    match collection {
        Some(c) => {
            if model::collection_named(st, c) is Ok {
                assert(model::has_name(st, model::collection_named(st, c)->Ok_0, c));
            }
        },
        None => {},
    }
}

/// Editing an alias keeps the order.
pub proof fn law_update_keeps_order(
    st: StoreState,
    collection: Option<Seq<char>>,
    name: Seq<char>,
    command: Seq<char>,
    now: Option<i64>,
)
    ensures
        keeps_order(st, model::alias_updated(st, collection, name, command, now).0),
{
    if model::consistent(st) && names::valid_name(name) && now is Some {
        lemma_scope(st, collection, name);
        if model::scope_of(st, collection, name) is Ok {
            let cid = model::scope_of(st, collection, name)->Ok_0;
            if st.aliases.contains_key((cid, name)) {
                lemma_with_alias(
                    st,
                    AliasRec {
                        command: command,
                        dirty: true,
                        updated_at: now.unwrap(),
                        ..st.aliases[(cid, name)]
                    },
                );
            }
        }
    }
}

/// Deleting an alias keeps the order.
pub proof fn law_delete_keeps_order(
    st: StoreState,
    collection: Option<Seq<char>>,
    name: Seq<char>,
    now: Option<i64>,
)
    ensures
        keeps_order(st, model::alias_deleted(st, collection, name, now).0),
{
    if model::consistent(st) && names::valid_name(name) && now is Some {
        lemma_scope(st, collection, name);
        if model::scope_of(st, collection, name) is Ok {
            let cid = model::scope_of(st, collection, name)->Ok_0;
            if st.aliases.contains_key((cid, name)) {
                lemma_with_alias(
                    st,
                    AliasRec {
                        deleted: true,
                        dirty: true,
                        updated_at: now.unwrap(),
                        ..st.aliases[(cid, name)]
                    },
                );
            }
        }
    }
}

/// Moving an alias keeps the order.
pub proof fn law_move_keeps_order(
    st: StoreState,
    name: Seq<char>,
    from: Seq<char>,
    to: Seq<char>,
    now: Option<i64>,
)
    ensures
        keeps_order(st, model::alias_moved(st, name, from, to, now).0),
{
    let after = model::alias_moved(st, name, from, to, now).0;
    if model::consistent(st) && after != st {
        let source = model::collection_named(st, from)->Ok_0;
        let target = model::collection_named(st, to)->Ok_0;
        assert(model::has_name(st, source, from));
        assert(model::has_name(st, target, to));
        assert(st.aliases.contains_key((source, name)));
        assert forall|x: AliasKey, y: AliasKey| #[trigger]
            after.aliases.contains_key(x) && #[trigger] after.aliases.contains_key(y)
                && after.aliases[x].id == after.aliases[y].id implies x == y by {
            let old_x = if x == (target, name) {
                (source, name)
            } else {
                x
            };
            let old_y = if y == (target, name) {
                (source, name)
            } else {
                y
            };
            assert(st.aliases.contains_key(old_x));
            assert(st.aliases.contains_key(old_y));
        }
        assert(model::keys_agree(after));
    }
}

/// Taking over a collection keeps the order.
pub proof fn law_remote_collection_keeps_order(
    st: StoreState,
    r: RemoteCollection,
    now: Option<i64>,
)
    ensures
        keeps_order(st, model::remote_collection_applied(st, r, now).0),
{
    if model::consistent(st) && names::valid_name(r.name) && now is Some {
        let deleted = r.deleted && r.name != DEFAULT_COLLECTION_NAME@;
        match model::id_of_name(st, r.name) {
            Some(id) => {
                assert(model::has_name(st, id, r.name));
                lemma_with_collection(
                    st,
                    CollectionRec {
                        deleted: deleted,
                        dirty: false,
                        sync_version: r.version,
                        updated_at: r.updated_at,
                        ..st.collections[id]
                    },
                );
            },
            None => {
                if !st.collections.contains_key(r.id) {
                    lemma_with_collection(
                        st,
                        CollectionRec {
                            id: r.id,
                            name: r.name,
                            deleted: deleted,
                            dirty: false,
                            sync_version: r.version,
                            created_at: now.unwrap(),
                            updated_at: r.updated_at,
                        },
                    );
                }
            },
        }
    }
}

/// Making sure of a collection keeps the order, and where it succeeds the collection can be found.
pub proof fn law_ensure_remote_keeps_order(
    st: StoreState,
    id: Seq<char>,
    name: Seq<char>,
    now: Option<i64>,
)
    ensures
        keeps_order(st, model::remote_collection_ensured(st, id, name, now).0),
        model::consistent(st) && model::remote_collection_ensured(st, id, name, now).1 is Ok
            ==> model::collection_named(
            model::remote_collection_ensured(st, id, name, now).0,
            name,
        ) is Ok,
{
    if model::consistent(st) && names::valid_name(name) && now is Some && model::collection_named(
        st,
        name,
    ) is Err {
        let after = model::remote_collection_ensured(st, id, name, now).0;
        match model::id_of_name(st, name) {
            Some(there) => {
                assert(model::has_name(st, there, name));
                lemma_with_collection(
                    st,
                    CollectionRec { deleted: false, ..st.collections[there] },
                );
                rows::lemma_id_of_name(after, there);
            },
            None => {
                if !st.collections.contains_key(id) {
                    lemma_with_collection(
                        st,
                        CollectionRec {
                            id: id,
                            name: name,
                            deleted: false,
                            dirty: false,
                            sync_version: 0,
                            created_at: now.unwrap(),
                            updated_at: now.unwrap(),
                        },
                    );
                    rows::lemma_id_of_name(after, id);
                }
            },
        }
    }
}

pub proof fn lemma_remote_alias_stored(
    st: StoreState,
    r: RemoteAlias,
    cid: Seq<char>,
    backup_id: Seq<char>,
    now: Option<i64>,
)
    requires
        model::consistent(st) ==> st.collections.contains_key(cid),
        names::valid_name(r.name),
    ensures
        keeps_order(st, model::remote_alias_stored(st, r, cid, backup_id, now).0),
{
    if model::consistent(st) && now is Some {
        let after = model::remote_alias_stored(st, r, cid, backup_id, now).0;
        let key = (cid, r.name);
        let mid = StoreState { backups: after.backups, ..st };
        assert(model::keys_agree(mid));
        if after.aliases != st.aliases {
            assert(!model::alias_id_taken_by_other(mid, r.id, key));
            lemma_with_alias(mid, after.aliases[key]);
            assert(after =~= model::with_alias(mid, after.aliases[key]));
        } else {
            assert(after =~= mid);
        }
    }
}

/// Taking over an alias keeps the order, also where it fails half-way.
pub proof fn law_remote_alias_keeps_order(
    st: StoreState,
    r: RemoteAlias,
    backup_id: Seq<char>,
    now: Option<i64>,
)
    ensures
        keeps_order(st, model::remote_alias_applied(st, r, backup_id, now).0),
{
    if names::valid_name(r.name) {
        law_ensure_remote_keeps_order(st, r.collection_id, r.collection_name, now);
        match model::remote_collection_ensured(st, r.collection_id, r.collection_name, now) {
            (mid, Ok(())) => {
                match model::collection_named(mid, r.collection_name) {
                    Ok(cid) => {
                        assert(model::has_name(mid, cid, r.collection_name));
                        lemma_remote_alias_stored(mid, r, cid, backup_id, now);
                    },
                    Err(_) => {},
                }
            },
            (_, Err(_)) => {},
        }
    }
}

/// Noting what the server has keeps the order.
pub proof fn law_synced_keeps_order(st: StoreState, id: Seq<char>, version: i64)
    ensures
        keeps_order(st, model::collection_synced(st, id, version)),
        keeps_order(st, model::alias_synced(st, id, version)),
{
    if model::consistent(st) {
        if st.collections.contains_key(id) {
            lemma_with_collection(
                st,
                CollectionRec { dirty: false, sync_version: version, ..st.collections[id] },
            );
        }
        let after = model::alias_synced(st, id, version);
        assert(after.aliases.dom() =~= st.aliases.dom());
        assert(model::keys_agree(after));
    }
}

// ---------------------------------------------------------------------------
// What a shell gets
// ---------------------------------------------------------------------------
/// Where priorities differ, no two aliases of one name are effective.
pub proof fn law_one_alias_per_name(st: StoreState, a: AliasKey, b: AliasKey)
    requires
        model::consistent(st),
        model::priorities_distinct(st),
        model::effective(st, a),
        model::effective(st, b),
        a.1 == b.1,
    ensures
        a == b,
{
    assert(model::in_force(st, a) && model::in_force(st, b));
    assert(st.active.contains_key(a.0) && st.active.contains_key(b.0));
}

proof fn lemma_best_in_force(st: StoreState, name: Seq<char>, ids: Set<Seq<char>>) -> (id: Seq<char>)
    requires
        ids.finite(),
        exists|other: Seq<char>| ids.contains(other) && model::in_force(st, (other, name)),
    ensures
        ids.contains(id),
        model::in_force(st, (id, name)),
        forall|other: Seq<char>| #[trigger]
            ids.contains(other) && model::in_force(st, (other, name)) ==> st.active[other].priority
                <= st.active[id].priority,
    decreases ids.len(),
{
    let one = choose|other: Seq<char>| ids.contains(other) && model::in_force(st, (other, name));
    let rest = ids.remove(one);
    if exists|other: Seq<char>| rest.contains(other) && model::in_force(st, (other, name)) {
        let best = lemma_best_in_force(st, name, rest);
        let id = if st.active[best].priority >= st.active[one].priority {
            best
        } else {
            one
        };
        assert forall|other: Seq<char>| #[trigger]
            ids.contains(other) && model::in_force(st, (other, name)) implies
            st.active[other].priority <= st.active[id].priority by {
            if other != one {
                assert(rest.contains(other));
            }
        }
        id
    } else {
        assert forall|other: Seq<char>| #[trigger]
            ids.contains(other) && model::in_force(st, (other, name)) implies other == one by {
            if other != one {
                assert(rest.contains(other));
            }
        }
        one
    }
}

/// Where an alias is in force, one of its name is effective, with a priority that is not lower.
pub proof fn law_some_alias_per_name(st: StoreState, k: AliasKey)
    requires
        model::consistent(st),
        model::in_force(st, k),
    ensures
        exists|id: Seq<char>| #[trigger]
            model::effective(st, (id, k.1)) && st.active[id].priority >= st.active[k.0].priority,
{
    assert((k.0, k.1) == k);
    assert(st.active.dom().contains(k.0) && model::in_force(st, (k.0, k.1)));
    let id = lemma_best_in_force(st, k.1, st.active.dom());
    assert forall|other: AliasKey| #[trigger] model::in_force(st, other) && other.1 == k.1 implies
        st.active[other.0].priority <= st.active[id].priority by {
        assert((other.0, other.1) == other);
        assert(st.active.dom().contains(other.0));
    }
    assert(model::effective(st, (id, k.1)));
}

/// An alias of a collection that is not active, or that is deleted, is not effective.
pub proof fn law_inactive_not_effective(st: StoreState, k: AliasKey)
    requires
        !st.active.contains_key(k.0) || !model::holds(st, k.0, k.1),
    ensures
        !model::effective(st, k),
{
}

/// Every alias of a collection that was just activated is effective.
pub proof fn law_activated_is_effective(st: StoreState, collection: Seq<char>, name: Seq<char>)
    requires
        model::consistent(st),
        model::collection_activated(st, collection).1 == Ok::<bool, Failure>(true),
        model::holds(st, model::collection_named(st, collection)->Ok_0, name),
    ensures
        model::effective(
            model::collection_activated(st, collection).0,
            (model::collection_named(st, collection)->Ok_0, name),
        ),
{
    lemma_highest(st);
    let after = model::collection_activated(st, collection).0;
    let id = model::collection_named(st, collection)->Ok_0;
    assert forall|other: AliasKey| #[trigger] model::in_force(after, other) implies
        after.active[other.0].priority <= after.active[id].priority by {
        if other.0 != id {
            assert(st.active.contains_key(other.0));
        }
    }
    assert(model::in_force(after, (id, name)));
}

/// No alias of a collection that was just deactivated is effective.
pub proof fn law_deactivated_not_effective(st: StoreState, collection: Seq<char>, name: Seq<char>)
    requires
        model::collection_deactivated(st, collection).1 is Ok,
    ensures
        !model::effective(
            model::collection_deactivated(st, collection).0,
            (model::collection_named(st, collection)->Ok_0, name),
        ),
{
}

/// Deactivating a collection that was just activated gives back what was there.
pub proof fn law_deactivate_undoes_activate(st: StoreState, collection: Seq<char>)
    requires
        model::consistent(st),
        model::collection_activated(st, collection).1 == Ok::<bool, Failure>(true),
    ensures
        model::collection_deactivated(model::collection_activated(st, collection).0, collection)
            == (st, Ok::<bool, Failure>(true)),
{
    let after = model::collection_activated(st, collection).0;
    lemma_same_collections(st, after, collection);
    let id = model::collection_named(st, collection)->Ok_0;
    assert(after.active.remove(id) =~= st.active);
}

/// Names lead to the same collections as long as the collections do not change.
pub proof fn lemma_same_collections(a: StoreState, b: StoreState, name: Seq<char>)
    requires
        model::keys_agree(a),
        a.collections == b.collections,
    ensures
        model::id_of_name(a, name) == model::id_of_name(b, name),
        model::collection_named(a, name) == model::collection_named(b, name),
{
    if exists|id: Seq<char>| model::has_name(a, id, name) {
        let id = choose|id: Seq<char>| model::has_name(a, id, name);
        assert(model::has_name(b, id, name));
        let other = choose|other: Seq<char>| model::has_name(b, other, name);
        assert(model::has_name(b, other, name));
        assert(a.collections.contains_key(id) && a.collections.contains_key(other));
    } else {
        assert forall|id: Seq<char>| !model::has_name(b, id, name) by {
            assert(!model::has_name(a, id, name));
        }
    }
}

// ---------------------------------------------------------------------------
// What a change does
// ---------------------------------------------------------------------------
/// What is refused changes nothing.
pub proof fn law_refused_changes_nothing(
    st: StoreState,
    collection: Seq<char>,
    scope: Option<Seq<char>>,
    other: Seq<char>,
    name: Seq<char>,
    command: Seq<char>,
    id: Seq<char>,
    now: Option<i64>,
)
    ensures
        model::collection_created(st, collection, now).1 is Err ==> model::collection_created(
            st,
            collection,
            now,
        ).0 == st,
        model::collection_activated(st, collection).1 is Err ==> model::collection_activated(
            st,
            collection,
        ).0 == st,
        model::collection_deactivated(st, collection).1 is Err ==> model::collection_deactivated(
            st,
            collection,
        ).0 == st,
        model::alias_upserted(st, collection, name, command, id, now).1 is Err
            ==> model::alias_upserted(st, collection, name, command, id, now).0 == st,
        model::alias_updated(st, scope, name, command, now).1 is Err ==> model::alias_updated(
            st,
            scope,
            name,
            command,
            now,
        ).0 == st,
        model::alias_deleted(st, scope, name, now).1 is Err ==> model::alias_deleted(
            st,
            scope,
            name,
            now,
        ).0 == st,
        model::alias_moved(st, name, collection, other, now).1 is Err ==> model::alias_moved(
            st,
            name,
            collection,
            other,
            now,
        ).0 == st,
{
}

/// An alias that was put into a collection is there, with its command, and waits to be sent; an
/// alias that was there before keeps its id; nothing else changes.
pub proof fn law_upserted_is_there(
    st: StoreState,
    collection: Seq<char>,
    name: Seq<char>,
    command: Seq<char>,
    id: Seq<char>,
    now: Option<i64>,
)
    requires
        model::consistent(st),
        model::alias_upserted(st, collection, name, command, id, now).1 is Ok,
    ensures
        ({
            let after = model::alias_upserted(st, collection, name, command, id, now).0;
            let cid = model::collection_named(st, collection)->Ok_0;
            &&& model::holds(after, cid, name)
            &&& after.aliases[(cid, name)].command == command
            &&& after.aliases[(cid, name)].dirty
            &&& after.aliases[(cid, name)].id == if st.aliases.contains_key((cid, name)) {
                st.aliases[(cid, name)].id
            } else {
                id
            }
            &&& after.aliases.remove((cid, name)) == st.aliases.remove((cid, name))
            &&& after.collections == st.collections
            &&& after.active == st.active
            &&& after.backups == st.backups
        }),
{
    let after = model::alias_upserted(st, collection, name, command, id, now).0;
    let cid = model::collection_named(st, collection)->Ok_0;
    assert(model::has_name(st, cid, collection));
    assert(after.aliases.remove((cid, name)) =~= st.aliases.remove((cid, name)));
}

/// An alias that was edited is there with its new command and its id, and waits to be sent;
/// nothing else changes.
pub proof fn law_updated_is_there(
    st: StoreState,
    scope: Option<Seq<char>>,
    name: Seq<char>,
    command: Seq<char>,
    now: Option<i64>,
)
    requires
        model::consistent(st),
        model::alias_updated(st, scope, name, command, now).1 is Ok,
    ensures
        ({
            let after = model::alias_updated(st, scope, name, command, now).0;
            let cid = model::scope_of(st, scope, name)->Ok_0;
            &&& model::holds(after, cid, name)
            &&& after.aliases[(cid, name)].command == command
            &&& after.aliases[(cid, name)].id == st.aliases[(cid, name)].id
            &&& model::pending_keys(after).contains((cid, name))
            &&& after.aliases.remove((cid, name)) == st.aliases.remove((cid, name))
            &&& after.collections == st.collections
            &&& after.active == st.active
            &&& after.backups == st.backups
        }),
{
    let after = model::alias_updated(st, scope, name, command, now).0;
    let cid = model::scope_of(st, scope, name)->Ok_0;
    if let Some(c) = scope {
        assert(model::has_name(st, cid, c));
    }
    assert(after.aliases.remove((cid, name)) =~= st.aliases.remove((cid, name)));
}

/// An alias that was deleted is gone, but stays as a deletion to be sent; nothing else changes.
pub proof fn law_deleted_is_gone(
    st: StoreState,
    scope: Option<Seq<char>>,
    name: Seq<char>,
    now: Option<i64>,
)
    requires
        model::consistent(st),
        model::alias_deleted(st, scope, name, now).1 is Ok,
    ensures
        ({
            let after = model::alias_deleted(st, scope, name, now).0;
            let cid = model::scope_of(st, scope, name)->Ok_0;
            &&& !model::holds(after, cid, name)
            &&& model::pending_keys(after).contains((cid, name))
            &&& after.aliases.remove((cid, name)) == st.aliases.remove((cid, name))
            &&& after.collections == st.collections
            &&& after.active == st.active
            &&& after.backups == st.backups
        }),
{
    let after = model::alias_deleted(st, scope, name, now).0;
    let cid = model::scope_of(st, scope, name)->Ok_0;
    assert(after.aliases.remove((cid, name)) =~= st.aliases.remove((cid, name)));
}

/// An alias that was moved is in the other collection with its command and its id, waits to be sent
/// as changed at the time of the move, and is no longer in the first; nothing else changes.
pub proof fn law_moved_is_there(
    st: StoreState,
    name: Seq<char>,
    from: Seq<char>,
    to: Seq<char>,
    now: Option<i64>,
)
    requires
        model::consistent(st),
        model::alias_moved(st, name, from, to, now).1 is Ok,
    ensures
        ({
            let after = model::alias_moved(st, name, from, to, now).0;
            let source = model::collection_named(st, from)->Ok_0;
            let target = model::collection_named(st, to)->Ok_0;
            &&& source != target
            &&& model::holds(after, target, name)
            &&& after.aliases[(target, name)].command == st.aliases[(source, name)].command
            &&& after.aliases[(target, name)].id == st.aliases[(source, name)].id
            &&& after.aliases[(target, name)].dirty
            &&& model::pending_keys(after).contains((target, name))
            &&& now == Some(after.aliases[(target, name)].updated_at)
            &&& !after.aliases.contains_key((source, name))
            &&& after.aliases.remove((target, name)) == st.aliases.remove((source, name))
            &&& after.collections == st.collections
            &&& after.active == st.active
            &&& after.backups == st.backups
        }),
{
    let after = model::alias_moved(st, name, from, to, now).0;
    let source = model::collection_named(st, from)->Ok_0;
    let target = model::collection_named(st, to)->Ok_0;
    assert(model::has_name(st, target, to));
    assert(after.aliases.remove((target, name)) =~= st.aliases.remove((source, name)));
}

// ---------------------------------------------------------------------------
// What synchronising does
// ---------------------------------------------------------------------------
/// A local change that is later than an incoming one, and is still to be sent, is not touched.
pub proof fn law_later_local_change_is_kept(
    st: StoreState,
    r: RemoteAlias,
    backup_id: Seq<char>,
    now: Option<i64>,
)
    requires
        model::consistent(st),
        names::valid_name(r.name),
        model::collection_named(st, r.collection_name) is Ok,
        ({
            let key = (model::collection_named(st, r.collection_name)->Ok_0, r.name);
            st.aliases.contains_key(key) && st.aliases[key].dirty && st.aliases[key].updated_at
                > r.updated_at
        }),
    ensures
        model::remote_alias_applied(st, r, backup_id, now) == (st, Ok::<bool, Failure>(false)),
{
}

/// A local change of a collection that is later than an incoming one, and is still to be sent, is
/// not touched.
pub proof fn law_later_local_collection_is_kept(
    st: StoreState,
    r: RemoteCollection,
    now: Option<i64>,
)
    requires
        model::consistent(st),
        model::collection_named(st, r.name) is Ok,
        ({
            let id = model::collection_named(st, r.name)->Ok_0;
            st.collections[id].dirty && st.collections[id].updated_at > r.updated_at
        }),
    ensures
        model::remote_collection_applied(st, r, now) == (st, Ok::<bool, Failure>(false)),
{
}

/// A local change that an incoming one replaces, and that was still to be sent, is backed up.
pub proof fn law_replaced_change_is_backed_up(
    st: StoreState,
    r: RemoteAlias,
    backup_id: Seq<char>,
    now: Option<i64>,
)
    requires
        model::consistent(st),
        model::collection_named(st, r.collection_name) is Ok,
        ({
            let key = (model::collection_named(st, r.collection_name)->Ok_0, r.name);
            st.aliases.contains_key(key) && st.aliases[key].dirty
        }),
        model::remote_alias_applied(st, r, backup_id, now).1 == Ok::<bool, Failure>(true),
    ensures
        ({
            let key = (model::collection_named(st, r.collection_name)->Ok_0, r.name);
            let after = model::remote_alias_applied(st, r, backup_id, now).0;
            &&& !st.backups.contains_key(backup_id)
            &&& after.backups.contains_key(backup_id)
            &&& after.backups[backup_id].alias_name == r.collection_name + "/"@ + r.name
            &&& after.backups[backup_id].command == st.aliases[key].command
            &&& after.backups[backup_id].remote_version == r.version
        }),
{
    assert(model::has_name(
        st,
        model::collection_named(st, r.collection_name)->Ok_0,
        r.collection_name,
    ));
}

/// No backup is ever changed or removed.
pub proof fn law_backups_stay(
    st: StoreState,
    r: RemoteAlias,
    backup_id: Seq<char>,
    now: Option<i64>,
)
    ensures
        st.backups.submap_of(model::remote_alias_applied(st, r, backup_id, now).0.backups),
{
    let after = model::remote_alias_applied(st, r, backup_id, now).0;
    assert(model::remote_collection_ensured(st, r.collection_id, r.collection_name, now).0.backups
        == st.backups);
    assert forall|id: Seq<char>| #[trigger] st.backups.dom().contains(id) implies
        after.backups.dom().contains(id) && after.backups[id] == st.backups[id] by {}
}

/// An alias that was taken over reads as the other computer sent it, and does not wait to be sent.
/// No other alias changes, and no collection is activated or deactivated.
pub proof fn law_taken_over_is_there(
    st: StoreState,
    r: RemoteAlias,
    backup_id: Seq<char>,
    now: Option<i64>,
)
    requires
        model::consistent(st),
        model::remote_alias_applied(st, r, backup_id, now).1 == Ok::<bool, Failure>(true),
    ensures
        ({
            let after = model::remote_alias_applied(st, r, backup_id, now).0;
            let named = model::collection_named(after, r.collection_name);
            let key = (named->Ok_0, r.name);
            &&& named is Ok
            &&& after.aliases.contains_key(key)
            &&& after.aliases[key].id == r.id
            &&& after.aliases[key].command == r.command
            &&& after.aliases[key].deleted == r.deleted
            &&& after.aliases[key].sync_version == r.version
            &&& after.aliases[key].updated_at == r.updated_at
            &&& !after.aliases[key].dirty
            &&& after.aliases.remove(key) == st.aliases.remove(key)
            &&& after.active == st.active
        }),
{
    law_ensure_remote_keeps_order(st, r.collection_id, r.collection_name, now);
    let mid = model::remote_collection_ensured(st, r.collection_id, r.collection_name, now).0;
    let after = model::remote_alias_applied(st, r, backup_id, now).0;
    lemma_same_collections(mid, after, r.collection_name);
    let key = (model::collection_named(after, r.collection_name)->Ok_0, r.name);
    assert(after.aliases.remove(key) =~= st.aliases.remove(key));
}

/// Taking over the same alias once more changes nothing.
pub proof fn law_taking_over_twice(
    st: StoreState,
    r: RemoteAlias,
    backup_id: Seq<char>,
    other_backup_id: Seq<char>,
    now: Option<i64>,
    later: Option<i64>,
)
    requires
        model::consistent(st),
        model::remote_alias_applied(st, r, backup_id, now).1 == Ok::<bool, Failure>(true),
        later is Some,
    ensures
        ({
            let after = model::remote_alias_applied(st, r, backup_id, now).0;
            model::remote_alias_applied(after, r, other_backup_id, later) == (
                after,
                Ok::<bool, Failure>(true),
            )
        }),
{
    law_taken_over_is_there(st, r, backup_id, now);
    law_remote_alias_keeps_order(st, r, backup_id, now);
    let after = model::remote_alias_applied(st, r, backup_id, now).0;
    let cid = model::collection_named(after, r.collection_name)->Ok_0;
    let key = (cid, r.name);
    assert(!model::alias_id_taken_by_other(after, r.id, key)) by {
        if model::alias_id_taken_by_other(after, r.id, key) {
            let k = choose|k: AliasKey| #[trigger]
                after.aliases.contains_key(k) && k != key && after.aliases[k].id == r.id;
            assert(after.aliases.contains_key(k) && after.aliases.contains_key(key));
        }
    }
    assert(model::has_name(after, cid, r.collection_name));
    let again = model::remote_alias_applied(after, r, other_backup_id, later).0;
    assert(again.aliases =~= after.aliases);
    assert(again =~= after);
}

/// A collection that was taken over reads as the other computer sent it, except that the shared
/// one is never deleted.
pub proof fn law_collection_taken_over_is_there(
    st: StoreState,
    r: RemoteCollection,
    now: Option<i64>,
)
    requires
        model::consistent(st),
        model::remote_collection_applied(st, r, now).1 == Ok::<bool, Failure>(true),
    ensures
        ({
            let after = model::remote_collection_applied(st, r, now).0;
            let id = model::id_of_name(after, r.name);
            let c = after.collections[id.unwrap()];
            &&& id is Some
            &&& c.deleted == (r.deleted && r.name != DEFAULT_COLLECTION_NAME@)
            &&& c.sync_version == r.version
            &&& c.updated_at == r.updated_at
            &&& !c.dirty
        }),
{
    law_remote_collection_keeps_order(st, r, now);
    let after = model::remote_collection_applied(st, r, now).0;
    match model::id_of_name(st, r.name) {
        Some(id) => {
            assert(model::has_name(st, id, r.name));
            rows::lemma_id_of_name(after, id);
        },
        None => {
            rows::lemma_id_of_name(after, r.id);
        },
    }
}

/// What the server has does not wait to be sent.
pub proof fn law_synced_is_not_pending(st: StoreState, id: Seq<char>, version: i64)
    requires
        model::consistent(st),
    ensures
        !model::dirty_ids(model::collection_synced(st, id, version)).contains(id),
        forall|k: AliasKey| #[trigger]
            model::dirty_keys(model::alias_synced(st, id, version)).contains(k)
                <==> model::dirty_keys(st).contains(k) && st.aliases[k].id != id,
{
}

} // verus!
