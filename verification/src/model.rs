//! The aliases of a computer as mathematics: what is stored, and what each operation does to it.

use vstd::prelude::*;

use crate::error::Failure;
use crate::names;
use crate::names::{DEFAULT_COLLECTION_ID, DEFAULT_COLLECTION_NAME};
use crate::text;

verus! {

// ---------------------------------------------------------------------------
// What is stored
// ---------------------------------------------------------------------------
/// A collection of aliases.
#[verifier::ext_equal]
pub struct CollectionRec {
    pub id: Seq<char>,
    pub name: Seq<char>,
    pub deleted: bool,
    pub dirty: bool,
    pub sync_version: i64,
    pub created_at: i64,
    pub updated_at: i64,
}

/// The mark that a collection is active on this computer.
#[verifier::ext_equal]
pub struct ActiveRec {
    pub collection_id: Seq<char>,
    pub priority: i64,
}

/// An alias in a collection. A deleted one stays, so that its deletion can be synchronised.
#[verifier::ext_equal]
pub struct AliasRec {
    pub id: Seq<char>,
    pub collection_id: Seq<char>,
    pub name: Seq<char>,
    pub command: Seq<char>,
    pub deleted: bool,
    pub dirty: bool,
    pub sync_version: i64,
    pub created_at: i64,
    pub updated_at: i64,
}

/// A local command that a change from another computer replaced.
#[verifier::ext_equal]
pub struct BackupRec {
    pub id: Seq<char>,
    pub alias_name: Seq<char>,
    pub command: Seq<char>,
    pub remote_version: i64,
    pub created_at: i64,
}

/// The key of an alias: the id of its collection, and its name.
pub type AliasKey = (Seq<char>, Seq<char>);

/// Everything that is stored: collections and marks by collection id, aliases by collection and
/// name, backups by id.
#[verifier::ext_equal]
pub struct StoreState {
    pub collections: Map<Seq<char>, CollectionRec>,
    pub active: Map<Seq<char>, ActiveRec>,
    pub aliases: Map<AliasKey, AliasRec>,
    pub backups: Map<Seq<char>, BackupRec>,
}

pub open spec fn collection_key() -> spec_fn(CollectionRec) -> Seq<char> {
    |r: CollectionRec| r.id
}

pub open spec fn collection_name_key() -> spec_fn(CollectionRec) -> Seq<char> {
    |r: CollectionRec| r.name
}

pub open spec fn active_key() -> spec_fn(ActiveRec) -> Seq<char> {
    |r: ActiveRec| r.collection_id
}

pub open spec fn alias_key() -> spec_fn(AliasRec) -> AliasKey {
    |r: AliasRec| (r.collection_id, r.name)
}

pub open spec fn alias_id_key() -> spec_fn(AliasRec) -> Seq<char> {
    |r: AliasRec| r.id
}

pub open spec fn backup_key() -> spec_fn(BackupRec) -> Seq<char> {
    |r: BackupRec| r.id
}

// ---------------------------------------------------------------------------
// What always holds
// ---------------------------------------------------------------------------
/// Records stand under their own keys, ids and names of collections and ids of aliases are not
/// used twice, and there are finitely many of each.
pub open spec fn keys_agree(st: StoreState) -> bool {
    &&& forall|id: Seq<char>| #[trigger]
        st.collections.contains_key(id) ==> st.collections[id].id == id
    &&& forall|a: Seq<char>, b: Seq<char>| #[trigger]
        st.collections.contains_key(a) && #[trigger] st.collections.contains_key(b)
            && st.collections[a].name == st.collections[b].name ==> a == b
    &&& forall|id: Seq<char>| #[trigger]
        st.active.contains_key(id) ==> st.active[id].collection_id == id
    &&& forall|k: AliasKey| #[trigger]
        st.aliases.contains_key(k) ==> st.aliases[k].collection_id == k.0 && st.aliases[k].name
            == k.1
    &&& forall|a: AliasKey, b: AliasKey| #[trigger]
        st.aliases.contains_key(a) && #[trigger] st.aliases.contains_key(b) && st.aliases[a].id
            == st.aliases[b].id ==> a == b
    &&& forall|id: Seq<char>| #[trigger] st.backups.contains_key(id) ==> st.backups[id].id == id
    &&& st.collections.dom().finite()
    &&& st.active.dom().finite()
    &&& st.aliases.dom().finite()
}

/// Every collection that is referred to is there. Tables that were changed by other programs may
/// refer to others; such a reference joins nothing.
pub open spec fn references_hold(st: StoreState) -> bool {
    &&& forall|id: Seq<char>| #[trigger]
        st.active.contains_key(id) ==> st.collections.contains_key(id)
    &&& forall|k: AliasKey| #[trigger]
        st.aliases.contains_key(k) ==> st.collections.contains_key(k.0)
}

/// The shared collection is there, is not deleted, and is active with the lowest priority.
pub open spec fn shared_present(st: StoreState) -> bool {
    &&& st.collections.contains_key(DEFAULT_COLLECTION_ID@)
    &&& st.collections[DEFAULT_COLLECTION_ID@].name == DEFAULT_COLLECTION_NAME@
    &&& !st.collections[DEFAULT_COLLECTION_ID@].deleted
    &&& st.active.contains_key(DEFAULT_COLLECTION_ID@)
    &&& st.active[DEFAULT_COLLECTION_ID@].priority == 0
}

/// What holds of every store, before and after every operation.
pub open spec fn consistent(st: StoreState) -> bool {
    keys_agree(st) && shared_present(st)
}

/// No two active collections have the same priority.
pub open spec fn priorities_distinct(st: StoreState) -> bool {
    forall|a: Seq<char>, b: Seq<char>| #[trigger]
        st.active.contains_key(a) && #[trigger] st.active.contains_key(b)
            && st.active[a].priority == st.active[b].priority ==> a == b
}

/// Every collection and every alias has a valid name.
pub open spec fn names_valid(st: StoreState) -> bool {
    &&& forall|id: Seq<char>| #[trigger]
        st.collections.contains_key(id) ==> names::valid_name(st.collections[id].name)
    &&& forall|k: AliasKey| #[trigger] st.aliases.contains_key(k) ==> names::valid_name(k.1)
}

// ---------------------------------------------------------------------------
// Looking up
// ---------------------------------------------------------------------------
pub open spec fn has_name(st: StoreState, id: Seq<char>, name: Seq<char>) -> bool {
    st.collections.contains_key(id) && st.collections[id].name == name
}

/// The collection of the given name, deleted or not.
pub open spec fn id_of_name(st: StoreState, name: Seq<char>) -> Option<Seq<char>> {
    if exists|id: Seq<char>| has_name(st, id, name) {
        Some(choose|id: Seq<char>| has_name(st, id, name))
    } else {
        None
    }
}

/// The collection of the given name, which has to be valid, unless it is deleted.
pub open spec fn collection_named(st: StoreState, name: Seq<char>) -> Result<Seq<char>, Failure> {
    if !names::valid_name(name) {
        Err(Failure::InvalidName(name))
    } else {
        match id_of_name(st, name) {
            Some(id) => if st.collections[id].deleted {
                Err(Failure::CollectionNotFound(name))
            } else {
                Ok(id)
            },
            None => Err(Failure::CollectionNotFound(name)),
        }
    }
}

/// The collection holds an alias of that name, and neither is deleted.
pub open spec fn holds(st: StoreState, id: Seq<char>, name: Seq<char>) -> bool {
    st.aliases.contains_key((id, name)) && !st.aliases[(id, name)].deleted
        && st.collections.contains_key(id) && !st.collections[id].deleted
}

/// The collection in which an alias is to be changed: the one that is named, or else the only one
/// that holds the alias.
pub open spec fn scope_of(st: StoreState, collection: Option<Seq<char>>, name: Seq<char>) -> Result<
    Seq<char>,
    Failure,
> {
    match collection {
        Some(c) => collection_named(st, c),
        None => if !exists|id: Seq<char>| holds(st, id, name) {
            Err(Failure::AliasNotFound(name))
        } else if exists|a: Seq<char>, b: Seq<char>|
            holds(st, a, name) && holds(st, b, name) && a != b {
            Err(Failure::AmbiguousAlias)
        } else {
            Ok(choose|id: Seq<char>| holds(st, id, name))
        },
    }
}

pub open spec fn alias_id_taken(st: StoreState, id: Seq<char>) -> bool {
    exists|k: AliasKey| #[trigger] st.aliases.contains_key(k) && st.aliases[k].id == id
}

/// The highest priority in use.
pub open spec fn is_highest(st: StoreState, p: int) -> bool {
    &&& exists|id: Seq<char>| #[trigger] st.active.contains_key(id) && st.active[id].priority == p
    &&& forall|id: Seq<char>| #[trigger] st.active.contains_key(id) ==> st.active[id].priority <= p
}

pub open spec fn highest_priority(st: StoreState) -> int {
    choose|p: int| is_highest(st, p)
}

// ---------------------------------------------------------------------------
// Collections
// ---------------------------------------------------------------------------
/// Puts a collection under its id.
pub open spec fn with_collection(st: StoreState, c: CollectionRec) -> StoreState {
    StoreState { collections: st.collections.insert(c.id, c), ..st }
}

/// Puts an alias under its collection and name.
pub open spec fn with_alias(st: StoreState, a: AliasRec) -> StoreState {
    StoreState { aliases: st.aliases.insert((a.collection_id, a.name), a), ..st }
}

/// Makes sure that the shared collection is there, is not deleted and is active with priority 0.
pub open spec fn shared_ensured(st: StoreState, now: i64) -> Result<StoreState, Failure> {
    let id = DEFAULT_COLLECTION_ID@;
    let name = DEFAULT_COLLECTION_NAME@;
    if exists|other: Seq<char>| other != id && has_name(st, other, name) {
        Err(Failure::DuplicateCollectionName)
    } else {
        let shared = if st.collections.contains_key(id) {
            CollectionRec { name: name, deleted: false, ..st.collections[id] }
        } else {
            CollectionRec {
                id: id,
                name: name,
                deleted: false,
                dirty: false,
                sync_version: 0,
                created_at: now,
                updated_at: now,
            }
        };
        Ok(
            StoreState {
                collections: st.collections.insert(id, shared),
                active: st.active.insert(id, ActiveRec { collection_id: id, priority: 0 }),
                ..st
            },
        )
    }
}

/// Creates a collection, or takes back its deletion.
pub open spec fn collection_created(st: StoreState, name: Seq<char>, now: Option<i64>) -> (
    StoreState,
    Result<(), Failure>,
) {
    if !names::valid_name(name) {
        (st, Err(Failure::InvalidName(name)))
    } else {
        match now {
            None => (st, Err(Failure::ClockBeforeEpoch)),
            Some(t) => if name == DEFAULT_COLLECTION_NAME@ {
                match shared_ensured(st, t) {
                    Ok(after) => (after, Ok(())),
                    Err(f) => (st, Err(f)),
                }
            } else {
                match id_of_name(st, name) {
                    Some(id) => (
                        with_collection(
                            st,
                            CollectionRec {
                                deleted: false,
                                dirty: true,
                                updated_at: t,
                                ..st.collections[id]
                            },
                        ),
                        Ok(()),
                    ),
                    None => if st.collections.contains_key(names::id_for_name(name)) {
                        (st, Err(Failure::DuplicateCollectionId))
                    } else {
                        (
                            with_collection(
                                st,
                                CollectionRec {
                                    id: names::id_for_name(name),
                                    name: name,
                                    deleted: false,
                                    dirty: true,
                                    sync_version: 0,
                                    created_at: t,
                                    updated_at: t,
                                },
                            ),
                            Ok(()),
                        )
                    },
                }
            },
        }
    }
}

/// Activates one collection above all others. The value says whether anything changed.
pub open spec fn collection_activated(st: StoreState, name: Seq<char>) -> (
    StoreState,
    Result<bool, Failure>,
) {
    if !names::valid_name(name) {
        (st, Err(Failure::InvalidName(name)))
    } else if name == DEFAULT_COLLECTION_NAME@ {
        (st, Ok(false))
    } else {
        match collection_named(st, name) {
            Err(f) => (st, Err(f)),
            Ok(id) => if st.active.contains_key(id) {
                (st, Ok(false))
            } else if highest_priority(st) >= i64::MAX {
                (st, Err(Failure::PriorityOverflow))
            } else {
                (
                    StoreState {
                        active: st.active.insert(
                            id,
                            ActiveRec {
                                collection_id: id,
                                priority: (highest_priority(st) + 1) as i64,
                            },
                        ),
                        ..st
                    },
                    Ok(true),
                )
            },
        }
    }
}

/// Activates collections one after the other, up to the first that fails. The value holds the
/// names of those that were not active before.
pub open spec fn each_activated(st: StoreState, names: Seq<Seq<char>>) -> (
    StoreState,
    Result<Seq<Seq<char>>, Failure>,
)
    decreases names.len(),
{
    if names.len() == 0 {
        (st, Ok(Seq::empty()))
    } else {
        match each_activated(st, names.drop_last()) {
            (mid, Err(f)) => (mid, Err(f)),
            (mid, Ok(done)) => match collection_activated(mid, names.last()) {
                (after, Err(f)) => (after, Err(f)),
                (after, Ok(true)) => (after, Ok(done.push(names.last()))),
                (after, Ok(false)) => (after, Ok(done)),
            },
        }
    }
}

/// Activates collections, where a priority above the highest is left.
pub open spec fn collections_activated(st: StoreState, names: Seq<Seq<char>>) -> (
    StoreState,
    Result<Seq<Seq<char>>, Failure>,
) {
    if highest_priority(st) >= i64::MAX {
        (st, Err(Failure::PriorityOverflow))
    } else {
        each_activated(st, names)
    }
}

/// Deactivates a collection other than the shared one. The value says whether it was active.
pub open spec fn collection_deactivated(st: StoreState, name: Seq<char>) -> (
    StoreState,
    Result<bool, Failure>,
) {
    if !names::valid_name(name) {
        (st, Err(Failure::InvalidName(name)))
    } else if name == DEFAULT_COLLECTION_NAME@ {
        (st, Err(Failure::SharedAlwaysActive))
    } else {
        match collection_named(st, name) {
            Err(f) => (st, Err(f)),
            Ok(id) => (
                StoreState { active: st.active.remove(id), ..st },
                Ok(st.active.contains_key(id)),
            ),
        }
    }
}

// ---------------------------------------------------------------------------
// Aliases
// ---------------------------------------------------------------------------
/// Puts a command under a name in a collection. An alias that is new gets the given id.
pub open spec fn alias_upserted(
    st: StoreState,
    collection: Seq<char>,
    name: Seq<char>,
    command: Seq<char>,
    id: Seq<char>,
    now: Option<i64>,
) -> (StoreState, Result<(), Failure>) {
    if !names::valid_name(name) {
        (st, Err(Failure::InvalidName(name)))
    } else {
        match collection_named(st, collection) {
            Err(f) => (st, Err(f)),
            Ok(cid) => match now {
                None => (st, Err(Failure::ClockBeforeEpoch)),
                Some(t) => if st.aliases.contains_key((cid, name)) {
                    (
                        with_alias(
                            st,
                            AliasRec {
                                command: command,
                                deleted: false,
                                dirty: true,
                                updated_at: t,
                                ..st.aliases[(cid, name)]
                            },
                        ),
                        Ok(()),
                    )
                } else if alias_id_taken(st, id) {
                    (st, Err(Failure::DuplicateAliasId))
                } else {
                    (
                        with_alias(
                            st,
                            AliasRec {
                                id: id,
                                collection_id: cid,
                                name: name,
                                command: command,
                                deleted: false,
                                dirty: true,
                                sync_version: 0,
                                created_at: t,
                                updated_at: t,
                            },
                        ),
                        Ok(()),
                    )
                },
            },
        }
    }
}

/// Changes one alias that is not deleted, in the collection that its scope names. The value is the
/// name of that collection.
pub open spec fn alias_changed(
    st: StoreState,
    collection: Option<Seq<char>>,
    name: Seq<char>,
    now: Option<i64>,
    change: spec_fn(AliasRec, i64) -> AliasRec,
) -> (StoreState, Result<Seq<char>, Failure>) {
    if !names::valid_name(name) {
        (st, Err(Failure::InvalidName(name)))
    } else {
        match scope_of(st, collection, name) {
            Err(f) => (st, Err(f)),
            Ok(cid) => match now {
                None => (st, Err(Failure::ClockBeforeEpoch)),
                Some(t) => if st.aliases.contains_key((cid, name)) && !st.aliases[(
                    cid,
                    name,
                )].deleted {
                    (
                        with_alias(st, change(st.aliases[(cid, name)], t)),
                        Ok(st.collections[cid].name),
                    )
                } else {
                    (st, Err(Failure::AliasNotFound(name)))
                },
            },
        }
    }
}

/// Gives an alias another command.
pub open spec fn alias_updated(
    st: StoreState,
    collection: Option<Seq<char>>,
    name: Seq<char>,
    command: Seq<char>,
    now: Option<i64>,
) -> (StoreState, Result<Seq<char>, Failure>) {
    alias_changed(
        st,
        collection,
        name,
        now,
        |a: AliasRec, t: i64| AliasRec { command: command, dirty: true, updated_at: t, ..a },
    )
}

/// Deletes an alias.
pub open spec fn alias_deleted(
    st: StoreState,
    collection: Option<Seq<char>>,
    name: Seq<char>,
    now: Option<i64>,
) -> (StoreState, Result<Seq<char>, Failure>) {
    alias_changed(
        st,
        collection,
        name,
        now,
        |a: AliasRec, t: i64| AliasRec { deleted: true, dirty: true, updated_at: t, ..a },
    )
}

/// Moves an alias to another collection that has none of its name, not even a deleted one.
pub open spec fn alias_moved(
    st: StoreState,
    name: Seq<char>,
    from: Seq<char>,
    to: Seq<char>,
    now: Option<i64>,
) -> (StoreState, Result<(), Failure>) {
    if !names::valid_name(name) {
        (st, Err(Failure::InvalidName(name)))
    } else {
        match (collection_named(st, from), collection_named(st, to)) {
            (Err(f), _) => (st, Err(f)),
            (Ok(_), Err(f)) => (st, Err(f)),
            (Ok(source), Ok(target)) => if st.aliases.contains_key((target, name))
                && !st.aliases[(target, name)].deleted {
                (st, Err(Failure::AliasExistsInTarget(name)))
            } else {
                match now {
                    None => (st, Err(Failure::ClockBeforeEpoch)),
                    Some(t) => if !st.aliases.contains_key((source, name)) || st.aliases[(
                        source,
                        name,
                    )].deleted {
                        (st, Err(Failure::AliasNotFound(name)))
                    } else if st.aliases.contains_key((target, name)) {
                        (st, Err(Failure::DuplicateAliasName))
                    } else {
                        let moved = AliasRec {
                            collection_id: target,
                            dirty: true,
                            updated_at: t,
                            ..st.aliases[(source, name)]
                        };
                        (
                            StoreState {
                                aliases: st.aliases.remove((source, name)).insert(
                                    (target, name),
                                    moved,
                                ),
                                ..st
                            },
                            Ok(()),
                        )
                    },
                }
            },
        }
    }
}

// ---------------------------------------------------------------------------
// Changes from other computers
// ---------------------------------------------------------------------------
/// A collection as another computer sent it.
pub struct RemoteCollection {
    pub id: Seq<char>,
    pub version: i64,
    pub name: Seq<char>,
    pub deleted: bool,
    pub updated_at: i64,
}

/// An alias as another computer sent it.
pub struct RemoteAlias {
    pub id: Seq<char>,
    pub version: i64,
    pub collection_id: Seq<char>,
    pub collection_name: Seq<char>,
    pub name: Seq<char>,
    pub command: Seq<char>,
    pub deleted: bool,
    pub updated_at: i64,
}

/// Takes over a collection, unless a later local change is still to be sent. The value says
/// whether it was taken over. The shared collection is never deleted.
pub open spec fn remote_collection_applied(
    st: StoreState,
    r: RemoteCollection,
    now: Option<i64>,
) -> (StoreState, Result<bool, Failure>) {
    if !names::valid_name(r.name) {
        (st, Err(Failure::InvalidName(r.name)))
    } else {
        let kept = match collection_named(st, r.name) {
            Ok(id) => st.collections[id].dirty && st.collections[id].updated_at > r.updated_at,
            Err(_) => false,
        };
        let deleted = r.deleted && r.name != DEFAULT_COLLECTION_NAME@;
        if kept {
            (st, Ok(false))
        } else {
            match now {
                None => (st, Err(Failure::ClockBeforeEpoch)),
                Some(t) => match id_of_name(st, r.name) {
                    Some(id) => (
                        with_collection(
                            st,
                            CollectionRec {
                                deleted: deleted,
                                dirty: false,
                                sync_version: r.version,
                                updated_at: r.updated_at,
                                ..st.collections[id]
                            },
                        ),
                        Ok(true),
                    ),
                    None => if st.collections.contains_key(r.id) {
                        (st, Err(Failure::DuplicateCollectionId))
                    } else {
                        (
                            with_collection(
                                st,
                                CollectionRec {
                                    id: r.id,
                                    name: r.name,
                                    deleted: deleted,
                                    dirty: false,
                                    sync_version: r.version,
                                    created_at: t,
                                    updated_at: r.updated_at,
                                },
                            ),
                            Ok(true),
                        )
                    },
                },
            }
        }
    }
}

/// Makes sure that a collection that an incoming alias belongs to is there and is not deleted.
pub open spec fn remote_collection_ensured(
    st: StoreState,
    id: Seq<char>,
    name: Seq<char>,
    now: Option<i64>,
) -> (StoreState, Result<(), Failure>) {
    if !names::valid_name(name) {
        (st, Err(Failure::InvalidName(name)))
    } else if collection_named(st, name) is Ok {
        (st, Ok(()))
    } else {
        match now {
            None => (st, Err(Failure::ClockBeforeEpoch)),
            Some(t) => match id_of_name(st, name) {
                Some(there) => (
                    with_collection(
                        st,
                        CollectionRec { deleted: false, ..st.collections[there] },
                    ),
                    Ok(()),
                ),
                None => if st.collections.contains_key(id) {
                    (st, Err(Failure::DuplicateCollectionId))
                } else {
                    (
                        with_collection(
                            st,
                            CollectionRec {
                                id: id,
                                name: name,
                                deleted: false,
                                dirty: false,
                                sync_version: 0,
                                created_at: t,
                                updated_at: t,
                            },
                        ),
                        Ok(()),
                    )
                },
            },
        }
    }
}

/// Takes over an alias into a collection that is there. A later local change that is still to be
/// sent is kept; an earlier one is backed up under the given id before it is replaced.
pub open spec fn remote_alias_stored(
    st: StoreState,
    r: RemoteAlias,
    cid: Seq<char>,
    backup_id: Seq<char>,
    now: Option<i64>,
) -> (StoreState, Result<bool, Failure>) {
    let key = (cid, r.name);
    let there = st.aliases.contains_key(key);
    let local = st.aliases[key];
    if there && local.dirty && local.updated_at > r.updated_at {
        (st, Ok(false))
    } else {
        match now {
            None => (st, Err(Failure::ClockBeforeEpoch)),
            Some(t) => {
                let backed_up = if there && local.dirty {
                    StoreState {
                        backups: st.backups.insert(
                            backup_id,
                            BackupRec {
                                id: backup_id,
                                alias_name: st.collections[cid].name + "/"@ + r.name,
                                command: local.command,
                                remote_version: r.version,
                                created_at: t,
                            },
                        ),
                        ..st
                    }
                } else {
                    st
                };
                if there && local.dirty && st.backups.contains_key(backup_id) {
                    (st, Err(Failure::DuplicateBackupId))
                } else if alias_id_taken_by_other(st, r.id, key) {
                    (backed_up, Err(Failure::DuplicateAliasId))
                } else {
                    (
                        with_alias(
                            backed_up,
                            AliasRec {
                                id: r.id,
                                collection_id: cid,
                                name: r.name,
                                command: r.command,
                                deleted: r.deleted,
                                dirty: false,
                                sync_version: r.version,
                                created_at: if there {
                                    local.created_at
                                } else {
                                    t
                                },
                                updated_at: r.updated_at,
                            },
                        ),
                        Ok(true),
                    )
                }
            },
        }
    }
}

pub open spec fn alias_id_taken_by_other(st: StoreState, id: Seq<char>, key: AliasKey) -> bool {
    exists|k: AliasKey| #[trigger]
        st.aliases.contains_key(k) && k != key && st.aliases[k].id == id
}

/// Takes over an alias that another computer sent. The value says whether it was taken over.
pub open spec fn remote_alias_applied(
    st: StoreState,
    r: RemoteAlias,
    backup_id: Seq<char>,
    now: Option<i64>,
) -> (StoreState, Result<bool, Failure>) {
    if !names::valid_name(r.name) {
        (st, Err(Failure::InvalidName(r.name)))
    } else {
        match remote_collection_ensured(st, r.collection_id, r.collection_name, now) {
            (mid, Err(f)) => (mid, Err(f)),
            (mid, Ok(())) => match collection_named(mid, r.collection_name) {
                Err(f) => (mid, Err(f)),
                Ok(cid) => remote_alias_stored(mid, r, cid, backup_id, now),
            },
        }
    }
}

/// Notes that the server has a collection in the given version.
pub open spec fn collection_synced(st: StoreState, id: Seq<char>, version: i64) -> StoreState {
    if st.collections.contains_key(id) {
        with_collection(
            st,
            CollectionRec { dirty: false, sync_version: version, ..st.collections[id] },
        )
    } else {
        st
    }
}

/// Notes that the server has an alias in the given version.
pub open spec fn alias_synced(st: StoreState, id: Seq<char>, version: i64) -> StoreState {
    StoreState {
        aliases: st.aliases.map_values(
            |a: AliasRec|
                if a.id == id {
                    AliasRec { dirty: false, sync_version: version, ..a }
                } else {
                    a
                },
        ),
        ..st
    }
}

// ---------------------------------------------------------------------------
// Lists
// ---------------------------------------------------------------------------
/// An alias as it is shown.
#[verifier::ext_equal]
pub struct AliasInfo {
    pub id: Seq<char>,
    pub collection_id: Seq<char>,
    pub collection_name: Seq<char>,
    pub name: Seq<char>,
    pub command: Seq<char>,
    pub deleted: bool,
    pub dirty: bool,
    pub sync_version: i64,
    pub updated_at: i64,
}

/// A collection as it is shown. One that is not active has the priority -1.
#[verifier::ext_equal]
pub struct CollectionInfo {
    pub id: Seq<char>,
    pub name: Seq<char>,
    pub deleted: bool,
    pub dirty: bool,
    pub sync_version: i64,
    pub updated_at: i64,
    pub active: bool,
    pub priority: i64,
}

pub open spec fn alias_info(st: StoreState, k: AliasKey) -> AliasInfo {
    let a = st.aliases[k];
    AliasInfo {
        id: a.id,
        collection_id: a.collection_id,
        collection_name: st.collections[k.0].name,
        name: a.name,
        command: a.command,
        deleted: a.deleted,
        dirty: a.dirty,
        sync_version: a.sync_version,
        updated_at: a.updated_at,
    }
}

pub open spec fn collection_info(st: StoreState, id: Seq<char>) -> CollectionInfo {
    let c = st.collections[id];
    let active = st.active.contains_key(id);
    CollectionInfo {
        id: c.id,
        name: c.name,
        deleted: c.deleted,
        dirty: c.dirty,
        sync_version: c.sync_version,
        updated_at: c.updated_at,
        active: active,
        priority: if active {
            st.active[id].priority
        } else {
            (-1int) as i64
        },
    }
}

/// The alias is not deleted, its collection is not deleted and active.
pub open spec fn in_force(st: StoreState, k: AliasKey) -> bool {
    holds(st, k.0, k.1) && st.active.contains_key(k.0)
}

/// The alias is in force, and none of its name is in a collection of higher priority.
pub open spec fn effective(st: StoreState, k: AliasKey) -> bool {
    in_force(st, k) && !exists|other: AliasKey| #[trigger]
        in_force(st, other) && other.1 == k.1 && st.active[other.0].priority
            > st.active[k.0].priority
}

/// The list shows the aliases whose keys are in the set, each once.
pub open spec fn shows_aliases(
    list: Seq<AliasInfo>,
    st: StoreState,
    keys: Set<AliasKey>,
) -> bool {
    &&& list.no_duplicates()
    &&& forall|k: AliasKey| #[trigger] keys.contains(k) ==> list.contains(alias_info(st, k))
    &&& forall|i: int|
        0 <= i < list.len() ==> keys.contains(
            ((#[trigger] list[i]).collection_id, list[i].name),
        ) && list[i] == alias_info(st, (list[i].collection_id, list[i].name))
}

/// Aliases by name.
pub open spec fn by_name() -> spec_fn(AliasInfo, AliasInfo) -> bool {
    |a: AliasInfo, b: AliasInfo| text::text_lt(a.name, b.name)
}

/// Aliases by the name of the collection, then by name.
pub open spec fn by_collection() -> spec_fn(AliasInfo, AliasInfo) -> bool {
    |a: AliasInfo, b: AliasInfo|
        text::text_lt(a.collection_name, b.collection_name) || (a.collection_name
            == b.collection_name && text::text_lt(a.name, b.name))
}

/// The list shows the collections whose ids are in the set, each once.
pub open spec fn shows_collections(
    list: Seq<CollectionInfo>,
    st: StoreState,
    ids: Set<Seq<char>>,
) -> bool {
    &&& list.no_duplicates()
    &&& forall|id: Seq<char>| #[trigger] ids.contains(id) ==> list.contains(collection_info(st, id))
    &&& forall|i: int|
        0 <= i < list.len() ==> ids.contains((#[trigger] list[i]).id) && list[i]
            == collection_info(st, list[i].id)
}

/// The shared collection first, then the active ones by priority, then the others; by name where
/// that leaves the order open.
pub open spec fn by_rank() -> spec_fn(CollectionInfo, CollectionInfo) -> bool {
    |a: CollectionInfo, b: CollectionInfo|
        {
            let a_shared = a.name == DEFAULT_COLLECTION_NAME@;
            let b_shared = b.name == DEFAULT_COLLECTION_NAME@;
            if a_shared != b_shared {
                a_shared
            } else if a.active != b.active {
                a.active
            } else if a.priority != b.priority {
                a.priority < b.priority
            } else {
                text::text_lt(a.name, b.name)
            }
        }
}

/// Collections by name.
pub open spec fn by_collection_name() -> spec_fn(CollectionInfo, CollectionInfo) -> bool {
    |a: CollectionInfo, b: CollectionInfo| text::text_lt(a.name, b.name)
}

/// No element comes before an earlier one.
pub open spec fn in_order<T>(list: Seq<T>, before: spec_fn(T, T) -> bool) -> bool {
    forall|i: int, j: int| 0 <= i < j < list.len() ==> !before(#[trigger] list[j], #[trigger] list[i])
}

/// The aliases that a shell gets.
pub open spec fn effective_keys(st: StoreState) -> Set<AliasKey> {
    Set::new(|k: AliasKey| effective(st, k))
}

/// The aliases that are not deleted, in collections that are not deleted.
pub open spec fn live_keys(st: StoreState) -> Set<AliasKey> {
    Set::new(|k: AliasKey| holds(st, k.0, k.1))
}

/// The aliases of a collection that are not deleted.
pub open spec fn live_keys_in(st: StoreState, id: Seq<char>) -> Set<AliasKey> {
    Set::new(|k: AliasKey| holds(st, k.0, k.1) && k.0 == id)
}

/// The aliases that are marked as changed.
pub open spec fn dirty_keys(st: StoreState) -> Set<AliasKey> {
    Set::new(|k: AliasKey| st.aliases.contains_key(k) && st.aliases[k].dirty)
}

/// The aliases whose last change is still to be sent: those that are marked as changed, in
/// collections that are there.
pub open spec fn pending_keys(st: StoreState) -> Set<AliasKey> {
    Set::new(|k: AliasKey| dirty_keys(st).contains(k) && st.collections.contains_key(k.0))
}

/// The collections that are not deleted.
pub open spec fn live_ids(st: StoreState) -> Set<Seq<char>> {
    Set::new(|id: Seq<char>| st.collections.contains_key(id) && !st.collections[id].deleted)
}

/// The collections whose last change is still to be sent.
pub open spec fn dirty_ids(st: StoreState) -> Set<Seq<char>> {
    Set::new(|id: Seq<char>| st.collections.contains_key(id) && st.collections[id].dirty)
}

/// The list that `list_all` gives: of one collection, or of all of them.
pub open spec fn listed_keys(st: StoreState, collection: Option<Seq<char>>) -> Result<
    Set<AliasKey>,
    Failure,
> {
    match collection {
        None => Ok(live_keys(st)),
        Some(c) => match collection_named(st, c) {
            Ok(id) => Ok(live_keys_in(st, id)),
            Err(f) => Err(f),
        },
    }
}

/// The list of the aliases that a shell gets, by name.
pub open spec fn is_effective_list(list: Seq<AliasInfo>, st: StoreState) -> bool {
    shows_aliases(list, st, effective_keys(st)) && in_order(list, by_name())
}

/// The list of all collections that are not deleted, by rank.
pub open spec fn is_collection_list(list: Seq<CollectionInfo>, st: StoreState) -> bool {
    shows_collections(list, st, live_ids(st)) && in_order(list, by_rank())
}

/// The list of the aliases that are not deleted, of one collection or of all.
pub open spec fn is_alias_list(
    list: Seq<AliasInfo>,
    st: StoreState,
    collection: Option<Seq<char>>,
) -> bool {
    match listed_keys(st, collection) {
        Ok(keys) => shows_aliases(list, st, keys) && in_order(
            list,
            if collection is Some {
                by_name()
            } else {
                by_collection()
            },
        ),
        Err(_) => false,
    }
}

/// The list of the aliases that are still to be sent.
pub open spec fn is_pending_alias_list(list: Seq<AliasInfo>, st: StoreState) -> bool {
    shows_aliases(list, st, pending_keys(st)) && in_order(list, by_collection())
}

/// The list of the collections that are still to be sent.
pub open spec fn is_pending_collection_list(list: Seq<CollectionInfo>, st: StoreState) -> bool {
    shows_collections(list, st, dirty_ids(st)) && in_order(list, by_collection_name())
}

/// The names of the active ones among the collections.
pub open spec fn active_names(list: Seq<CollectionInfo>) -> Seq<Seq<char>>
    decreases list.len(),
{
    if list.len() == 0 {
        Seq::empty()
    } else if list.last().active {
        active_names(list.drop_last()).push(list.last().name)
    } else {
        active_names(list.drop_last())
    }
}

} // verus!
