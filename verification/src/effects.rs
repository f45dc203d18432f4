//! What each operation does to the stored records, field by field, and when it is owed.

use vstd::prelude::*;

use crate::error::Failure;
use crate::laws;
use crate::model;
use crate::model::{AliasInfo, AliasKey, CollectionInfo, RemoteAlias, RemoteCollection, StoreState};
use crate::names;
use crate::names::{DEFAULT_COLLECTION_ID, DEFAULT_COLLECTION_NAME};
use crate::rows;
use crate::store::listing;
use crate::text;

verus! {

// ---------------------------------------------------------------------------
// Which aliases a shell gets
// ---------------------------------------------------------------------------
/// A shell gets an alias if and only if neither it nor its collection is deleted, its collection
/// has a mark, and no alias of its name of which the same holds is marked with a higher priority.
/// The shared collection is no exception.
pub proof fn law_highest_priority_wins(st: StoreState, k: AliasKey)
    requires
        model::consistent(st),
    ensures
        model::effective(st, k) <==> {
            &&& st.aliases.contains_key(k)
            &&& !st.aliases[k].deleted
            &&& st.collections.contains_key(k.0)
            &&& !st.collections[k.0].deleted
            &&& st.active.contains_key(k.0)
            &&& forall|id: Seq<char>|
                {
                    &&& #[trigger] st.active.contains_key(id)
                    &&& st.collections.contains_key(id)
                    &&& !st.collections[id].deleted
                    &&& st.aliases.contains_key((id, k.1))
                    &&& !st.aliases[(id, k.1)].deleted
                } ==> st.active[id].priority <= st.active[k.0].priority
        },
{
    assert((k.0, k.1) == k);
    if model::effective(st, k) {
        assert forall|id: Seq<char>|
            {
                &&& #[trigger] st.active.contains_key(id)
                &&& st.collections.contains_key(id)
                &&& !st.collections[id].deleted
                &&& st.aliases.contains_key((id, k.1))
                &&& !st.aliases[(id, k.1)].deleted
            } implies st.active[id].priority <= st.active[k.0].priority by {
            assert(model::in_force(st, (id, k.1)));
        }
    } else if model::in_force(st, k) {
        let other = choose|other: AliasKey| #[trigger]
            model::in_force(st, other) && other.1 == k.1 && st.active[other.0].priority
                > st.active[k.0].priority;
        assert((other.0, k.1) == other);
        assert(st.active.contains_key(other.0));
    }
}

/// Where two collections that are marked hold aliases of one name, and the second has the higher
/// priority, a shell does not get the alias of the first.
pub proof fn law_lower_priority_is_hidden(
    st: StoreState,
    low: Seq<char>,
    high: Seq<char>,
    name: Seq<char>,
)
    requires
        model::consistent(st),
        st.aliases.contains_key((high, name)),
        !st.aliases[(high, name)].deleted,
        st.collections.contains_key(high),
        !st.collections[high].deleted,
        st.active.contains_key(high),
        st.active[low].priority < st.active[high].priority,
    ensures
        !model::effective(st, (low, name)),
{
    law_highest_priority_wins(st, (low, name));
}

/// An alias of the shared collection reaches the shell as long as no other marked collection holds
/// an alias of its name, whatever else is active.
pub proof fn law_shared_alias_is_effective(st: StoreState, name: Seq<char>)
    requires
        model::consistent(st),
        st.aliases.contains_key((DEFAULT_COLLECTION_ID@, name)),
        !st.aliases[(DEFAULT_COLLECTION_ID@, name)].deleted,
        forall|id: Seq<char>| #[trigger]
            st.active.contains_key(id) && id != DEFAULT_COLLECTION_ID@
                ==> !st.aliases.contains_key((id, name)) || st.aliases[(id, name)].deleted,
    ensures
        model::effective(st, (DEFAULT_COLLECTION_ID@, name)),
{
    law_highest_priority_wins(st, (DEFAULT_COLLECTION_ID@, name));
}

/// Activating a collection leaves what a shell gets under a name as it was, unless the collection
/// holds an alias of that name.
pub proof fn law_activating_leaves_other_names(st: StoreState, cid: Seq<char>, k: AliasKey)
    requires
        model::consistent(st),
        st.collections.contains_key(cid),
        !st.aliases.contains_key((cid, k.1)) || st.aliases[(cid, k.1)].deleted,
    ensures
        model::effective(model::collection_activated(st, st.collections[cid].name).0, k)
            <==> model::effective(st, k),
{
    let after = model::collection_activated(st, st.collections[cid].name).0;
    rows::lemma_id_of_name(st, cid);
    laws::law_activate_keeps_order(st, st.collections[cid].name);
    assert((k.0, k.1) == k);
    law_highest_priority_wins(st, k);
    law_highest_priority_wins(after, k);
    assert forall|id: Seq<char>| id != cid implies (#[trigger] after.active.contains_key(id)
        <==> st.active.contains_key(id)) && after.active[id] == st.active[id] by {}
    assert forall|id: Seq<char>| id != cid implies (#[trigger] st.active.contains_key(id)
        <==> after.active.contains_key(id)) by {}
}

/// Deactivating a collection leaves what a shell gets under a name as it was, unless the
/// collection holds an alias of that name.
pub proof fn law_deactivating_leaves_other_names(st: StoreState, cid: Seq<char>, k: AliasKey)
    requires
        model::consistent(st),
        st.collections.contains_key(cid),
        !st.aliases.contains_key((cid, k.1)) || st.aliases[(cid, k.1)].deleted,
    ensures
        model::effective(model::collection_deactivated(st, st.collections[cid].name).0, k)
            <==> model::effective(st, k),
{
    let after = model::collection_deactivated(st, st.collections[cid].name).0;
    rows::lemma_id_of_name(st, cid);
    laws::law_deactivate_keeps_order(st, st.collections[cid].name);
    assert((k.0, k.1) == k);
    law_highest_priority_wins(st, k);
    law_highest_priority_wins(after, k);
    assert forall|id: Seq<char>| id != cid implies (#[trigger] after.active.contains_key(id)
        <==> st.active.contains_key(id)) && after.active[id] == st.active[id] by {}
    assert forall|id: Seq<char>| id != cid implies (#[trigger] st.active.contains_key(id)
        <==> after.active.contains_key(id)) by {}
}

// ---------------------------------------------------------------------------
// Finding collections
// ---------------------------------------------------------------------------
/// A collection is found under its name if and only if the name is valid and the collection is not
/// deleted.
pub proof fn law_collection_is_found(st: StoreState, cid: Seq<char>)
    requires
        model::consistent(st),
        st.collections.contains_key(cid),
    ensures
        ({
            let name = st.collections[cid].name;
            &&& model::id_of_name(st, name) == Some(cid)
            &&& !names::valid_name(name) ==> model::collection_named(st, name) == Err::<
                Seq<char>,
                Failure,
            >(Failure::InvalidName(name))
            &&& names::valid_name(name) && st.collections[cid].deleted ==> model::collection_named(
                st,
                name,
            ) == Err::<Seq<char>, Failure>(Failure::CollectionNotFound(name))
            &&& names::valid_name(name) && !st.collections[cid].deleted
                ==> model::collection_named(st, name) == Ok::<Seq<char>, Failure>(cid)
        }),
{
    rows::lemma_id_of_name(st, cid);
}

/// No collection is found under a name that none has.
pub proof fn law_unknown_collection_is_not_found(st: StoreState, name: Seq<char>)
    requires
        forall|id: Seq<char>| #[trigger]
            st.collections.contains_key(id) ==> st.collections[id].name != name,
    ensures
        model::id_of_name(st, name) is None,
        names::valid_name(name) ==> model::collection_named(st, name) == Err::<Seq<char>, Failure>(
            Failure::CollectionNotFound(name),
        ),
        !names::valid_name(name) ==> model::collection_named(st, name) == Err::<
            Seq<char>,
            Failure,
        >(Failure::InvalidName(name)),
{
    if exists|id: Seq<char>| model::has_name(st, id, name) {
        let id = choose|id: Seq<char>| model::has_name(st, id, name);
        assert(st.collections.contains_key(id));
    }
}

// ---------------------------------------------------------------------------
// Changing collections
// ---------------------------------------------------------------------------
/// At most one collection changed.
pub open spec fn only_collection(before: StoreState, after: StoreState, id: Seq<char>) -> bool {
    &&& after.collections.remove(id) == before.collections.remove(id)
    &&& after.active == before.active
    &&& after.aliases == before.aliases
    &&& after.backups == before.backups
}

/// At most one mark changed.
pub open spec fn only_mark(before: StoreState, after: StoreState, id: Seq<char>) -> bool {
    &&& after.active.remove(id) == before.active.remove(id)
    &&& after.collections == before.collections
    &&& after.aliases == before.aliases
    &&& after.backups == before.backups
}

/// At most one alias changed.
pub open spec fn only_alias(before: StoreState, after: StoreState, key: AliasKey) -> bool {
    &&& after.aliases.remove(key) == before.aliases.remove(key)
    &&& after.collections == before.collections
    &&& after.active == before.active
    &&& after.backups == before.backups
}

/// A collection whose name is not in use is created under the id that its name gives it, if no
/// other has that id: it is not deleted, waits to be sent, was never sent, and dates from now.
pub proof fn law_create_adds(st: StoreState, name: Seq<char>, t: i64)
    requires
        model::consistent(st),
        names::valid_name(name),
        forall|id: Seq<char>| #[trigger]
            st.collections.contains_key(id) ==> st.collections[id].name != name,
    ensures
        ({
            let (after, r) = model::collection_created(st, name, Some(t));
            let id = "collection:"@ + name;
            if st.collections.contains_key(id) {
                r == Err::<(), Failure>(Failure::DuplicateCollectionId) && after == st
            } else {
                &&& r is Ok
                &&& after.collections.contains_key(id)
                &&& after.collections[id].id == id
                &&& after.collections[id].name == name
                &&& !after.collections[id].deleted
                &&& after.collections[id].dirty
                &&& after.collections[id].sync_version == 0
                &&& after.collections[id].created_at == t
                &&& after.collections[id].updated_at == t
                &&& only_collection(st, after, id)
            }
        }),
{
    law_unknown_collection_is_not_found(st, name);
    assert(st.collections.contains_key(DEFAULT_COLLECTION_ID@));
    let (after, r) = model::collection_created(st, name, Some(t));
    let id = "collection:"@ + name;
    assert(after.collections.remove(id) =~= st.collections.remove(id));
}

/// Creating a collection that is there takes back its deletion and marks it as changed now. It
/// keeps its id, its name, the version that the server gave it and the time it dates from.
pub proof fn law_create_takes_deletion_back(st: StoreState, cid: Seq<char>, t: i64)
    requires
        model::consistent(st),
        st.collections.contains_key(cid),
        cid != DEFAULT_COLLECTION_ID@,
        names::valid_name(st.collections[cid].name),
    ensures
        ({
            let (after, r) = model::collection_created(st, st.collections[cid].name, Some(t));
            &&& r is Ok
            &&& after.collections.contains_key(cid)
            &&& after.collections[cid].id == cid
            &&& after.collections[cid].name == st.collections[cid].name
            &&& !after.collections[cid].deleted
            &&& after.collections[cid].dirty
            &&& after.collections[cid].sync_version == st.collections[cid].sync_version
            &&& after.collections[cid].created_at == st.collections[cid].created_at
            &&& after.collections[cid].updated_at == t
            &&& only_collection(st, after, cid)
        }),
{
    rows::lemma_id_of_name(st, cid);
    assert(st.collections.contains_key(DEFAULT_COLLECTION_ID@));
    let after = model::collection_created(st, st.collections[cid].name, Some(t)).0;
    assert(after.collections.remove(cid) =~= st.collections.remove(cid));
}

/// Creating the shared collection, which is always there, changes nothing.
pub proof fn law_create_shared_changes_nothing(st: StoreState, t: i64)
    requires
        model::consistent(st),
    ensures
        model::collection_created(st, "shared"@, Some(t)) == (st, Ok::<(), Failure>(())),
{
    names::lemma_shared_is_valid();
    laws::law_shared_ensured(st, t);
}

/// A collection is created for a valid name at a time only.
pub proof fn law_create_refuses(st: StoreState, name: Seq<char>, now: Option<i64>)
    ensures
        !names::valid_name(name) ==> model::collection_created(st, name, now).1 == Err::<
            (),
            Failure,
        >(Failure::InvalidName(name)),
        names::valid_name(name) && now is None ==> model::collection_created(st, name, now).1
            == Err::<(), Failure>(Failure::ClockBeforeEpoch),
{
}

/// A collection that was created can be found under its name.
pub proof fn law_created_is_found(st: StoreState, name: Seq<char>, now: Option<i64>)
    requires
        model::consistent(st),
        model::collection_created(st, name, now).1 is Ok,
    ensures
        ({
            let after = model::collection_created(st, name, now).0;
            exists|id: Seq<char>| #[trigger]
                after.collections.contains_key(id) && after.collections[id].name == name
                    && !after.collections[id].deleted && model::collection_named(after, name)
                    == Ok::<Seq<char>, Failure>(id)
        }),
{
    let after = model::collection_created(st, name, now).0;
    laws::law_create_keeps_order(st, name, now);
    if name == DEFAULT_COLLECTION_NAME@ {
        laws::law_shared_ensured(st, now.unwrap());
        law_collection_is_found(after, DEFAULT_COLLECTION_ID@);
    } else {
        match model::id_of_name(st, name) {
            Some(id) => {
                assert(model::has_name(st, id, name));
                law_collection_is_found(after, id);
            },
            None => {
                law_collection_is_found(after, names::id_for_name(name));
            },
        }
    }
}

/// A collection that has no mark is activated where a higher priority is left, and its priority is
/// then just above the highest of all others.
pub proof fn law_activate_ranks_above_all(st: StoreState, cid: Seq<char>)
    requires
        model::consistent(st),
        st.collections.contains_key(cid),
        !st.collections[cid].deleted,
        names::valid_name(st.collections[cid].name),
        !st.active.contains_key(cid),
        forall|id: Seq<char>| #[trigger]
            st.active.contains_key(id) ==> st.active[id].priority < i64::MAX,
    ensures
        ({
            let (after, r) = model::collection_activated(st, st.collections[cid].name);
            &&& r == Ok::<bool, Failure>(true)
            &&& after.active.contains_key(cid)
            &&& after.active[cid].collection_id == cid
            &&& forall|id: Seq<char>| #[trigger]
                st.active.contains_key(id) ==> st.active[id].priority < after.active[cid].priority
            &&& exists|id: Seq<char>| #[trigger]
                st.active.contains_key(id) && st.active[id].priority + 1
                    == after.active[cid].priority
            &&& only_mark(st, after, cid)
        }),
{
    rows::lemma_id_of_name(st, cid);
    laws::lemma_highest(st);
    assert(st.collections.contains_key(DEFAULT_COLLECTION_ID@));
    assert(st.active.contains_key(DEFAULT_COLLECTION_ID@));
    let after = model::collection_activated(st, st.collections[cid].name).0;
    assert(after.active.remove(cid) =~= st.active.remove(cid));
}

/// A collection that is active stays as it is when it is activated, the shared one always.
pub proof fn law_activate_again_changes_nothing(st: StoreState, cid: Seq<char>)
    requires
        model::consistent(st),
        st.collections.contains_key(cid),
        !st.collections[cid].deleted,
        names::valid_name(st.collections[cid].name),
        st.active.contains_key(cid),
    ensures
        model::collection_activated(st, st.collections[cid].name) == (
            st,
            Ok::<bool, Failure>(false),
        ),
{
    rows::lemma_id_of_name(st, cid);
}

/// Activating is refused for a name that is not valid, for a collection that is not there or is
/// deleted, and where no priority is left above the highest.
pub proof fn law_activate_refuses(st: StoreState, name: Seq<char>)
    requires
        model::consistent(st),
    ensures
        !names::valid_name(name) ==> model::collection_activated(st, name).1 == Err::<
            bool,
            Failure,
        >(Failure::InvalidName(name)),
        names::valid_name(name) && (forall|id: Seq<char>| #[trigger]
            st.collections.contains_key(id) && st.collections[id].name == name
                ==> st.collections[id].deleted) ==> model::collection_activated(st, name).1 == Err::<
            bool,
            Failure,
        >(Failure::CollectionNotFound(name)),
        forall|cid: Seq<char>, top: Seq<char>| #[trigger]
            st.collections.contains_key(cid) && !st.collections[cid].deleted
                && st.collections[cid].name == name && names::valid_name(name)
                && !st.active.contains_key(cid) && #[trigger] st.active.contains_key(top)
                && st.active[top].priority == i64::MAX ==> model::collection_activated(st, name).1
                == Err::<bool, Failure>(Failure::PriorityOverflow),
{
    assert(st.collections.contains_key(DEFAULT_COLLECTION_ID@));
    if model::id_of_name(st, name) is Some {
        assert(model::has_name(st, model::id_of_name(st, name).unwrap(), name));
    }
    laws::lemma_highest(st);
    assert forall|cid: Seq<char>, top: Seq<char>| #[trigger]
        st.collections.contains_key(cid) && !st.collections[cid].deleted
            && st.collections[cid].name == name && names::valid_name(name)
            && !st.active.contains_key(cid) && #[trigger] st.active.contains_key(top)
            && st.active[top].priority == i64::MAX implies model::collection_activated(st, name).1
        == Err::<bool, Failure>(Failure::PriorityOverflow) by {
        rows::lemma_id_of_name(st, cid);
        assert(st.active.contains_key(DEFAULT_COLLECTION_ID@));
    }
}

/// Activating one list of collections behind another activates the first and then the second, and
/// gives the names that were not active before in their order; what fails in the first list ends
/// it all.
pub proof fn law_activate_lists(st: StoreState, a: Seq<Seq<char>>, b: Seq<Seq<char>>)
    ensures
        model::each_activated(st, a + b) == match model::each_activated(st, a) {
            (mid, Err(f)) => (mid, Err::<Seq<Seq<char>>, Failure>(f)),
            (mid, Ok(first)) => match model::each_activated(mid, b) {
                (after, Err(f)) => (after, Err(f)),
                (after, Ok(second)) => (after, Ok(first + second)),
            },
        },
    decreases b.len(),
{
    if b.len() == 0 {
        assert(a + b =~= a);
        match model::each_activated(st, a) {
            (mid, Ok(first)) => {
                assert(first + Seq::<Seq<char>>::empty() =~= first);
            },
            (mid, Err(f)) => {},
        }
    } else {
        law_activate_lists(st, a, b.drop_last());
        assert((a + b).drop_last() =~= a + b.drop_last());
        assert((a + b).last() == b.last());
        match model::each_activated(st, a) {
            (mid, Ok(first)) => {
                match model::each_activated(mid, b.drop_last()) {
                    (after, Ok(second)) => {
                        assert((first + second).push(b.last()) =~= first + second.push(b.last()));
                    },
                    (after, Err(f)) => {},
                }
            },
            (mid, Err(f)) => {},
        }
    }
}

/// Activating a list of one collection is activating it; its name is given back if that changed
/// anything.
pub proof fn law_activate_list_of_one(st: StoreState, name: Seq<char>)
    ensures
        ({
            let (after, r) = model::collection_activated(st, name);
            let (after_all, names) = model::each_activated(st, seq![name]);
            &&& after_all == after
            &&& r matches Err(f) ==> names == Err::<Seq<Seq<char>>, Failure>(f)
            &&& r == Ok::<bool, Failure>(true) ==> names == Ok::<Seq<Seq<char>>, Failure>(
                seq![name],
            )
            &&& r == Ok::<bool, Failure>(false) ==> names == Ok::<Seq<Seq<char>>, Failure>(
                Seq::empty(),
            )
        }),
{
    reveal_with_fuel(model::each_activated, 2);
    assert(seq![name].drop_last() =~= Seq::<Seq<char>>::empty());
    assert(Seq::<Seq<char>>::empty().push(name) =~= seq![name]);
}

/// After a list of collections was activated, each of them is active, and every collection that
/// was active before is so with the priority it had.
pub proof fn law_activated_lists_are_active(st: StoreState, names: Seq<Seq<char>>)
    requires
        model::consistent(st),
        model::each_activated(st, names).1 is Ok,
    ensures
        ({
            let after = model::each_activated(st, names).0;
            &&& after.collections == st.collections
            &&& after.aliases == st.aliases
            &&& after.backups == st.backups
            &&& st.active.submap_of(after.active)
            &&& forall|i: int, cid: Seq<char>|
                0 <= i < names.len() && #[trigger] st.collections.contains_key(cid)
                    && st.collections[cid].name == #[trigger] names[i] ==> after.active.contains_key(
                    cid,
                )
            &&& forall|cid: Seq<char>| #[trigger]
                after.active.contains_key(cid) && !st.active.contains_key(cid)
                    ==> st.collections.contains_key(cid) && names.contains(st.collections[cid].name)
        }),
    decreases names.len(),
{
    let after = model::each_activated(st, names).0;
    if names.len() > 0 {
        let mid = model::each_activated(st, names.drop_last()).0;
        law_activated_lists_are_active(st, names.drop_last());
        laws::law_activate_all_keeps_order(st, names.drop_last());
        let last = names.last();
        if last != DEFAULT_COLLECTION_NAME@ {
            let id = model::collection_named(mid, last)->Ok_0;
            assert(model::has_name(mid, id, last));
        }
        assert(mid.active.submap_of(after.active)) by {
            assert forall|id: Seq<char>| #[trigger] mid.active.dom().contains(id) implies
                after.active.dom().contains(id) && after.active[id] == mid.active[id] by {}
        }
        assert(st.active.submap_of(after.active)) by {
            assert forall|id: Seq<char>| #[trigger] st.active.dom().contains(id) implies
                after.active.dom().contains(id) && after.active[id] == st.active[id] by {
                assert(mid.active.dom().contains(id));
            }
        }
        assert forall|i: int, cid: Seq<char>|
            0 <= i < names.len() && #[trigger] st.collections.contains_key(cid)
                && st.collections[cid].name == #[trigger] names[i] implies
            after.active.contains_key(cid) by {
            if i < names.len() - 1 {
                assert(names.drop_last()[i] == names[i]);
                assert(mid.active.dom().contains(cid));
            } else if last == DEFAULT_COLLECTION_NAME@ {
                assert(st.collections.contains_key(DEFAULT_COLLECTION_ID@));
                assert(cid == DEFAULT_COLLECTION_ID@);
                assert(st.active.dom().contains(cid));
            } else {
                rows::lemma_id_of_name(mid, cid);
            }
        }
        assert forall|cid: Seq<char>| #[trigger]
            after.active.contains_key(cid) && !st.active.contains_key(cid) implies
            st.collections.contains_key(cid) && names.contains(st.collections[cid].name) by {
            if mid.active.contains_key(cid) {
                let i = names.drop_last().index_of(st.collections[cid].name);
                assert(names.drop_last()[i] == names[i]);
            } else {
                assert(names[names.len() - 1] == last);
            }
        }
    }
}

/// Several collections are activated unless no priority is left above the highest.
pub proof fn law_activate_all_is_owed(st: StoreState, names: Seq<Seq<char>>)
    requires
        model::consistent(st),
    ensures
        (forall|id: Seq<char>| #[trigger]
            st.active.contains_key(id) ==> st.active[id].priority < i64::MAX)
            ==> model::collections_activated(st, names) == model::each_activated(st, names),
        (exists|id: Seq<char>| #[trigger]
            st.active.contains_key(id) && st.active[id].priority == i64::MAX)
            ==> model::collections_activated(st, names) == (
            st,
            Err::<Seq<Seq<char>>, Failure>(Failure::PriorityOverflow),
        ),
{
    laws::lemma_highest(st);
}

/// A collection other than the shared one loses its mark and nothing else; the value says whether
/// it had one.
pub proof fn law_deactivate_takes_mark(st: StoreState, cid: Seq<char>)
    requires
        model::consistent(st),
        st.collections.contains_key(cid),
        !st.collections[cid].deleted,
        names::valid_name(st.collections[cid].name),
        cid != DEFAULT_COLLECTION_ID@,
    ensures
        ({
            let (after, r) = model::collection_deactivated(st, st.collections[cid].name);
            &&& r == Ok::<bool, Failure>(st.active.contains_key(cid))
            &&& !after.active.contains_key(cid)
            &&& only_mark(st, after, cid)
        }),
{
    rows::lemma_id_of_name(st, cid);
    assert(st.collections.contains_key(DEFAULT_COLLECTION_ID@));
    let after = model::collection_deactivated(st, st.collections[cid].name).0;
    assert(after.active.remove(cid) =~= st.active.remove(cid));
}

/// Deactivating is refused for a name that is not valid, for the shared collection, and for a
/// collection that is not there or is deleted.
pub proof fn law_deactivate_refuses(st: StoreState, name: Seq<char>)
    requires
        model::consistent(st),
    ensures
        !names::valid_name(name) ==> model::collection_deactivated(st, name).1 == Err::<
            bool,
            Failure,
        >(Failure::InvalidName(name)),
        name == "shared"@ ==> model::collection_deactivated(st, name).1 == Err::<bool, Failure>(
            Failure::SharedAlwaysActive,
        ),
        names::valid_name(name) && name != "shared"@ && (forall|id: Seq<char>| #[trigger]
            st.collections.contains_key(id) && st.collections[id].name == name
                ==> st.collections[id].deleted) ==> model::collection_deactivated(st, name).1
            == Err::<bool, Failure>(Failure::CollectionNotFound(name)),
{
    names::lemma_shared_is_valid();
    if model::id_of_name(st, name) is Some {
        assert(model::has_name(st, model::id_of_name(st, name).unwrap(), name));
    }
}

// ---------------------------------------------------------------------------
// Changing aliases
// ---------------------------------------------------------------------------
/// The collection is there under a valid name and is not deleted.
pub open spec fn usable(st: StoreState, cid: Seq<char>) -> bool {
    &&& st.collections.contains_key(cid)
    &&& !st.collections[cid].deleted
    &&& names::valid_name(st.collections[cid].name)
}

/// An alias that a collection does not have, not even as a deleted one, is added, if no alias has
/// the new id: it is not deleted, waits to be sent, was never sent, and dates from now.
pub proof fn law_upsert_adds(
    st: StoreState,
    cid: Seq<char>,
    name: Seq<char>,
    command: Seq<char>,
    id: Seq<char>,
    t: i64,
)
    requires
        model::consistent(st),
        usable(st, cid),
        names::valid_name(name),
        !st.aliases.contains_key((cid, name)),
        forall|k: AliasKey| #[trigger] st.aliases.contains_key(k) ==> st.aliases[k].id != id,
    ensures
        ({
            let (after, r) = model::alias_upserted(
                st,
                st.collections[cid].name,
                name,
                command,
                id,
                Some(t),
            );
            let a = after.aliases[(cid, name)];
            &&& r is Ok
            &&& after.aliases.contains_key((cid, name))
            &&& a.id == id
            &&& a.collection_id == cid
            &&& a.name == name
            &&& a.command == command
            &&& !a.deleted
            &&& a.dirty
            &&& a.sync_version == 0
            &&& a.created_at == t
            &&& a.updated_at == t
            &&& only_alias(st, after, (cid, name))
        }),
{
    rows::lemma_id_of_name(st, cid);
    let after = model::alias_upserted(
        st,
        st.collections[cid].name,
        name,
        command,
        id,
        Some(t),
    ).0;
    assert(after.aliases.remove((cid, name)) =~= st.aliases.remove((cid, name)));
}

/// An alias that a collection has, deleted or not, gets the command, is there again, and waits to
/// be sent as changed now. It keeps its id, its version and the time it dates from, and the new id
/// is not used.
pub proof fn law_upsert_replaces(
    st: StoreState,
    cid: Seq<char>,
    name: Seq<char>,
    command: Seq<char>,
    id: Seq<char>,
    t: i64,
)
    requires
        model::consistent(st),
        usable(st, cid),
        names::valid_name(name),
        st.aliases.contains_key((cid, name)),
    ensures
        ({
            let (after, r) = model::alias_upserted(
                st,
                st.collections[cid].name,
                name,
                command,
                id,
                Some(t),
            );
            let a = after.aliases[(cid, name)];
            let before = st.aliases[(cid, name)];
            &&& r is Ok
            &&& after.aliases.contains_key((cid, name))
            &&& a.id == before.id
            &&& a.collection_id == cid
            &&& a.name == name
            &&& a.command == command
            &&& !a.deleted
            &&& a.dirty
            &&& a.sync_version == before.sync_version
            &&& a.created_at == before.created_at
            &&& a.updated_at == t
            &&& only_alias(st, after, (cid, name))
        }),
{
    rows::lemma_id_of_name(st, cid);
    let after = model::alias_upserted(
        st,
        st.collections[cid].name,
        name,
        command,
        id,
        Some(t),
    ).0;
    assert(after.aliases.remove((cid, name)) =~= st.aliases.remove((cid, name)));
}

/// Putting an alias into a collection is refused for a name that is not valid, for a collection
/// that cannot be found, without a time, and for a new alias whose id is in use; in this order.
pub proof fn law_upsert_refuses(
    st: StoreState,
    collection: Seq<char>,
    name: Seq<char>,
    command: Seq<char>,
    id: Seq<char>,
    now: Option<i64>,
)
    requires
        model::consistent(st),
    ensures
        ({
            let r = model::alias_upserted(st, collection, name, command, id, now).1;
            &&& !names::valid_name(name) ==> r == Err::<(), Failure>(Failure::InvalidName(name))
            &&& names::valid_name(name) && !names::valid_name(collection) ==> r == Err::<
                (),
                Failure,
            >(Failure::InvalidName(collection))
            &&& names::valid_name(name) && names::valid_name(collection) && (forall|cid: Seq<char>|
             #[trigger]
                st.collections.contains_key(cid) && st.collections[cid].name == collection
                    ==> st.collections[cid].deleted) ==> r == Err::<(), Failure>(
                Failure::CollectionNotFound(collection),
            )
            &&& forall|cid: Seq<char>| #[trigger]
                usable(st, cid) && st.collections[cid].name == collection && names::valid_name(name)
                    && now is None ==> r == Err::<(), Failure>(Failure::ClockBeforeEpoch)
            &&& forall|cid: Seq<char>, k: AliasKey| #[trigger]
                usable(st, cid) && st.collections[cid].name == collection && names::valid_name(name)
                    && now is Some && !st.aliases.contains_key((cid, name)) && #[trigger]
                    st.aliases.contains_key(k) && st.aliases[k].id == id ==> r == Err::<
                    (),
                    Failure,
                >(Failure::DuplicateAliasId)
        }),
{
    if model::id_of_name(st, collection) is Some {
        assert(model::has_name(st, model::id_of_name(st, collection).unwrap(), collection));
    }
    let r = model::alias_upserted(st, collection, name, command, id, now).1;
    assert forall|cid: Seq<char>| #[trigger]
        usable(st, cid) && st.collections[cid].name == collection && names::valid_name(name)
            && now is None implies r == Err::<(), Failure>(Failure::ClockBeforeEpoch) by {
        rows::lemma_id_of_name(st, cid);
    }
    assert forall|cid: Seq<char>, k: AliasKey| #[trigger]
        usable(st, cid) && st.collections[cid].name == collection && names::valid_name(name)
            && now is Some && !st.aliases.contains_key((cid, name)) && #[trigger]
        st.aliases.contains_key(k) && st.aliases[k].id == id implies r == Err::<(), Failure>(
        Failure::DuplicateAliasId,
    ) by {
        rows::lemma_id_of_name(st, cid);
    }
}

/// Putting the same alias in twice is the same as doing so once, at the later time.
pub proof fn law_upsert_twice(
    st: StoreState,
    cid: Seq<char>,
    name: Seq<char>,
    commands: (Seq<char>, Seq<char>),
    ids: (Seq<char>, Seq<char>),
    t: (i64, i64),
)
    requires
        model::consistent(st),
        usable(st, cid),
        names::valid_name(name),
        forall|k: AliasKey| #[trigger] st.aliases.contains_key(k) ==> st.aliases[k].id != ids.0,
    ensures
        ({
            let collection = st.collections[cid].name;
            let once = model::alias_upserted(st, collection, name, commands.0, ids.0, Some(t.0)).0;
            let (twice, r) = model::alias_upserted(
                once,
                collection,
                name,
                commands.1,
                ids.1,
                Some(t.1),
            );
            &&& r is Ok
            &&& twice.aliases[(cid, name)].id == once.aliases[(cid, name)].id
            &&& twice.aliases[(cid, name)].created_at == once.aliases[(cid, name)].created_at
            &&& twice.aliases[(cid, name)].command == commands.1
            &&& twice.aliases[(cid, name)].updated_at == t.1
            &&& twice.aliases.dom() == once.aliases.dom()
        }),
{
    let collection = st.collections[cid].name;
    let once = model::alias_upserted(st, collection, name, commands.0, ids.0, Some(t.0)).0;
    laws::law_upsert_keeps_order(st, collection, name, commands.0, ids.0, Some(t.0));
    if st.aliases.contains_key((cid, name)) {
        law_upsert_replaces(st, cid, name, commands.0, ids.0, t.0);
    } else {
        law_upsert_adds(st, cid, name, commands.0, ids.0, t.0);
    }
    law_upsert_replaces(once, cid, name, commands.1, ids.1, t.1);
    let twice = model::alias_upserted(once, collection, name, commands.1, ids.1, Some(t.1)).0;
    assert(twice.aliases.dom() =~= once.aliases.dom()) by {
        assert forall|k: AliasKey| twice.aliases.dom().contains(k) <==> #[trigger]
            once.aliases.dom().contains(k) by {
            assert(twice.aliases.remove((cid, name)).dom().contains(k)
                <==> once.aliases.remove((cid, name)).dom().contains(k));
        }
    }
}

/// The alias is not deleted, and neither is its collection.
pub open spec fn stands(st: StoreState, cid: Seq<char>, name: Seq<char>) -> bool {
    &&& st.aliases.contains_key((cid, name))
    &&& !st.aliases[(cid, name)].deleted
    &&& st.collections.contains_key(cid)
    &&& !st.collections[cid].deleted
}

/// The collection is the one that is named; where none is named, no other one has an alias of that
/// name.
pub open spec fn in_scope(
    st: StoreState,
    scope: Option<Seq<char>>,
    cid: Seq<char>,
    name: Seq<char>,
) -> bool {
    match scope {
        Some(collection) => usable(st, cid) && st.collections[cid].name == collection,
        None => forall|other: Seq<char>|
            other != cid ==> !(#[trigger] st.collections.contains_key(other) && stands(
                st,
                other,
                name,
            )),
    }
}

proof fn lemma_scope_is(st: StoreState, scope: Option<Seq<char>>, cid: Seq<char>, name: Seq<char>)
    requires
        model::consistent(st),
        stands(st, cid, name),
        in_scope(st, scope, cid, name),
    ensures
        model::scope_of(st, scope, name) == Ok::<Seq<char>, Failure>(cid),
{
    match scope {
        Some(collection) => {
            rows::lemma_id_of_name(st, cid);
        },
        None => {
            assert(model::holds(st, cid, name));
            assert forall|other: Seq<char>| model::holds(st, other, name) implies other == cid by {
                assert(st.collections.contains_key(other));
            }
        },
    }
}

/// An alias that stands in the scope gets the command and waits to be sent as changed now; all
/// else about it stays, and so does all else. The value is the name of its collection.
pub proof fn law_update_changes(
    st: StoreState,
    scope: Option<Seq<char>>,
    cid: Seq<char>,
    name: Seq<char>,
    command: Seq<char>,
    t: i64,
)
    requires
        model::consistent(st),
        names::valid_name(name),
        stands(st, cid, name),
        in_scope(st, scope, cid, name),
    ensures
        ({
            let (after, r) = model::alias_updated(st, scope, name, command, Some(t));
            let a = after.aliases[(cid, name)];
            let before = st.aliases[(cid, name)];
            &&& r == Ok::<Seq<char>, Failure>(st.collections[cid].name)
            &&& after.aliases.contains_key((cid, name))
            &&& a.id == before.id
            &&& a.collection_id == cid
            &&& a.name == name
            &&& a.command == command
            &&& !a.deleted
            &&& a.dirty
            &&& a.sync_version == before.sync_version
            &&& a.created_at == before.created_at
            &&& a.updated_at == t
            &&& only_alias(st, after, (cid, name))
        }),
{
    lemma_scope_is(st, scope, cid, name);
    let after = model::alias_updated(st, scope, name, command, Some(t)).0;
    assert(after.aliases.remove((cid, name)) =~= st.aliases.remove((cid, name)));
}

/// An alias that stands in the scope is deleted and waits to be sent as changed now; all else about
/// it stays, and so does all else. The value is the name of its collection.
pub proof fn law_delete_changes(
    st: StoreState,
    scope: Option<Seq<char>>,
    cid: Seq<char>,
    name: Seq<char>,
    t: i64,
)
    requires
        model::consistent(st),
        names::valid_name(name),
        stands(st, cid, name),
        in_scope(st, scope, cid, name),
    ensures
        ({
            let (after, r) = model::alias_deleted(st, scope, name, Some(t));
            let a = after.aliases[(cid, name)];
            let before = st.aliases[(cid, name)];
            &&& r == Ok::<Seq<char>, Failure>(st.collections[cid].name)
            &&& after.aliases.contains_key((cid, name))
            &&& a.id == before.id
            &&& a.collection_id == cid
            &&& a.name == name
            &&& a.command == before.command
            &&& a.deleted
            &&& a.dirty
            &&& a.sync_version == before.sync_version
            &&& a.created_at == before.created_at
            &&& a.updated_at == t
            &&& only_alias(st, after, (cid, name))
        }),
{
    lemma_scope_is(st, scope, cid, name);
    let after = model::alias_deleted(st, scope, name, Some(t)).0;
    assert(after.aliases.remove((cid, name)) =~= st.aliases.remove((cid, name)));
}

/// Editing and deleting are refused alike: for a name that is not valid, in a named collection that
/// cannot be found, for an alias that stands nowhere or, without a named collection, in two, and
/// without a time.
pub proof fn law_change_refuses(
    st: StoreState,
    scope: Option<Seq<char>>,
    name: Seq<char>,
    command: Seq<char>,
    now: Option<i64>,
)
    requires
        model::consistent(st),
    ensures
        ({
            let r = model::alias_updated(st, scope, name, command, now).1;
            &&& model::alias_deleted(st, scope, name, now).1 == r
            &&& !names::valid_name(name) ==> r == Err::<Seq<char>, Failure>(
                Failure::InvalidName(name),
            )
            &&& names::valid_name(name) && scope is None && (forall|cid: Seq<char>| #[trigger]
                st.collections.contains_key(cid) ==> !stands(st, cid, name)) ==> r == Err::<
                Seq<char>,
                Failure,
            >(Failure::AliasNotFound(name))
            &&& forall|a: Seq<char>, b: Seq<char>|
                names::valid_name(name) && scope is None && a != b && #[trigger] stands(st, a, name)
                    && #[trigger] stands(st, b, name) ==> r == Err::<Seq<char>, Failure>(
                    Failure::AmbiguousAlias,
                )
            &&& forall|collection: Seq<char>|
                names::valid_name(name) && scope == Some(collection) && !#[trigger]
                    names::valid_name(collection) ==> r == Err::<Seq<char>, Failure>(
                    Failure::InvalidName(collection),
                )
            &&& forall|collection: Seq<char>|
                names::valid_name(name) && scope == Some(collection) && #[trigger]
                    names::valid_name(collection) && (forall|cid: Seq<char>| #[trigger]
                    st.collections.contains_key(cid) && st.collections[cid].name == collection
                        ==> st.collections[cid].deleted) ==> r == Err::<Seq<char>, Failure>(
                    Failure::CollectionNotFound(collection),
                )
            &&& forall|cid: Seq<char>| #[trigger]
                usable(st, cid) && names::valid_name(name) && scope == Some(
                    st.collections[cid].name,
                ) && now is Some && !stands(st, cid, name) ==> r == Err::<Seq<char>, Failure>(
                    Failure::AliasNotFound(name),
                )
            &&& forall|cid: Seq<char>| #[trigger]
                usable(st, cid) && names::valid_name(name) && scope == Some(
                    st.collections[cid].name,
                ) && now is None ==> r == Err::<Seq<char>, Failure>(Failure::ClockBeforeEpoch)
            &&& forall|cid: Seq<char>| #[trigger]
                st.collections.contains_key(cid) && names::valid_name(name) && stands(
                    st,
                    cid,
                    name,
                ) && in_scope(st, scope, cid, name) && now is None ==> r == Err::<
                    Seq<char>,
                    Failure,
                >(Failure::ClockBeforeEpoch)
        }),
{
    let r = model::alias_updated(st, scope, name, command, now).1;
    if let Some(collection) = scope {
        if model::id_of_name(st, collection) is Some {
            assert(model::has_name(st, model::id_of_name(st, collection).unwrap(), collection));
        }
    } else {
        if exists|id: Seq<char>| model::holds(st, id, name) {
            let id = choose|id: Seq<char>| model::holds(st, id, name);
            assert(st.collections.contains_key(id));
            assert(stands(st, id, name));
        }
        assert forall|a: Seq<char>, b: Seq<char>|
            names::valid_name(name) && a != b && #[trigger] stands(st, a, name) && #[trigger]
            stands(st, b, name) implies r == Err::<Seq<char>, Failure>(
            Failure::AmbiguousAlias,
        ) by {
            assert(model::holds(st, a, name) && model::holds(st, b, name));
        }
    }
    assert forall|cid: Seq<char>| #[trigger]
        usable(st, cid) && names::valid_name(name) && scope == Some(st.collections[cid].name)
            && now is Some && !stands(st, cid, name) implies r == Err::<Seq<char>, Failure>(
        Failure::AliasNotFound(name),
    ) by {
        rows::lemma_id_of_name(st, cid);
    }
    assert forall|cid: Seq<char>| #[trigger]
        usable(st, cid) && names::valid_name(name) && scope == Some(st.collections[cid].name)
            && now is None implies r == Err::<Seq<char>, Failure>(Failure::ClockBeforeEpoch) by {
        rows::lemma_id_of_name(st, cid);
    }
    assert forall|cid: Seq<char>| #[trigger]
        st.collections.contains_key(cid) && names::valid_name(name) && stands(st, cid, name)
            && in_scope(st, scope, cid, name) && now is None implies r == Err::<
        Seq<char>,
        Failure,
    >(Failure::ClockBeforeEpoch) by {
        lemma_scope_is(st, scope, cid, name);
    }
}

/// An alias that stands in one collection moves to another that has none of its name, not even a
/// deleted one. There it keeps its id, its command, its version and the time it dates from, and
/// waits to be sent as changed now. Nothing of it is left where it was, and nothing else changes.
pub proof fn law_move_moves(
    st: StoreState,
    name: Seq<char>,
    source: Seq<char>,
    target: Seq<char>,
    t: i64,
)
    requires
        model::consistent(st),
        names::valid_name(name),
        usable(st, source),
        usable(st, target),
        st.aliases.contains_key((source, name)),
        !st.aliases[(source, name)].deleted,
        !st.aliases.contains_key((target, name)),
    ensures
        ({
            let (after, r) = model::alias_moved(
                st,
                name,
                st.collections[source].name,
                st.collections[target].name,
                Some(t),
            );
            let a = after.aliases[(target, name)];
            let before = st.aliases[(source, name)];
            &&& r is Ok
            &&& after.aliases.contains_key((target, name))
            &&& a.id == before.id
            &&& a.collection_id == target
            &&& a.name == name
            &&& a.command == before.command
            &&& !a.deleted
            &&& a.dirty
            &&& a.sync_version == before.sync_version
            &&& a.created_at == before.created_at
            &&& a.updated_at == t
            &&& !after.aliases.contains_key((source, name))
            &&& after.aliases.remove((target, name)) == st.aliases.remove((source, name))
            &&& after.collections == st.collections
            &&& after.active == st.active
            &&& after.backups == st.backups
        }),
{
    rows::lemma_id_of_name(st, source);
    rows::lemma_id_of_name(st, target);
    let after = model::alias_moved(
        st,
        name,
        st.collections[source].name,
        st.collections[target].name,
        Some(t),
    ).0;
    assert(after.aliases.remove((target, name)) =~= st.aliases.remove((source, name)));
}

/// Moving is refused where the other collection has an alias of the name, also for one that is
/// moved to where it is; where the first has none; and for names that are not valid or not found.
pub proof fn law_move_refuses(
    st: StoreState,
    name: Seq<char>,
    source: Seq<char>,
    target: Seq<char>,
    now: Option<i64>,
)
    requires
        model::consistent(st),
        usable(st, source),
        usable(st, target),
    ensures
        ({
            let r = model::alias_moved(
                st,
                name,
                st.collections[source].name,
                st.collections[target].name,
                now,
            ).1;
            &&& !names::valid_name(name) ==> r == Err::<(), Failure>(Failure::InvalidName(name))
            &&& names::valid_name(name) && stands(st, target, name) ==> r == Err::<(), Failure>(
                Failure::AliasExistsInTarget(name),
            )
            &&& names::valid_name(name) && !stands(st, target, name) && now is None ==> r == Err::<
                (),
                Failure,
            >(Failure::ClockBeforeEpoch)
            &&& names::valid_name(name) && !stands(st, target, name) && now is Some && !stands(
                st,
                source,
                name,
            ) ==> r == Err::<(), Failure>(Failure::AliasNotFound(name))
            &&& names::valid_name(name) && !stands(st, target, name) && now is Some && stands(
                st,
                source,
                name,
            ) && st.aliases.contains_key((target, name)) ==> r == Err::<(), Failure>(
                Failure::DuplicateAliasName,
            )
        }),
{
    rows::lemma_id_of_name(st, source);
    rows::lemma_id_of_name(st, target);
}

/// Moving names the first collection that cannot be found, the one to move from before the other.
pub proof fn law_move_needs_collections(
    st: StoreState,
    name: Seq<char>,
    from: Seq<char>,
    to: Seq<char>,
    now: Option<i64>,
)
    requires
        model::consistent(st),
        names::valid_name(name),
    ensures
        ({
            let r = model::alias_moved(st, name, from, to, now).1;
            let lost = |collection: Seq<char>|
                forall|cid: Seq<char>| #[trigger]
                    st.collections.contains_key(cid) && st.collections[cid].name == collection
                        ==> st.collections[cid].deleted;
            &&& !names::valid_name(from) ==> r == Err::<(), Failure>(Failure::InvalidName(from))
            &&& names::valid_name(from) && lost(from) ==> r == Err::<(), Failure>(
                Failure::CollectionNotFound(from),
            )
            &&& names::valid_name(from) && !lost(from) && !names::valid_name(to) ==> r == Err::<
                (),
                Failure,
            >(Failure::InvalidName(to))
            &&& names::valid_name(from) && !lost(from) && names::valid_name(to) && lost(to) ==> r
                == Err::<(), Failure>(Failure::CollectionNotFound(to))
        }),
{
    if model::id_of_name(st, from) is Some {
        assert(model::has_name(st, model::id_of_name(st, from).unwrap(), from));
    }
    if model::id_of_name(st, to) is Some {
        assert(model::has_name(st, model::id_of_name(st, to).unwrap(), to));
    }
    if exists|cid: Seq<char>| #[trigger]
        st.collections.contains_key(cid) && st.collections[cid].name == from
            && !st.collections[cid].deleted {
        let cid = choose|cid: Seq<char>| #[trigger]
            st.collections.contains_key(cid) && st.collections[cid].name == from
                && !st.collections[cid].deleted;
        rows::lemma_id_of_name(st, cid);
    }
}

/// Moving an alias and moving it back leaves it where it was, with a later change to be sent.
pub proof fn law_move_back(
    st: StoreState,
    name: Seq<char>,
    source: Seq<char>,
    target: Seq<char>,
    t: i64,
    later: i64,
)
    requires
        model::consistent(st),
        names::valid_name(name),
        usable(st, source),
        usable(st, target),
        st.aliases.contains_key((source, name)),
        !st.aliases[(source, name)].deleted,
        !st.aliases.contains_key((target, name)),
    ensures
        ({
            let from = st.collections[source].name;
            let to = st.collections[target].name;
            let away = model::alias_moved(st, name, from, to, Some(t)).0;
            let (back, r) = model::alias_moved(away, name, to, from, Some(later));
            &&& r is Ok
            &&& only_alias(st, back, (source, name))
            &&& back.aliases.contains_key((source, name))
            &&& back.aliases[(source, name)].command == st.aliases[(source, name)].command
            &&& back.aliases[(source, name)].id == st.aliases[(source, name)].id
            &&& back.aliases[(source, name)].dirty
            &&& back.aliases[(source, name)].updated_at == later
        }),
{
    let from = st.collections[source].name;
    let to = st.collections[target].name;
    let away = model::alias_moved(st, name, from, to, Some(t)).0;
    law_move_moves(st, name, source, target, t);
    laws::law_move_keeps_order(st, name, from, to, Some(t));
    law_move_moves(away, name, target, source, later);
}

// ---------------------------------------------------------------------------
// Changes from other computers
// ---------------------------------------------------------------------------
/// The collection that an incoming alias goes to: the one of its collection's name, deleted or not;
/// where there is none, a new one under the id that came with it, which no other has.
pub open spec fn receives(st: StoreState, r: RemoteAlias, cid: Seq<char>) -> bool {
    if st.collections.contains_key(cid) {
        st.collections[cid].name == r.collection_name
    } else {
        cid == r.collection_id && forall|id: Seq<char>| #[trigger]
            st.collections.contains_key(id) ==> st.collections[id].name != r.collection_name
    }
}

/// No alias but the one under the key has the id.
pub open spec fn id_is_free(st: StoreState, id: Seq<char>, key: AliasKey) -> bool {
    forall|k: AliasKey| #[trigger]
        st.aliases.contains_key(k) && k != key ==> st.aliases[k].id != id
}

/// A local change of the alias is still to be sent and is later than the given time.
pub open spec fn changed_later(st: StoreState, key: AliasKey, time: i64) -> bool {
    st.aliases.contains_key(key) && st.aliases[key].dirty && st.aliases[key].updated_at > time
}

/// What an incoming alias does to the collections: the one that it goes to is there and is not
/// deleted, a new one as never changed here and never sent; no other one changes.
pub open spec fn received_in(
    st: StoreState,
    after: StoreState,
    r: RemoteAlias,
    cid: Seq<char>,
    t: i64,
) -> bool {
    let c = after.collections[cid];
    let before = st.collections[cid];
    let there = st.collections.contains_key(cid);
    &&& after.collections.contains_key(cid)
    &&& c.id == cid
    &&& c.name == r.collection_name
    &&& !c.deleted
    &&& c.dirty == (there && before.dirty)
    &&& c.sync_version == if there {
        before.sync_version
    } else {
        0
    }
    &&& c.created_at == if there {
        before.created_at
    } else {
        t
    }
    &&& c.updated_at == if there {
        before.updated_at
    } else {
        t
    }
    &&& after.collections.remove(cid) == st.collections.remove(cid)
}

proof fn lemma_received(
    st: StoreState,
    r: RemoteAlias,
    cid: Seq<char>,
    backup_id: Seq<char>,
    t: i64,
)
    requires
        model::consistent(st),
        names::valid_name(r.name),
        names::valid_name(r.collection_name),
        receives(st, r, cid),
    ensures
        ({
            let (mid, ensured) = model::remote_collection_ensured(
                st,
                r.collection_id,
                r.collection_name,
                Some(t),
            );
            &&& ensured is Ok
            &&& received_in(st, mid, r, cid, t)
            &&& mid.aliases == st.aliases
            &&& mid.backups == st.backups
            &&& mid.active == st.active
            &&& model::remote_alias_applied(st, r, backup_id, Some(t))
                == model::remote_alias_stored(mid, r, cid, backup_id, Some(t))
        }),
{
    let (mid, ensured) = model::remote_collection_ensured(
        st,
        r.collection_id,
        r.collection_name,
        Some(t),
    );
    laws::law_ensure_remote_keeps_order(st, r.collection_id, r.collection_name, Some(t));
    if st.collections.contains_key(cid) {
        rows::lemma_id_of_name(st, cid);
    } else {
        law_unknown_collection_is_not_found(st, r.collection_name);
    }
    rows::lemma_id_of_name(mid, cid);
    assert(mid.collections.remove(cid) =~= st.collections.remove(cid));
}

/// An incoming alias is taken over unless a later local change of it is still to be sent. It then
/// reads as it was sent and does not wait to be sent. A local change that it replaces is backed up
/// under an id that no backup has. Deleted or not makes no difference, neither here nor there.
pub proof fn law_incoming_alias_is_taken_over(
    st: StoreState,
    r: RemoteAlias,
    cid: Seq<char>,
    backup_id: Seq<char>,
    t: i64,
)
    requires
        model::consistent(st),
        names::valid_name(r.name),
        names::valid_name(r.collection_name),
        receives(st, r, cid),
        id_is_free(st, r.id, (cid, r.name)),
        !changed_later(st, (cid, r.name), r.updated_at),
        st.aliases.contains_key((cid, r.name)) && st.aliases[(cid, r.name)].dirty
            ==> !st.backups.contains_key(backup_id),
    ensures
        ({
            let (after, done) = model::remote_alias_applied(st, r, backup_id, Some(t));
            let key = (cid, r.name);
            let a = after.aliases[key];
            let local = st.aliases[key];
            &&& done == Ok::<bool, Failure>(true)
            &&& after.aliases.contains_key(key)
            &&& a.id == r.id
            &&& a.collection_id == cid
            &&& a.name == r.name
            &&& a.command == r.command
            &&& a.deleted == r.deleted
            &&& !a.dirty
            &&& a.sync_version == r.version
            &&& a.updated_at == r.updated_at
            &&& a.created_at == if st.aliases.contains_key(key) {
                local.created_at
            } else {
                t
            }
            &&& after.aliases.remove(key) == st.aliases.remove(key)
            &&& received_in(st, after, r, cid, t)
            &&& after.active == st.active
            &&& !(st.aliases.contains_key(key) && local.dirty) ==> after.backups == st.backups
            &&& st.aliases.contains_key(key) && local.dirty ==> {
                &&& after.backups.contains_key(backup_id)
                &&& after.backups.remove(backup_id) == st.backups
                &&& after.backups[backup_id].id == backup_id
                &&& after.backups[backup_id].alias_name == r.collection_name + "/"@ + r.name
                &&& after.backups[backup_id].command == local.command
                &&& after.backups[backup_id].remote_version == r.version
                &&& after.backups[backup_id].created_at == t
            }
        }),
{
    lemma_received(st, r, cid, backup_id, t);
    let key = (cid, r.name);
    let mid = model::remote_collection_ensured(st, r.collection_id, r.collection_name, Some(t)).0;
    assert(!model::alias_id_taken_by_other(mid, r.id, key));
    let after = model::remote_alias_applied(st, r, backup_id, Some(t)).0;
    assert(after.aliases.remove(key) =~= st.aliases.remove(key));
    if st.aliases.contains_key(key) && st.aliases[key].dirty {
        assert(after.backups.remove(backup_id) =~= st.backups);
    }
}

/// An incoming alias that replaces no local change is taken over whatever the id for a backup is.
pub proof fn law_nothing_to_back_up(
    st: StoreState,
    r: RemoteAlias,
    cid: Seq<char>,
    backup_id: Seq<char>,
    t: i64,
)
    requires
        model::consistent(st),
        names::valid_name(r.name),
        names::valid_name(r.collection_name),
        receives(st, r, cid),
        id_is_free(st, r.id, (cid, r.name)),
        st.aliases.contains_key((cid, r.name)) ==> !st.aliases[(cid, r.name)].dirty,
    ensures
        model::remote_alias_applied(st, r, backup_id, Some(t)).1 == Ok::<bool, Failure>(true),
        model::remote_alias_applied(st, r, backup_id, Some(t)).0.backups == st.backups,
{
    lemma_received(st, r, cid, backup_id, t);
    let mid = model::remote_collection_ensured(st, r.collection_id, r.collection_name, Some(t)).0;
    assert(!model::alias_id_taken_by_other(mid, r.id, (cid, r.name)));
}

/// A later local change of an alias that is still to be sent stays as it is, and nothing is backed
/// up; its collection is no longer deleted.
pub proof fn law_later_change_stays(
    st: StoreState,
    r: RemoteAlias,
    cid: Seq<char>,
    backup_id: Seq<char>,
    t: i64,
)
    requires
        model::consistent(st),
        names::valid_name(r.name),
        names::valid_name(r.collection_name),
        receives(st, r, cid),
        changed_later(st, (cid, r.name), r.updated_at),
    ensures
        ({
            let (after, done) = model::remote_alias_applied(st, r, backup_id, Some(t));
            &&& done == Ok::<bool, Failure>(false)
            &&& after.aliases == st.aliases
            &&& after.active == st.active
            &&& after.backups == st.backups
            &&& received_in(st, after, r, cid, t)
        }),
{
    lemma_received(st, r, cid, backup_id, t);
}

/// Why an incoming alias is refused: a name that is not valid, a collection that can be neither
/// found nor created, a backup whose id is in use, an id that another alias has, or no time. Where
/// the id of the alias is in use, a local change was backed up before that was found.
pub proof fn law_incoming_alias_is_refused(
    st: StoreState,
    r: RemoteAlias,
    cid: Seq<char>,
    backup_id: Seq<char>,
    now: Option<i64>,
)
    requires
        model::consistent(st),
    ensures
        ({
            let (after, done) = model::remote_alias_applied(st, r, backup_id, now);
            let key = (cid, r.name);
            let named = names::valid_name(r.name) && names::valid_name(r.collection_name);
            let local_change = st.aliases.contains_key(key) && st.aliases[key].dirty;
            &&& !names::valid_name(r.name) ==> done == Err::<bool, Failure>(
                Failure::InvalidName(r.name),
            ) && after == st
            &&& names::valid_name(r.name) && !names::valid_name(r.collection_name) ==> done
                == Err::<bool, Failure>(Failure::InvalidName(r.collection_name)) && after == st
            &&& named && now is Some && st.collections.contains_key(r.collection_id) && (forall|
                id: Seq<char>,
            | #[trigger]
                st.collections.contains_key(id) ==> st.collections[id].name != r.collection_name)
                ==> done == Err::<bool, Failure>(Failure::DuplicateCollectionId) && after == st
            &&& named && now is None && receives(st, r, cid) && !changed_later(
                st,
                key,
                r.updated_at,
            ) ==> done == Err::<bool, Failure>(Failure::ClockBeforeEpoch) && after == st
            &&& named && now is Some && receives(st, r, cid) && !changed_later(
                st,
                key,
                r.updated_at,
            ) && local_change && st.backups.contains_key(backup_id) ==> done == Err::<
                bool,
                Failure,
            >(Failure::DuplicateBackupId) && after.aliases == st.aliases && after.backups
                == st.backups
            &&& named && now is Some && receives(st, r, cid) && !changed_later(
                st,
                key,
                r.updated_at,
            ) && !(local_change && st.backups.contains_key(backup_id)) && !id_is_free(
                st,
                r.id,
                key,
            ) ==> done == Err::<bool, Failure>(Failure::DuplicateAliasId) && after.aliases
                == st.aliases && (local_change ==> after.backups.contains_key(backup_id)) && (
            !local_change ==> after.backups == st.backups)
            &&& named && now is None && (forall|id: Seq<char>| #[trigger]
                st.collections.contains_key(id) && st.collections[id].name == r.collection_name
                    ==> st.collections[id].deleted) ==> done == Err::<bool, Failure>(
                Failure::ClockBeforeEpoch,
            ) && after == st
            &&& named && now is Some && receives(st, r, cid) && done is Err ==> received_in(
                st,
                after,
                r,
                cid,
                now.unwrap(),
            ) && after.active == st.active
        }),
{
    let key = (cid, r.name);
    if names::valid_name(r.name) && names::valid_name(r.collection_name) {
        if st.collections.contains_key(cid) {
            rows::lemma_id_of_name(st, cid);
        }
        if model::id_of_name(st, r.collection_name) is Some {
            assert(model::has_name(
                st,
                model::id_of_name(st, r.collection_name).unwrap(),
                r.collection_name,
            ));
        }
        if forall|id: Seq<char>| #[trigger]
            st.collections.contains_key(id) ==> st.collections[id].name != r.collection_name {
            law_unknown_collection_is_not_found(st, r.collection_name);
        }
        if now is Some && receives(st, r, cid) {
            lemma_received(st, r, cid, backup_id, now.unwrap());
            let mid = model::remote_collection_ensured(
                st,
                r.collection_id,
                r.collection_name,
                now,
            ).0;
            if !id_is_free(st, r.id, key) {
                let k = choose|k: AliasKey| #[trigger]
                    st.aliases.contains_key(k) && k != key && st.aliases[k].id == r.id;
                assert(mid.aliases.contains_key(k));
                assert(model::alias_id_taken_by_other(mid, r.id, key));
            }
        }
    }
}

/// An incoming collection is taken over into the one of its name, unless that one is not deleted
/// and has a later change that is still to be sent. It keeps its id and the time it dates from.
/// The shared collection is never deleted.
pub proof fn law_incoming_collection_is_taken_over(
    st: StoreState,
    r: RemoteCollection,
    cid: Seq<char>,
    t: i64,
)
    requires
        model::consistent(st),
        names::valid_name(r.name),
        st.collections.contains_key(cid),
        st.collections[cid].name == r.name,
    ensures
        ({
            let (after, done) = model::remote_collection_applied(st, r, Some(t));
            let before = st.collections[cid];
            let c = after.collections[cid];
            if !before.deleted && before.dirty && before.updated_at > r.updated_at {
                done == Ok::<bool, Failure>(false) && after == st
            } else {
                &&& done == Ok::<bool, Failure>(true)
                &&& after.collections.contains_key(cid)
                &&& c.id == cid
                &&& c.name == r.name
                &&& c.deleted == (r.deleted && cid != "collection:shared"@)
                &&& !c.dirty
                &&& c.sync_version == r.version
                &&& c.created_at == before.created_at
                &&& c.updated_at == r.updated_at
                &&& only_collection(st, after, cid)
            }
        }),
{
    rows::lemma_id_of_name(st, cid);
    assert(st.collections.contains_key(DEFAULT_COLLECTION_ID@));
    let after = model::remote_collection_applied(st, r, Some(t)).0;
    assert(after.collections.remove(cid) =~= st.collections.remove(cid));
}

/// An incoming collection of a new name is added under its own id, if no other has that id.
pub proof fn law_incoming_collection_is_added(st: StoreState, r: RemoteCollection, t: i64)
    requires
        model::consistent(st),
        names::valid_name(r.name),
        forall|id: Seq<char>| #[trigger]
            st.collections.contains_key(id) ==> st.collections[id].name != r.name,
    ensures
        ({
            let (after, done) = model::remote_collection_applied(st, r, Some(t));
            let c = after.collections[r.id];
            if st.collections.contains_key(r.id) {
                done == Err::<bool, Failure>(Failure::DuplicateCollectionId) && after == st
            } else {
                &&& done == Ok::<bool, Failure>(true)
                &&& after.collections.contains_key(r.id)
                &&& c.id == r.id
                &&& c.name == r.name
                &&& c.deleted == r.deleted
                &&& !c.dirty
                &&& c.sync_version == r.version
                &&& c.created_at == t
                &&& c.updated_at == r.updated_at
                &&& only_collection(st, after, r.id)
            }
        }),
{
    law_unknown_collection_is_not_found(st, r.name);
    assert(st.collections.contains_key(DEFAULT_COLLECTION_ID@));
    let after = model::remote_collection_applied(st, r, Some(t)).0;
    assert(after.collections.remove(r.id) =~= st.collections.remove(r.id));
}

/// An incoming collection needs a valid name and, unless a later local change stays, a time.
pub proof fn law_incoming_collection_is_refused(
    st: StoreState,
    r: RemoteCollection,
    now: Option<i64>,
)
    requires
        model::consistent(st),
    ensures
        ({
            let (after, done) = model::remote_collection_applied(st, r, now);
            &&& !names::valid_name(r.name) ==> done == Err::<bool, Failure>(
                Failure::InvalidName(r.name),
            ) && after == st
            &&& names::valid_name(r.name) && now is None && (forall|id: Seq<char>| #[trigger]
                st.collections.contains_key(id) && st.collections[id].name == r.name ==> !(
                !st.collections[id].deleted && st.collections[id].dirty
                    && st.collections[id].updated_at > r.updated_at)) ==> done == Err::<
                bool,
                Failure,
            >(Failure::ClockBeforeEpoch) && after == st
        }),
{
    if model::id_of_name(st, r.name) is Some {
        assert(model::has_name(st, model::id_of_name(st, r.name).unwrap(), r.name));
    }
}

/// Noting that the server has a collection gives it that version, and it no longer waits to be
/// sent. Nothing else changes, and nothing at all where no collection has the id.
pub proof fn law_collection_is_noted(st: StoreState, id: Seq<char>, version: i64)
    requires
        model::consistent(st),
    ensures
        ({
            let after = model::collection_synced(st, id, version);
            &&& after.collections.dom() == st.collections.dom()
            &&& only_collection(st, after, id)
            &&& st.collections.contains_key(id) ==> {
                &&& after.collections[id].id == id
                &&& after.collections[id].name == st.collections[id].name
                &&& after.collections[id].deleted == st.collections[id].deleted
                &&& !after.collections[id].dirty
                &&& after.collections[id].sync_version == version
                &&& after.collections[id].created_at == st.collections[id].created_at
                &&& after.collections[id].updated_at == st.collections[id].updated_at
            }
        }),
{
    let after = model::collection_synced(st, id, version);
    assert(after.collections.dom() =~= st.collections.dom());
    assert(after.collections.remove(id) =~= st.collections.remove(id));
}

/// Noting that the server has an alias gives it that version, and it no longer waits to be sent.
/// Nothing else changes.
pub proof fn law_alias_is_noted(st: StoreState, id: Seq<char>, version: i64)
    requires
        model::consistent(st),
    ensures
        ({
            let after = model::alias_synced(st, id, version);
            &&& after.collections == st.collections
            &&& after.active == st.active
            &&& after.backups == st.backups
            &&& after.aliases.dom() == st.aliases.dom()
            &&& forall|k: AliasKey| #[trigger]
                st.aliases.contains_key(k) && st.aliases[k].id != id ==> after.aliases[k]
                    == st.aliases[k]
            &&& forall|k: AliasKey| #[trigger]
                st.aliases.contains_key(k) && st.aliases[k].id == id ==> {
                    &&& after.aliases[k].id == id
                    &&& after.aliases[k].collection_id == k.0
                    &&& after.aliases[k].name == k.1
                    &&& after.aliases[k].command == st.aliases[k].command
                    &&& after.aliases[k].deleted == st.aliases[k].deleted
                    &&& !after.aliases[k].dirty
                    &&& after.aliases[k].sync_version == version
                    &&& after.aliases[k].created_at == st.aliases[k].created_at
                    &&& after.aliases[k].updated_at == st.aliases[k].updated_at
                }
        }),
{
    let after = model::alias_synced(st, id, version);
    assert(after.aliases.dom() =~= st.aliases.dom());
}

// ---------------------------------------------------------------------------
// Scopes, and making sure of collections
// ---------------------------------------------------------------------------
/// An alias is changed in the collection that is named, whether or not it stands there; without a
/// name, in the only one in which it stands.
pub proof fn law_scope(st: StoreState, scope: Option<Seq<char>>, cid: Seq<char>, name: Seq<char>)
    requires
        model::consistent(st),
        in_scope(st, scope, cid, name),
        scope is None ==> stands(st, cid, name),
    ensures
        model::scope_of(st, scope, name) == Ok::<Seq<char>, Failure>(cid),
{
    match scope {
        Some(collection) => {
            rows::lemma_id_of_name(st, cid);
        },
        None => {
            lemma_scope_is(st, scope, cid, name);
        },
    }
}

/// Without a named collection, there is no scope for an alias that stands nowhere or in two.
pub proof fn law_no_scope(st: StoreState, name: Seq<char>)
    requires
        model::consistent(st),
    ensures
        (forall|cid: Seq<char>| #[trigger]
            st.collections.contains_key(cid) ==> !stands(st, cid, name)) ==> model::scope_of(
            st,
            None,
            name,
        ) == Err::<Seq<char>, Failure>(Failure::AliasNotFound(name)),
        forall|a: Seq<char>, b: Seq<char>|
            a != b && #[trigger] stands(st, a, name) && #[trigger] stands(st, b, name)
                ==> model::scope_of(st, None, name) == Err::<Seq<char>, Failure>(
                Failure::AmbiguousAlias,
            ),
{
    if exists|id: Seq<char>| model::holds(st, id, name) {
        let id = choose|id: Seq<char>| model::holds(st, id, name);
        assert(st.collections.contains_key(id));
        assert(stands(st, id, name));
    }
    assert forall|a: Seq<char>, b: Seq<char>|
        a != b && #[trigger] stands(st, a, name) && #[trigger] stands(
            st,
            b,
            name,
        ) implies model::scope_of(st, None, name) == Err::<Seq<char>, Failure>(
        Failure::AmbiguousAlias,
    ) by {
        assert(model::holds(st, a, name) && model::holds(st, b, name));
    }
}

/// Making sure of a collection leaves one that is found as it is, takes the deletion of another one
/// back and changes nothing else about it, and adds a new one under the id, if no other has it, as
/// never changed here and never sent.
pub proof fn law_collection_is_made_sure_of(
    st: StoreState,
    id: Seq<char>,
    name: Seq<char>,
    cid: Seq<char>,
    t: i64,
)
    requires
        model::consistent(st),
        names::valid_name(name),
        if st.collections.contains_key(cid) {
            st.collections[cid].name == name
        } else {
            cid == id && forall|other: Seq<char>| #[trigger]
                st.collections.contains_key(other) ==> st.collections[other].name != name
        },
    ensures
        ({
            let (after, r) = model::remote_collection_ensured(st, id, name, Some(t));
            let c = after.collections[cid];
            let before = st.collections[cid];
            &&& r is Ok
            &&& only_collection(st, after, cid)
            &&& after.collections.contains_key(cid)
            &&& c.id == cid
            &&& c.name == name
            &&& !c.deleted
            &&& st.collections.contains_key(cid) ==> c.dirty == before.dirty && c.sync_version
                == before.sync_version && c.created_at == before.created_at && c.updated_at
                == before.updated_at
            &&& !st.collections.contains_key(cid) ==> !c.dirty && c.sync_version == 0
                && c.created_at == t && c.updated_at == t
        }),
{
    if st.collections.contains_key(cid) {
        rows::lemma_id_of_name(st, cid);
    } else {
        law_unknown_collection_is_not_found(st, name);
    }
    let after = model::remote_collection_ensured(st, id, name, Some(t)).0;
    assert(after.collections.remove(cid) =~= st.collections.remove(cid));
}

/// Why a collection cannot be made sure of: its name is not valid, the id for a new one is in use, or
/// there is no time for one that cannot be found.
pub proof fn law_collection_is_not_made_sure_of(
    st: StoreState,
    id: Seq<char>,
    name: Seq<char>,
    now: Option<i64>,
)
    requires
        model::consistent(st),
    ensures
        ({
            let (after, r) = model::remote_collection_ensured(st, id, name, now);
            &&& !names::valid_name(name) ==> r == Err::<(), Failure>(Failure::InvalidName(name))
                && after == st
            &&& names::valid_name(name) && now is None && (forall|cid: Seq<char>| #[trigger]
                st.collections.contains_key(cid) && st.collections[cid].name == name
                    ==> st.collections[cid].deleted) ==> r == Err::<(), Failure>(
                Failure::ClockBeforeEpoch,
            ) && after == st
            &&& names::valid_name(name) && now is Some && st.collections.contains_key(id) && (
            forall|cid: Seq<char>| #[trigger]
                st.collections.contains_key(cid) ==> st.collections[cid].name != name) ==> r == Err::<
                (),
                Failure,
            >(Failure::DuplicateCollectionId) && after == st
            &&& forall|cid: Seq<char>| #[trigger]
                usable(st, cid) && st.collections[cid].name == name ==> r is Ok && after == st
        }),
{
    if model::id_of_name(st, name) is Some {
        assert(model::has_name(st, model::id_of_name(st, name).unwrap(), name));
    }
    assert forall|cid: Seq<char>| #[trigger]
        usable(st, cid) && st.collections[cid].name
            == name implies model::remote_collection_ensured(st, id, name, now).1 is Ok
        && model::remote_collection_ensured(st, id, name, now).0 == st by {
        rows::lemma_id_of_name(st, cid);
    }
}

/// The shared collection is made sure of unless another one has its name: it has its name, is not
/// deleted and is active with the lowest priority. What was there keeps all else; a new one is not
/// to be sent. No other record changes.
pub proof fn law_shared_is_made_sure_of(st: StoreState, t: i64)
    requires
        model::keys_agree(st),
    ensures
        ({
            let shared = "collection:shared"@;
            let before = st.collections[shared];
            let there = st.collections.contains_key(shared);
            let r = model::shared_ensured(st, t);
            if exists|other: Seq<char>| #[trigger]
                st.collections.contains_key(other) && other != shared && st.collections[other].name
                    == "shared"@ {
                r == Err::<StoreState, Failure>(Failure::DuplicateCollectionName)
            } else {
                &&& r is Ok
                &&& ({
                    let after = r->Ok_0;
                    let c = after.collections[shared];
                    &&& after.collections.contains_key(shared)
                    &&& c.id == shared
                    &&& c.name == "shared"@
                    &&& !c.deleted
                    &&& there ==> c.dirty == before.dirty && c.sync_version == before.sync_version
                        && c.created_at == before.created_at && c.updated_at == before.updated_at
                    &&& !there ==> !c.dirty && c.sync_version == 0 && c.created_at == t
                        && c.updated_at == t
                    &&& after.active.contains_key(shared)
                    &&& after.active[shared].collection_id == shared
                    &&& after.active[shared].priority == 0
                    &&& after.collections.remove(shared) == st.collections.remove(shared)
                    &&& after.active.remove(shared) == st.active.remove(shared)
                    &&& after.aliases == st.aliases
                    &&& after.backups == st.backups
                })
            }
        }),
{
    let shared = DEFAULT_COLLECTION_ID@;
    let name = DEFAULT_COLLECTION_NAME@;
    if exists|other: Seq<char>| #[trigger]
        st.collections.contains_key(other) && other != shared && st.collections[other].name
            == "shared"@ {
        let other = choose|other: Seq<char>| #[trigger]
            st.collections.contains_key(other) && other != shared && st.collections[other].name
                == "shared"@;
        assert(model::has_name(st, other, name));
    } else {
        assert forall|other: Seq<char>| other != shared implies !model::has_name(
            st,
            other,
            name,
        ) by {
            assert(st.collections.contains_key(other) ==> other == shared
                || st.collections[other].name != "shared"@);
        }
        let after = model::shared_ensured(st, t)->Ok_0;
        assert(after.collections.remove(shared) =~= st.collections.remove(shared));
        assert(after.active.remove(shared) =~= st.active.remove(shared));
    }
}

// ---------------------------------------------------------------------------
// Lists
// ---------------------------------------------------------------------------
/// The alias in the list is the stored one, with the name of its collection.
pub open spec fn shows(st: StoreState, a: AliasInfo) -> bool {
    let k = (a.collection_id, a.name);
    &&& st.aliases.contains_key(k)
    &&& st.collections.contains_key(k.0)
    &&& a.id == st.aliases[k].id
    &&& a.collection_name == st.collections[k.0].name
    &&& a.command == st.aliases[k].command
    &&& a.deleted == st.aliases[k].deleted
    &&& a.dirty == st.aliases[k].dirty
    &&& a.sync_version == st.aliases[k].sync_version
    &&& a.updated_at == st.aliases[k].updated_at
}

/// The list has an alias under the key.
pub open spec fn lists(list: Seq<AliasInfo>, k: AliasKey) -> bool {
    exists|i: int|
        0 <= i < list.len() && (#[trigger] list[i]).collection_id == k.0 && list[i].name == k.1
}

/// No key is in the list twice.
pub open spec fn keys_once(list: Seq<AliasInfo>) -> bool {
    forall|i: int, j: int|
        0 <= i < j < list.len() ==> (#[trigger] list[i]).collection_id != (
        #[trigger] list[j]).collection_id || list[i].name != list[j].name
}

proof fn lemma_shown(list: Seq<AliasInfo>, st: StoreState, keys: Set<AliasKey>)
    requires
        model::consistent(st),
        model::shows_aliases(list, st, keys),
        forall|k: AliasKey| #[trigger]
            keys.contains(k) ==> st.aliases.contains_key(k) && st.collections.contains_key(k.0),
    ensures
        keys_once(list),
        forall|i: int| 0 <= i < list.len() ==> shows(st, #[trigger] list[i]),
        forall|i: int|
            0 <= i < list.len() ==> keys.contains(
                ((#[trigger] list[i]).collection_id, list[i].name),
            ),
        forall|k: AliasKey| #[trigger] keys.contains(k) ==> lists(list, k),
{
    assert forall|i: int, j: int| 0 <= i < j < list.len() implies (
    #[trigger] list[i]).collection_id != (#[trigger] list[j]).collection_id || list[i].name
        != list[j].name by {
        assert(list[i] != list[j]);
    }
    assert forall|k: AliasKey| #[trigger] keys.contains(k) implies lists(list, k) by {
        let info = model::alias_info(st, k);
        assert(list.contains(info));
        let i = list.index_of(info);
        assert(list[i] == info);
        assert(list[i].collection_id == k.0 && list[i].name == k.1);
    }
}

/// The alias stands, its collection is marked, and no alias of its name of which the same holds is
/// marked with a higher priority.
pub open spec fn prevails(st: StoreState, k: AliasKey) -> bool {
    &&& stands(st, k.0, k.1)
    &&& st.active.contains_key(k.0)
    &&& forall|id: Seq<char>| #[trigger]
        st.active.contains_key(id) && stands(st, id, k.1) ==> st.active[id].priority
            <= st.active[k.0].priority
}

/// The list of what a shell gets has exactly the aliases that prevail, each once and as it is
/// stored, by name.
pub proof fn law_effective_list(list: Seq<AliasInfo>, st: StoreState)
    requires
        model::consistent(st),
        model::is_effective_list(list, st),
    ensures
        keys_once(list),
        forall|i: int|
            0 <= i < list.len() ==> shows(st, #[trigger] list[i]) && prevails(
                st,
                (list[i].collection_id, list[i].name),
            ),
        forall|k: AliasKey| #[trigger] prevails(st, k) ==> lists(list, k),
        forall|i: int, j: int|
            0 <= i < j < list.len() ==> !text::text_lt(
                (#[trigger] list[j]).name,
                (#[trigger] list[i]).name,
            ),
{
    let keys = model::effective_keys(st);
    assert forall|k: AliasKey| keys.contains(k) <==> #[trigger] prevails(st, k) by {
        assert((k.0, k.1) == k);
        law_highest_priority_wins(st, k);
        assert forall|id: Seq<char>| prevails(st, k) && #[trigger] st.active.contains_key(id)
            && st.aliases.contains_key((id, k.1)) && !st.aliases[(id, k.1)].deleted
            && st.collections.contains_key(id) && !st.collections[id].deleted implies
            st.active[id].priority <= st.active[k.0].priority by {
            assert(stands(st, id, k.1));
        }
    }
    assert forall|k: AliasKey| #[trigger] keys.contains(k) implies st.aliases.contains_key(k)
        && st.collections.contains_key(k.0) by {
        assert(prevails(st, k));
        assert((k.0, k.1) == k);
    }
    lemma_shown(list, st, keys);
    assert forall|i: int, j: int| 0 <= i < j < list.len() implies !text::text_lt(
        (#[trigger] list[j]).name,
        (#[trigger] list[i]).name,
    ) by {
        let before = model::by_name();
        assert(!before(list[j], list[i]));
    }
    assert forall|i: int| 0 <= i < list.len() implies prevails(
        st,
        ((#[trigger] list[i]).collection_id, list[i].name),
    ) by {
        assert(keys.contains((list[i].collection_id, list[i].name)));
    }
}

/// The list of all aliases has exactly those that stand, each once and as it is stored, by the name
/// of the collection and then by name.
pub proof fn law_whole_list(list: Seq<AliasInfo>, st: StoreState)
    requires
        model::consistent(st),
        model::is_alias_list(list, st, None),
    ensures
        keys_once(list),
        forall|i: int|
            0 <= i < list.len() ==> shows(st, #[trigger] list[i]) && stands(
                st,
                list[i].collection_id,
                list[i].name,
            ),
        forall|cid: Seq<char>, name: Seq<char>| #[trigger]
            stands(st, cid, name) ==> lists(list, (cid, name)),
        forall|i: int, j: int|
            0 <= i < j < list.len() ==> text::text_lt(
                (#[trigger] list[i]).collection_name,
                (#[trigger] list[j]).collection_name,
            ) || (list[i].collection_name == list[j].collection_name && text::text_lt(
                list[i].name,
                list[j].name,
            )),
{
    let keys = model::live_keys(st);
    lemma_shown(list, st, keys);
    assert forall|cid: Seq<char>, name: Seq<char>| #[trigger] stands(st, cid, name) implies lists(
        list,
        (cid, name),
    ) by {
        assert(keys.contains((cid, name)));
    }
    assert forall|i: int| 0 <= i < list.len() implies stands(
        st,
        (#[trigger] list[i]).collection_id,
        list[i].name,
    ) by {
        assert(keys.contains((list[i].collection_id, list[i].name)));
    }
    lemma_collection_order_is_strict(list, st);
}

proof fn lemma_collection_order_is_strict(list: Seq<AliasInfo>, st: StoreState)
    requires
        model::consistent(st),
        keys_once(list),
        forall|i: int| 0 <= i < list.len() ==> shows(st, #[trigger] list[i]),
        model::in_order(list, model::by_collection()),
    ensures
        forall|i: int, j: int|
            0 <= i < j < list.len() ==> text::text_lt(
                (#[trigger] list[i]).collection_name,
                (#[trigger] list[j]).collection_name,
            ) || (list[i].collection_name == list[j].collection_name && text::text_lt(
                list[i].name,
                list[j].name,
            )),
{
    assert forall|i: int, j: int| 0 <= i < j < list.len() implies text::text_lt(
        (#[trigger] list[i]).collection_name,
        (#[trigger] list[j]).collection_name,
    ) || (list[i].collection_name == list[j].collection_name && text::text_lt(
        list[i].name,
        list[j].name,
    )) by {
        let before = model::by_collection();
        assert(!before(list[j], list[i]));
        text::lemma_text_lt_total(list[i].collection_name, list[j].collection_name);
        text::lemma_text_lt_total(list[i].name, list[j].name);
        assert(st.collections.contains_key(list[i].collection_id));
        assert(st.collections.contains_key(list[j].collection_id));
    }
}

/// The list of one collection has exactly the aliases that stand in it, each once and as it is
/// stored, by name.
pub proof fn law_list_of_one(list: Seq<AliasInfo>, st: StoreState, cid: Seq<char>)
    requires
        model::consistent(st),
        usable(st, cid),
        model::is_alias_list(list, st, Some(st.collections[cid].name)),
    ensures
        forall|i: int|
            0 <= i < list.len() ==> shows(st, #[trigger] list[i]) && list[i].collection_id == cid
                && stands(st, cid, list[i].name),
        forall|name: Seq<char>| #[trigger] stands(st, cid, name) ==> lists(list, (cid, name)),
        forall|i: int, j: int|
            0 <= i < j < list.len() ==> text::text_lt(
                (#[trigger] list[i]).name,
                (#[trigger] list[j]).name,
            ),
{
    rows::lemma_id_of_name(st, cid);
    let keys = model::live_keys_in(st, cid);
    lemma_shown(list, st, keys);
    assert forall|name: Seq<char>| #[trigger] stands(st, cid, name) implies lists(
        list,
        (cid, name),
    ) by {
        assert(keys.contains((cid, name)));
    }
    assert forall|i: int| 0 <= i < list.len() implies (#[trigger] list[i]).collection_id == cid
        && stands(st, cid, list[i].name) by {
        assert(keys.contains((list[i].collection_id, list[i].name)));
    }
    assert forall|i: int, j: int| 0 <= i < j < list.len() implies text::text_lt(
        (#[trigger] list[i]).name,
        (#[trigger] list[j]).name,
    ) by {
        let before = model::by_name();
        assert(!before(list[j], list[i]));
        text::lemma_text_lt_total(list[i].name, list[j].name);
        assert(list[i].collection_id == list[j].collection_id);
    }
}

/// Listing the aliases of a collection fails if and only if the collection cannot be found.
pub proof fn law_listing_is_owed(st: StoreState, collection: Seq<char>)
    requires
        model::consistent(st),
    ensures
        model::listed_keys(st, None) is Ok,
        !names::valid_name(collection) ==> model::listed_keys(st, Some(collection)) == Err::<
            Set<AliasKey>,
            Failure,
        >(Failure::InvalidName(collection)),
        names::valid_name(collection) && (forall|cid: Seq<char>| #[trigger]
            st.collections.contains_key(cid) && st.collections[cid].name == collection
                ==> st.collections[cid].deleted) ==> model::listed_keys(st, Some(collection))
            == Err::<Set<AliasKey>, Failure>(Failure::CollectionNotFound(collection)),
        forall|cid: Seq<char>| #[trigger]
            usable(st, cid) && st.collections[cid].name == collection ==> model::listed_keys(
                st,
                Some(collection),
            ) is Ok,
{
    if model::id_of_name(st, collection) is Some {
        assert(model::has_name(st, model::id_of_name(st, collection).unwrap(), collection));
    }
    assert forall|cid: Seq<char>| #[trigger]
        usable(st, cid) && st.collections[cid].name == collection implies model::listed_keys(
        st,
        Some(collection),
    ) is Ok by {
        rows::lemma_id_of_name(st, cid);
    }
}

/// The list of what is to be sent has exactly the aliases that are marked as changed and whose
/// collection is there, deleted or not, each once and as it is stored.
pub proof fn law_pending_list(list: Seq<AliasInfo>, st: StoreState)
    requires
        model::consistent(st),
        model::is_pending_alias_list(list, st),
    ensures
        keys_once(list),
        forall|i: int| 0 <= i < list.len() ==> shows(st, #[trigger] list[i]) && list[i].dirty,
        forall|k: AliasKey| #[trigger]
            st.aliases.contains_key(k) && st.aliases[k].dirty && st.collections.contains_key(k.0)
                ==> lists(list, k),
        forall|i: int, j: int|
            0 <= i < j < list.len() ==> text::text_lt(
                (#[trigger] list[i]).collection_name,
                (#[trigger] list[j]).collection_name,
            ) || (list[i].collection_name == list[j].collection_name && text::text_lt(
                list[i].name,
                list[j].name,
            )),
{
    let keys = model::pending_keys(st);
    lemma_shown(list, st, keys);
    assert forall|k: AliasKey| #[trigger]
        st.aliases.contains_key(k) && st.aliases[k].dirty && st.collections.contains_key(
            k.0,
        ) implies lists(list, k) by {
        assert(keys.contains(k));
    }
    assert forall|i: int| 0 <= i < list.len() implies (#[trigger] list[i]).dirty by {
        assert(keys.contains((list[i].collection_id, list[i].name)));
    }
    lemma_collection_order_is_strict(list, st);
}

/// The collection in the list is the stored one, with its mark.
pub open spec fn shows_collection(st: StoreState, c: CollectionInfo) -> bool {
    &&& st.collections.contains_key(c.id)
    &&& c.name == st.collections[c.id].name
    &&& c.deleted == st.collections[c.id].deleted
    &&& c.dirty == st.collections[c.id].dirty
    &&& c.sync_version == st.collections[c.id].sync_version
    &&& c.updated_at == st.collections[c.id].updated_at
    &&& c.active == st.active.contains_key(c.id)
    &&& c.active ==> c.priority == st.active[c.id].priority
    &&& !c.active ==> c.priority == -1
}

/// The list has a collection of the id.
pub open spec fn lists_collection(list: Seq<CollectionInfo>, id: Seq<char>) -> bool {
    exists|i: int| 0 <= i < list.len() && (#[trigger] list[i]).id == id
}

proof fn lemma_collections_are_shown(
    list: Seq<CollectionInfo>,
    st: StoreState,
    ids: Set<Seq<char>>,
)
    requires
        model::consistent(st),
        model::shows_collections(list, st, ids),
        forall|id: Seq<char>| #[trigger] ids.contains(id) ==> st.collections.contains_key(id),
    ensures
        forall|i: int| 0 <= i < list.len() ==> shows_collection(st, #[trigger] list[i]),
        forall|i: int| 0 <= i < list.len() ==> ids.contains((#[trigger] list[i]).id),
        forall|i: int, j: int|
            0 <= i < j < list.len() ==> (#[trigger] list[i]).id != (#[trigger] list[j]).id
                && list[i].name != list[j].name,
        forall|id: Seq<char>| #[trigger] ids.contains(id) ==> lists_collection(list, id),
{
    assert forall|i: int, j: int| 0 <= i < j < list.len() implies (#[trigger] list[i]).id != (
    #[trigger] list[j]).id && list[i].name != list[j].name by {
        assert(list[i] != list[j]);
        assert(st.collections.contains_key(list[i].id) && st.collections.contains_key(list[j].id));
    }
    assert forall|id: Seq<char>| #[trigger] ids.contains(id) implies lists_collection(list, id) by {
        let info = model::collection_info(st, id);
        assert(list.contains(info));
        let i = list.index_of(info);
        assert(list[i] == info);
        assert(list[i].id == id);
    }
}

/// The list of collections has exactly those that are not deleted, each once, as it is stored and
/// with its mark: the shared one first, then the active ones by priority, then the others by name.
pub proof fn law_collection_list(list: Seq<CollectionInfo>, st: StoreState)
    requires
        model::consistent(st),
        model::is_collection_list(list, st),
    ensures
        forall|i: int|
            0 <= i < list.len() ==> shows_collection(st, #[trigger] list[i]) && !list[i].deleted,
        forall|id: Seq<char>| #[trigger]
            st.collections.contains_key(id) && !st.collections[id].deleted ==> lists_collection(
                list,
                id,
            ),
        forall|i: int, j: int|
            0 <= i < j < list.len() ==> {
                &&& (#[trigger] list[i]).id != (#[trigger] list[j]).id
                &&& list[j].name != "shared"@
                &&& list[j].active ==> list[i].active
                &&& list[i].name != "shared"@ && list[j].active ==> list[i].priority
                    <= list[j].priority
                &&& list[i].name != "shared"@ && list[i].active == list[j].active
                    && list[i].priority == list[j].priority ==> text::text_lt(
                    list[i].name,
                    list[j].name,
                )
            },
{
    let ids = model::live_ids(st);
    lemma_collections_are_shown(list, st, ids);
    assert forall|id: Seq<char>| #[trigger]
        st.collections.contains_key(id) && !st.collections[id].deleted implies lists_collection(
        list,
        id,
    ) by {
        assert(ids.contains(id));
    }
    assert forall|i: int, j: int| 0 <= i < j < list.len() implies {
        &&& (#[trigger] list[i]).id != (#[trigger] list[j]).id
        &&& list[j].name != "shared"@
        &&& list[j].active ==> list[i].active
        &&& list[i].name != "shared"@ && list[j].active ==> list[i].priority <= list[j].priority
        &&& list[i].name != "shared"@ && list[i].active == list[j].active && list[i].priority
            == list[j].priority ==> text::text_lt(list[i].name, list[j].name)
    } by {
        let before = model::by_rank();
        assert(!before(list[j], list[i]));
        text::lemma_text_lt_total(list[i].name, list[j].name);
        assert(st.collections.contains_key(DEFAULT_COLLECTION_ID@));
        assert(st.collections.contains_key(list[i].id));
        assert(st.collections.contains_key(list[j].id));
    }
}

/// The list of what is to be sent has exactly the collections that are marked as changed, deleted
/// or not, each once and as it is stored, by name.
pub proof fn law_pending_collection_list(list: Seq<CollectionInfo>, st: StoreState)
    requires
        model::consistent(st),
        model::is_pending_collection_list(list, st),
    ensures
        forall|i: int|
            0 <= i < list.len() ==> shows_collection(st, #[trigger] list[i]) && list[i].dirty,
        forall|id: Seq<char>| #[trigger]
            st.collections.contains_key(id) && st.collections[id].dirty ==> lists_collection(
                list,
                id,
            ),
        forall|i: int, j: int|
            0 <= i < j < list.len() ==> text::text_lt(
                (#[trigger] list[i]).name,
                (#[trigger] list[j]).name,
            ),
{
    let ids = model::dirty_ids(st);
    lemma_collections_are_shown(list, st, ids);
    assert forall|id: Seq<char>| #[trigger]
        st.collections.contains_key(id) && st.collections[id].dirty implies lists_collection(
        list,
        id,
    ) by {
        assert(ids.contains(id));
    }
    assert forall|i: int| 0 <= i < list.len() implies (#[trigger] list[i]).dirty by {
        assert(ids.contains(list[i].id));
    }
    assert forall|i: int, j: int| 0 <= i < j < list.len() implies text::text_lt(
        (#[trigger] list[i]).name,
        (#[trigger] list[j]).name,
    ) by {
        let before = model::by_collection_name();
        assert(!before(list[j], list[i]));
        text::lemma_text_lt_total(list[i].name, list[j].name);
    }
}

/// What is counted is what the lists have, and what waits to be sent are the records that are
/// marked as changed.
pub proof fn law_counts(
    st: StoreState,
    aliases: Seq<AliasInfo>,
    collections: Seq<CollectionInfo>,
    pending: Seq<CollectionInfo>,
)
    requires
        model::consistent(st),
        model::is_effective_list(aliases, st),
        model::is_collection_list(collections, st),
        model::is_pending_collection_list(pending, st),
    ensures
        model::effective_keys(st).len() == aliases.len(),
        model::live_ids(st).len() == collections.len(),
        model::dirty_ids(st).len() == pending.len(),
        model::dirty_keys(st) == st.aliases.dom().filter(|k: AliasKey| st.aliases[k].dirty),
{
    listing::lemma_aliases_shown(aliases, st, model::effective_keys(st));
    listing::lemma_collections_shown(collections, st, model::live_ids(st));
    listing::lemma_collections_shown(pending, st, model::dirty_ids(st));
    assert(model::dirty_keys(st) =~= st.aliases.dom().filter(|k: AliasKey| st.aliases[k].dirty));
}

/// The names of the active collections are those of the collections with a mark, in the order of
/// the list.
pub proof fn law_active_names(list: Seq<CollectionInfo>)
    ensures
        model::active_names(list) == list.filter(|c: CollectionInfo| c.active).map_values(
            |c: CollectionInfo| c.name,
        ),
    decreases list.len(),
{
    reveal(Seq::filter);
    if list.len() > 0 {
        law_active_names(list.drop_last());
        let kept = list.drop_last().filter(|c: CollectionInfo| c.active);
        assert(kept.push(list.last()).map_values(|c: CollectionInfo| c.name) =~= kept.map_values(
            |c: CollectionInfo| c.name,
        ).push(list.last().name));
    }
    assert(model::active_names(list) =~= list.filter(|c: CollectionInfo| c.active).map_values(
        |c: CollectionInfo| c.name,
    ));
}

/// Collections that are activated one after the other rank in that order: of two that were not
/// active, the one that is named later has the higher priority.
pub proof fn law_activated_in_order(
    st: StoreState,
    names: Seq<Seq<char>>,
    i: int,
    j: int,
    first: Seq<char>,
    second: Seq<char>,
)
    requires
        model::consistent(st),
        model::each_activated(st, names).1 is Ok,
        0 <= i < j < names.len(),
        forall|m: int| 0 <= m < j ==> #[trigger] names[m] != names[j],
        st.collections.contains_key(first),
        st.collections[first].name == names[i],
        st.collections.contains_key(second),
        st.collections[second].name == names[j],
        !st.active.contains_key(second),
    ensures
        ({
            let after = model::each_activated(st, names).0;
            &&& after.active.contains_key(first)
            &&& after.active.contains_key(second)
            &&& after.active[first].priority < after.active[second].priority
        }),
    decreases names.len(),
{
    let fewer = names.drop_last();
    let mid = model::each_activated(st, fewer).0;
    let after = model::each_activated(st, names).0;
    law_activated_lists_are_active(st, fewer);
    law_activated_lists_are_active(st, names);
    laws::law_activate_all_keeps_order(st, fewer);
    assert(fewer[i] == names[i]);
    assert(mid.active.contains_key(first));
    assert forall|id: Seq<char>| #[trigger] mid.active.contains_key(id) implies
        after.active.contains_key(id) && after.active[id] == mid.active[id] by {
        if names.last() != DEFAULT_COLLECTION_NAME@ {
            let last = model::collection_named(mid, names.last())->Ok_0;
            assert(model::has_name(mid, last, names.last()));
        }
    }
    if j < names.len() - 1 {
        assert(fewer[j] == names[j]);
        law_activated_in_order(st, fewer, i, j, first, second);
    } else {
        assert(!mid.active.contains_key(second)) by {
            if mid.active.contains_key(second) {
                assert(fewer.contains(st.collections[second].name));
                let m = fewer.index_of(st.collections[second].name);
                assert(names[m] == names[j]);
            }
        }
        assert(names[j] == names.last());
        rows::lemma_id_of_name(mid, second);
        laws::lemma_highest(mid);
        assert(st.collections.contains_key(DEFAULT_COLLECTION_ID@));
        assert(mid.active.contains_key(DEFAULT_COLLECTION_ID@));
    }
}

} // verus!
