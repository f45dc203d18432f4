//! What reaches another computer: taking over everything that one computer sent.

use vstd::prelude::*;

use crate::error::Failure;
use crate::laws;
use crate::model;
use crate::model::{AliasInfo, AliasKey, CollectionInfo, RemoteAlias, RemoteCollection, StoreState};
use crate::names::{DEFAULT_COLLECTION_ID, DEFAULT_COLLECTION_NAME};
use crate::rows;
use crate::transfer;

verus! {

/// Takes over collections one after the other, up to the first that fails. The value says how many
/// were taken over.
pub open spec fn collections_applied(
    st: StoreState,
    sent: Seq<RemoteCollection>,
    now: Option<i64>,
) -> (StoreState, Result<nat, Failure>)
    decreases sent.len(),
{
    if sent.len() == 0 {
        (st, Ok(0))
    } else {
        match collections_applied(st, sent.drop_last(), now) {
            (mid, Err(f)) => (mid, Err(f)),
            (mid, Ok(n)) => match model::remote_collection_applied(mid, sent.last(), now) {
                (after, Err(f)) => (after, Err(f)),
                (after, Ok(true)) => (after, Ok(n + 1)),
                (after, Ok(false)) => (after, Ok(n)),
            },
        }
    }
}

/// Takes over aliases one after the other, up to the first that fails, each with an id for the
/// backup of what it replaces. The value says how many were taken over.
pub open spec fn aliases_applied(
    st: StoreState,
    sent: Seq<RemoteAlias>,
    backup_ids: Seq<Seq<char>>,
    now: Option<i64>,
) -> (StoreState, Result<nat, Failure>)
    decreases sent.len(),
{
    if sent.len() == 0 {
        (st, Ok(0))
    } else {
        match aliases_applied(st, sent.drop_last(), backup_ids, now) {
            (mid, Err(f)) => (mid, Err(f)),
            (mid, Ok(n)) => match model::remote_alias_applied(
                mid,
                sent.last(),
                backup_ids[sent.len() - 1],
                now,
            ) {
                (after, Err(f)) => (after, Err(f)),
                (after, Ok(true)) => (after, Ok(n + 1)),
                (after, Ok(false)) => (after, Ok(n)),
            },
        }
    }
}

/// The aliases that can be sent: those in collections that are there, deleted or not.
pub open spec fn sent_keys(st: StoreState) -> Set<AliasKey> {
    Set::new(|k: AliasKey| st.aliases.contains_key(k) && st.collections.contains_key(k.0))
}

/// What was sent says what a collection is.
pub open spec fn carries_collection(r: RemoteCollection, c: CollectionInfo) -> bool {
    r.id == c.id && r.name == c.name && r.deleted == c.deleted && r.updated_at == c.updated_at
}

/// What was sent says what an alias is.
pub open spec fn carries_alias(r: RemoteAlias, a: AliasInfo) -> bool {
    &&& r.id == a.id
    &&& r.collection_id == a.collection_id
    &&& r.collection_name == a.collection_name
    &&& r.name == a.name
    &&& r.command == a.command
    &&& r.deleted == a.deleted
    &&& r.updated_at == a.updated_at
}

/// What is stored agrees with the source as far as it goes, and nothing waits to be sent.
spec fn agrees(st: StoreState, source: StoreState) -> bool {
    &&& model::consistent(st)
    &&& forall|id: Seq<char>| #[trigger]
        st.collections.contains_key(id) ==> {
            &&& source.collections.contains_key(id)
            &&& st.collections[id].name == source.collections[id].name
            &&& !st.collections[id].dirty
            &&& st.collections[id].deleted ==> source.collections[id].deleted
        }
    &&& forall|k: AliasKey| #[trigger]
        st.aliases.contains_key(k) ==> {
            &&& source.aliases.contains_key(k)
            &&& st.aliases[k].id == source.aliases[k].id
            &&& st.aliases[k].command == source.aliases[k].command
            &&& st.aliases[k].deleted == source.aliases[k].deleted
            &&& !st.aliases[k].dirty
            &&& st.collections.contains_key(k.0)
        }
}

/// A collection of the source is found under its id, or not at all.
proof fn lemma_same_id(st: StoreState, source: StoreState, id: Seq<char>)
    requires
        model::consistent(source),
        agrees(st, source),
        source.collections.contains_key(id),
    ensures
        match model::id_of_name(st, source.collections[id].name) {
            Some(there) => there == id && st.collections.contains_key(id),
            None => !st.collections.contains_key(id),
        },
{
    let name = source.collections[id].name;
    match model::id_of_name(st, name) {
        Some(there) => {
            assert(model::has_name(st, there, name));
            assert(source.collections.contains_key(there) && source.collections.contains_key(id));
        },
        None => {
            if st.collections.contains_key(id) {
                assert(model::has_name(st, id, name));
            }
        },
    }
}

proof fn lemma_collection_arrives(
    st: StoreState,
    source: StoreState,
    id: Seq<char>,
    r: RemoteCollection,
    now: Option<i64>,
)
    requires
        model::consistent(source),
        model::names_valid(source),
        agrees(st, source),
        source.collections.contains_key(id),
        carries_collection(r, model::collection_info(source, id)),
        now is Some,
    ensures
        ({
            let (after, result) = model::remote_collection_applied(st, r, now);
            &&& result == Ok::<bool, Failure>(true)
            &&& agrees(after, source)
            &&& after.aliases == st.aliases
        }),
{
    let (after, result) = model::remote_collection_applied(st, r, now);
    lemma_same_id(st, source, id);
    laws::law_remote_collection_keeps_order(st, r, now);
    if r.name == DEFAULT_COLLECTION_NAME@ {
        rows::lemma_id_of_name(source, DEFAULT_COLLECTION_ID@);
        rows::lemma_id_of_name(source, id);
    }
    assert forall|other: Seq<char>| #[trigger] after.collections.contains_key(other) implies {
        &&& source.collections.contains_key(other)
        &&& after.collections[other].name == source.collections[other].name
        &&& !after.collections[other].dirty
        &&& after.collections[other].deleted ==> source.collections[other].deleted
    } by {
        if other != id {
            assert(st.collections.contains_key(other));
        }
    }
}

proof fn lemma_collections_arrive(
    st: StoreState,
    source: StoreState,
    shown: Seq<CollectionInfo>,
    sent: Seq<RemoteCollection>,
    now: Option<i64>,
)
    requires
        model::consistent(source),
        model::names_valid(source),
        agrees(st, source),
        shown.len() == sent.len(),
        forall|i: int|
            0 <= i < shown.len() ==> source.collections.contains_key((#[trigger] shown[i]).id)
                && shown[i] == model::collection_info(source, shown[i].id) && carries_collection(
                sent[i],
                shown[i],
            ),
        now is Some,
    ensures
        ({
            let (after, result) = collections_applied(st, sent, now);
            &&& result == Ok::<nat, Failure>(sent.len())
            &&& agrees(after, source)
            &&& after.aliases == st.aliases
        }),
    decreases sent.len(),
{
    if sent.len() > 0 {
        let n = sent.len() - 1;
        let before = shown.drop_last();
        assert forall|i: int| 0 <= i < before.len() implies source.collections.contains_key(
            (#[trigger] before[i]).id,
        ) && before[i] == model::collection_info(source, before[i].id) && carries_collection(
            sent.drop_last()[i],
            before[i],
        ) by {
            assert(before[i] == shown[i]);
        }
        lemma_collections_arrive(st, source, before, sent.drop_last(), now);
        let mid = collections_applied(st, sent.drop_last(), now).0;
        assert(source.collections.contains_key(shown[n].id));
        lemma_collection_arrives(mid, source, shown[n].id, sent[n], now);
    }
}

proof fn lemma_alias_arrives(
    st: StoreState,
    source: StoreState,
    k: AliasKey,
    r: RemoteAlias,
    backup_id: Seq<char>,
    now: Option<i64>,
)
    requires
        model::consistent(source),
        model::names_valid(source),
        agrees(st, source),
        source.aliases.contains_key(k),
        source.collections.contains_key(k.0),
        !source.collections[k.0].deleted,
        !st.aliases.contains_key(k),
        carries_alias(r, model::alias_info(source, k)),
        now is Some,
    ensures
        ({
            let (after, result) = model::remote_alias_applied(st, r, backup_id, now);
            &&& result == Ok::<bool, Failure>(true)
            &&& agrees(after, source)
            &&& after.aliases.dom() == st.aliases.dom().insert(k)
        }),
{
    let (after, result) = model::remote_alias_applied(st, r, backup_id, now);
    assert(source.collections.contains_key(k.0));
    assert(k == (k.0, k.1));
    lemma_same_id(st, source, k.0);
    laws::law_ensure_remote_keeps_order(st, r.collection_id, r.collection_name, now);
    let mid = model::remote_collection_ensured(st, r.collection_id, r.collection_name, now).0;
    assert(mid.aliases == st.aliases);
    assert(mid.collections.contains_key(k.0));
    rows::lemma_id_of_name(mid, k.0);
    assert(!model::alias_id_taken_by_other(mid, r.id, k)) by {
        if model::alias_id_taken_by_other(mid, r.id, k) {
            let other = choose|other: AliasKey| #[trigger]
                mid.aliases.contains_key(other) && other != k && mid.aliases[other].id == r.id;
            assert(st.aliases.contains_key(other));
            assert(source.aliases.contains_key(other) && source.aliases.contains_key(k));
        }
    }
    laws::law_remote_alias_keeps_order(st, r, backup_id, now);
    assert(after.aliases.dom() =~= st.aliases.dom().insert(k));
    assert forall|id: Seq<char>| #[trigger] after.collections.contains_key(id) implies {
        &&& source.collections.contains_key(id)
        &&& after.collections[id].name == source.collections[id].name
        &&& !after.collections[id].dirty
        &&& after.collections[id].deleted ==> source.collections[id].deleted
    } by {
        if id != k.0 {
            assert(st.collections.contains_key(id));
        }
    }
    assert forall|other: AliasKey| #[trigger] after.aliases.contains_key(other) implies {
        &&& source.aliases.contains_key(other)
        &&& after.aliases[other].id == source.aliases[other].id
        &&& after.aliases[other].command == source.aliases[other].command
        &&& after.aliases[other].deleted == source.aliases[other].deleted
        &&& !after.aliases[other].dirty
        &&& after.collections.contains_key(other.0)
    } by {
        if other != k {
            assert(st.aliases.contains_key(other));
        }
    }
}

/// The keys of the aliases in a list.
spec fn keys_in(list: Seq<AliasInfo>) -> Set<AliasKey>
    decreases list.len(),
{
    if list.len() == 0 {
        Set::empty()
    } else {
        keys_in(list.drop_last()).insert((list.last().collection_id, list.last().name))
    }
}

proof fn lemma_keys_in(list: Seq<AliasInfo>, k: AliasKey)
    ensures
        keys_in(list).contains(k) <==> exists|i: int|
            0 <= i < list.len() && ((#[trigger] list[i]).collection_id, list[i].name) == k,
    decreases list.len(),
{
    if list.len() > 0 {
        let before = list.drop_last();
        let n = list.len() - 1;
        lemma_keys_in(before, k);
        if keys_in(list).contains(k) {
            if keys_in(before).contains(k) {
                let i = choose|i: int|
                    0 <= i < before.len() && ((#[trigger] before[i]).collection_id, before[i].name)
                        == k;
                assert(list[i] == before[i]);
            } else {
                assert((list[n].collection_id, list[n].name) == k);
            }
        }
        if exists|i: int|
            0 <= i < list.len() && ((#[trigger] list[i]).collection_id, list[i].name) == k {
            let i = choose|i: int|
                0 <= i < list.len() && ((#[trigger] list[i]).collection_id, list[i].name) == k;
            if i < n {
                assert(before[i] == list[i]);
            }
        }
    }
}

proof fn lemma_aliases_arrive(
    st: StoreState,
    source: StoreState,
    list: Seq<AliasInfo>,
    sent: Seq<RemoteAlias>,
    backup_ids: Seq<Seq<char>>,
    now: Option<i64>,
)
    requires
        model::consistent(source),
        model::names_valid(source),
        agrees(st, source),
        st.aliases.dom() == Set::<AliasKey>::empty(),
        list.no_duplicates(),
        list.len() == sent.len(),
        forall|i: int|
            0 <= i < list.len() ==> {
                let k = ((#[trigger] list[i]).collection_id, list[i].name);
                &&& source.aliases.contains_key(k)
                &&& source.collections.contains_key(k.0)
                &&& !source.collections[k.0].deleted
                &&& list[i] == model::alias_info(source, k)
                &&& carries_alias(sent[i], list[i])
            },
        now is Some,
    ensures
        ({
            let (after, result) = aliases_applied(st, sent, backup_ids, now);
            &&& result == Ok::<nat, Failure>(sent.len())
            &&& agrees(after, source)
            &&& after.aliases.dom() == keys_in(list)
        }),
    decreases sent.len(),
{
    if sent.len() > 0 {
        let n = sent.len() - 1;
        let before = list.drop_last();
        assert forall|i: int| 0 <= i < before.len() implies {
            let k = ((#[trigger] before[i]).collection_id, before[i].name);
            &&& source.aliases.contains_key(k)
            &&& source.collections.contains_key(k.0)
            &&& !source.collections[k.0].deleted
            &&& before[i] == model::alias_info(source, k)
            &&& carries_alias(sent.drop_last()[i], before[i])
        } by {
            assert(before[i] == list[i]);
        }
        assert(before.no_duplicates());
        lemma_aliases_arrive(st, source, before, sent.drop_last(), backup_ids, now);
        let mid = aliases_applied(st, sent.drop_last(), backup_ids, now).0;
        let k = (list[n].collection_id, list[n].name);
        assert(!mid.aliases.contains_key(k)) by {
            lemma_keys_in(before, k);
            if keys_in(before).contains(k) {
                let i = choose|i: int|
                    0 <= i < before.len() && ((#[trigger] before[i]).collection_id, before[i].name)
                        == k;
                assert(list[i] == before[i]);
                assert(list[i] == list[n]);
            }
        }
        lemma_alias_arrives(mid, source, k, sent[n], backup_ids[n], now);
    }
}

/// A computer that takes over everything that another one sent has the same aliases with the same
/// commands, and nothing to send. The other one may have deleted any of its aliases, but no
/// collection that still has some, deleted or not: an alias brings its collection back.
pub proof fn law_everything_arrives(
    source: StoreState,
    target: StoreState,
    shown: Seq<CollectionInfo>,
    collections: Seq<RemoteCollection>,
    list: Seq<AliasInfo>,
    aliases: Seq<RemoteAlias>,
    backup_ids: Seq<Seq<char>>,
    now: Option<i64>,
)
    requires
        model::consistent(source),
        model::names_valid(source),
        forall|k: AliasKey| #[trigger]
            sent_keys(source).contains(k) ==> !source.collections[k.0].deleted,
        forall|i: int|
            0 <= i < shown.len() ==> source.collections.contains_key((#[trigger] shown[i]).id)
                && shown[i] == model::collection_info(source, shown[i].id),
        collections.len() == shown.len(),
        forall|i: int|
            0 <= i < shown.len() ==> carries_collection(#[trigger] collections[i], shown[i]),
        model::shows_aliases(list, source, sent_keys(source)),
        aliases.len() == list.len(),
        forall|i: int| 0 <= i < list.len() ==> carries_alias(#[trigger] aliases[i], list[i]),
        transfer::is_fresh(target),
        !target.collections[DEFAULT_COLLECTION_ID@].dirty,
        now is Some,
    ensures
        ({
            let (mid, first) = collections_applied(target, collections, now);
            let (after, second) = aliases_applied(mid, aliases, backup_ids, now);
            &&& first == Ok::<nat, Failure>(collections.len())
            &&& second == Ok::<nat, Failure>(aliases.len())
            &&& transfer::published(after) == transfer::published(source)
            &&& model::dirty_ids(after) == Set::<Seq<char>>::empty()
            &&& model::dirty_keys(after) == Set::<AliasKey>::empty()
        }),
{
    assert(agrees(target, source)) by {
        assert forall|id: Seq<char>| #[trigger] target.collections.contains_key(id) implies id
            == DEFAULT_COLLECTION_ID@ by {
            assert(target.collections.dom().contains(id));
        }
        assert forall|k: AliasKey| !#[trigger] target.aliases.contains_key(k) by {
            assert(!target.aliases.dom().contains(k));
        }
    }
    lemma_collections_arrive(target, source, shown, collections, now);
    let mid = collections_applied(target, collections, now).0;
    assert forall|i: int| 0 <= i < list.len() implies {
        let k = ((#[trigger] list[i]).collection_id, list[i].name);
        &&& source.aliases.contains_key(k)
        &&& source.collections.contains_key(k.0)
        &&& !source.collections[k.0].deleted
        &&& list[i] == model::alias_info(source, k)
        &&& carries_alias(aliases[i], list[i])
    } by {
        let k = (list[i].collection_id, list[i].name);
        assert(sent_keys(source).contains(k));
    }
    lemma_aliases_arrive(mid, source, list, aliases, backup_ids, now);
    let after = aliases_applied(mid, aliases, backup_ids, now).0;
    assert forall|k: AliasKey| #[trigger] after.aliases.contains_key(k)
        == sent_keys(source).contains(k) by {
        lemma_keys_in(list, k);
        if sent_keys(source).contains(k) {
            let info = model::alias_info(source, k);
            let i = list.index_of(info);
            assert(list[i] == info);
            assert((list[i].collection_id, list[i].name) == k);
            assert(after.aliases.dom().contains(k));
        }
        if after.aliases.contains_key(k) {
            assert(source.collections.contains_key(k.0)) by {
                assert(after.collections.contains_key(k.0));
            }
        }
    }
    let left = transfer::published(after);
    let right = transfer::published(source);
    assert forall|p: (Seq<char>, Seq<char>)|
        #![trigger left.dom().contains(p)]
        #![trigger right.dom().contains(p)]
        left.dom().contains(p) == right.dom().contains(p) && (left.dom().contains(p) ==> left[p]
            == right[p]) by {
        if left.contains_key(p) {
            let id = model::id_of_name(after, p.0).unwrap();
            assert(model::has_name(after, id, p.0));
            assert(after.aliases.contains_key((id, p.1)));
            assert(source.collections.contains_key(id));
            rows::lemma_id_of_name(source, id);
        }
        if right.contains_key(p) {
            let id = model::id_of_name(source, p.0).unwrap();
            assert(model::has_name(source, id, p.0));
            assert(after.aliases.contains_key((id, p.1)));
            assert(after.collections.contains_key(id));
            rows::lemma_id_of_name(after, id);
        }
    }
    assert(left.dom() =~= right.dom());
    assert(left =~= right);
    assert(model::dirty_ids(after) =~= Set::<Seq<char>>::empty());
    assert(model::dirty_keys(after) =~= Set::<AliasKey>::empty());
}

} // verus!
