//! Lists of aliases and collections, and counts of them.

use vstd::prelude::*;

use crate::effects;
use crate::error::AliazError;
use crate::laws;
use crate::model;
use crate::model::{AliasInfo, AliasKey, CollectionInfo, StoreState};
use crate::names::{DEFAULT_COLLECTION_ID, DEFAULT_COLLECTION_NAME};
use crate::rows;
use crate::store::{Alias, Collection, Store};
use crate::table;
use crate::text;
use crate::text::{comes_before, same_text};

verus! {

// ---------------------------------------------------------------------------
// Keeping a list in order
// ---------------------------------------------------------------------------
spec fn strict<T>(before: spec_fn(T, T) -> bool) -> bool {
    &&& forall|a: T| !#[trigger] before(a, a)
    &&& forall|a: T, b: T, c: T| #[trigger]
        before(a, b) && #[trigger] before(b, c) ==> before(a, c)
}

proof fn lemma_insert_in_order<T>(list: Seq<T>, before: spec_fn(T, T) -> bool, p: int, x: T)
    requires
        strict(before),
        model::in_order(list, before),
        0 <= p <= list.len(),
        forall|i: int| 0 <= i < p ==> !before(x, #[trigger] list[i]),
        p < list.len() ==> before(x, list[p]),
    ensures
        model::in_order(list.insert(p, x), before),
{
    let more = list.insert(p, x);
    assert forall|i: int, j: int| 0 <= i < j < more.len() implies !before(
        #[trigger] more[j],
        #[trigger] more[i],
    ) by {
        let old_i = if i < p {
            i
        } else {
            i - 1
        };
        let old_j = if j < p {
            j
        } else {
            j - 1
        };
        if i != p && j != p {
            assert(more[i] == list[old_i] && more[j] == list[old_j]);
            assert(!before(list[old_j], list[old_i]));
        } else if j == p {
            assert(more[i] == list[i]);
        } else {
            assert(more[j] == list[j - 1]);
            if before(list[j - 1], x) {
                assert(before(x, list[p]));
                assert(before(list[j - 1], list[p]));
                if j - 1 > p {
                    assert(!before(list[j - 1], list[p]));
                } else {
                    assert(!before(x, x));
                }
            }
        }
    }
}

proof fn lemma_alias_orders()
    ensures
        strict(model::by_name()),
        strict(model::by_collection()),
{
    let by_name = model::by_name();
    assert forall|a: AliasInfo| !#[trigger] by_name(a, a) by {
        text::lemma_text_lt_irreflexive(a.name);
    }
    assert forall|a: AliasInfo, b: AliasInfo, c: AliasInfo| #[trigger]
        by_name(a, b) && #[trigger] by_name(b, c) implies by_name(a, c) by {
        text::lemma_text_lt_transitive(a.name, b.name, c.name);
    }
    let by_collection = model::by_collection();
    assert forall|a: AliasInfo| !#[trigger] by_collection(a, a) by {
        text::lemma_text_lt_irreflexive(a.name);
        text::lemma_text_lt_irreflexive(a.collection_name);
    }
    assert forall|a: AliasInfo, b: AliasInfo, c: AliasInfo| #[trigger]
        by_collection(a, b) && #[trigger] by_collection(b, c) implies by_collection(a, c) by {
        if text::text_lt(a.collection_name, b.collection_name) && text::text_lt(
            b.collection_name,
            c.collection_name,
        ) {
            text::lemma_text_lt_transitive(a.collection_name, b.collection_name, c.collection_name);
        }
        if text::text_lt(a.name, b.name) && text::text_lt(b.name, c.name) {
            text::lemma_text_lt_transitive(a.name, b.name, c.name);
        }
    }
}

proof fn lemma_collection_orders()
    ensures
        strict(model::by_rank()),
        strict(model::by_collection_name()),
{
    let by_rank = model::by_rank();
    assert forall|a: CollectionInfo| !#[trigger] by_rank(a, a) by {
        text::lemma_text_lt_irreflexive(a.name);
    }
    assert forall|a: CollectionInfo, b: CollectionInfo, c: CollectionInfo| #[trigger]
        by_rank(a, b) && #[trigger] by_rank(b, c) implies by_rank(a, c) by {
        if text::text_lt(a.name, b.name) && text::text_lt(b.name, c.name) {
            text::lemma_text_lt_transitive(a.name, b.name, c.name);
        }
    }
    let by_name = model::by_collection_name();
    assert forall|a: CollectionInfo| !#[trigger] by_name(a, a) by {
        text::lemma_text_lt_irreflexive(a.name);
    }
    assert forall|a: CollectionInfo, b: CollectionInfo, c: CollectionInfo| #[trigger]
        by_name(a, b) && #[trigger] by_name(b, c) implies by_name(a, c) by {
        text::lemma_text_lt_transitive(a.name, b.name, c.name);
    }
}

/// The order of a list of aliases.
spec fn alias_order(scoped: bool) -> spec_fn(AliasInfo, AliasInfo) -> bool {
    if scoped {
        model::by_collection()
    } else {
        model::by_name()
    }
}

/// The order of a list of collections.
spec fn collection_order(ranked: bool) -> spec_fn(CollectionInfo, CollectionInfo) -> bool {
    if ranked {
        model::by_rank()
    } else {
        model::by_collection_name()
    }
}

fn alias_comes_before(a: &Alias, b: &Alias, scoped: bool) -> (r: bool)
    ensures
        r == alias_order(scoped)(a@, b@),
{
    if scoped && !same_text(a.collection_name.as_str(), b.collection_name.as_str()) {
        comes_before(a.collection_name.as_str(), b.collection_name.as_str())
    } else {
        proof {
            text::lemma_text_lt_irreflexive(a.collection_name@);
        }
        comes_before(a.name.as_str(), b.name.as_str())
    }
}

fn collection_comes_before(a: &Collection, b: &Collection, ranked: bool) -> (r: bool)
    ensures
        r == collection_order(ranked)(a@, b@),
{
    if ranked {
        let a_shared = same_text(a.name.as_str(), DEFAULT_COLLECTION_NAME);
        let b_shared = same_text(b.name.as_str(), DEFAULT_COLLECTION_NAME);
        if a_shared != b_shared {
            return a_shared;
        }
        if a.active != b.active {
            return a.active;
        }
        if a.priority != b.priority {
            return a.priority < b.priority;
        }
    }
    comes_before(a.name.as_str(), b.name.as_str())
}

/// Puts an alias into a list behind all that do not come after it.
fn insert_alias(list: &mut Vec<Alias>, alias: Alias, scoped: bool) -> (p: usize)
    requires
        model::in_order(rows::recs(old(list)@), alias_order(scoped)),
    ensures
        p <= old(list)@.len(),
        rows::recs(final(list)@) == rows::recs(old(list)@).insert(p as int, alias@),
        model::in_order(rows::recs(final(list)@), alias_order(scoped)),
{
    let ghost all = rows::recs(list@);
    let mut p: usize = 0;
    while p < list.len() && !alias_comes_before(&alias, &list[p], scoped)
        invariant
            p <= list@.len(),
            all == rows::recs(list@),
            forall|i: int| 0 <= i < p ==> !alias_order(scoped)(alias@, #[trigger] all[i]),
        decreases list@.len() - p,
    {
        assert(all[p as int] == list@[p as int]@);
        p += 1;
    }
    proof {
        lemma_alias_orders();
        if p < all.len() {
            assert(all[p as int] == list@[p as int]@);
        }
        lemma_insert_in_order(all, alias_order(scoped), p as int, alias@);
    }
    let ghost added = alias@;
    list.insert(p, alias);
    assert(rows::recs(list@) =~= all.insert(p as int, added));
    p
}

/// Puts a collection into a list behind all that do not come after it.
fn insert_collection(list: &mut Vec<Collection>, collection: Collection, ranked: bool) -> (p: usize)
    requires
        model::in_order(rows::recs(old(list)@), collection_order(ranked)),
    ensures
        p <= old(list)@.len(),
        rows::recs(final(list)@) == rows::recs(old(list)@).insert(p as int, collection@),
        model::in_order(rows::recs(final(list)@), collection_order(ranked)),
{
    let ghost all = rows::recs(list@);
    let mut p: usize = 0;
    while p < list.len() && !collection_comes_before(&collection, &list[p], ranked)
        invariant
            p <= list@.len(),
            all == rows::recs(list@),
            forall|i: int| 0 <= i < p ==> !collection_order(ranked)(
                collection@,
                #[trigger] all[i],
            ),
        decreases list@.len() - p,
    {
        assert(all[p as int] == list@[p as int]@);
        p += 1;
    }
    proof {
        lemma_collection_orders();
        if p < all.len() {
            assert(all[p as int] == list@[p as int]@);
        }
        lemma_insert_in_order(all, collection_order(ranked), p as int, collection@);
    }
    let ghost added = collection@;
    list.insert(p, collection);
    assert(rows::recs(list@) =~= all.insert(p as int, added));
    p
}

proof fn lemma_show_alias(
    list: Seq<AliasInfo>,
    st: StoreState,
    some: Set<AliasKey>,
    k: AliasKey,
    p: int,
)
    requires
        model::keys_agree(st),
        model::shows_aliases(list, st, some),
        st.aliases.contains_key(k),
        !some.contains(k),
        0 <= p <= list.len(),
    ensures
        model::shows_aliases(list.insert(p, model::alias_info(st, k)), st, some.insert(k)),
{
    let info = model::alias_info(st, k);
    let more = list.insert(p, info);
    assert(info.collection_id == k.0 && info.name == k.1);
    assert forall|i: int| 0 <= i < more.len() implies some.insert(k).contains(
        ((#[trigger] more[i]).collection_id, more[i].name),
    ) && more[i] == model::alias_info(st, (more[i].collection_id, more[i].name)) by {
        let old_i = if i < p {
            i
        } else {
            i - 1
        };
        assert(i == p || more[i] == list[old_i]);
    }
    assert forall|i: int, j: int| 0 <= i < j < more.len() implies more[i] != more[j] by {
        let old_i = if i < p {
            i
        } else {
            i - 1
        };
        let old_j = if j < p {
            j
        } else {
            j - 1
        };
        assert(i == p || more[i] == list[old_i]);
        assert(j == p || more[j] == list[old_j]);
    }
    assert forall|key: AliasKey| #[trigger] some.insert(k).contains(key) implies more.contains(
        model::alias_info(st, key),
    ) by {
        if key == k {
            assert(more[p] == info);
        } else {
            assert(some.contains(key));
            assert(list.contains(model::alias_info(st, key)));
            let i = list.index_of(model::alias_info(st, key));
            let new_i = if i < p {
                i
            } else {
                i + 1
            };
            assert(more[new_i] == list[i]);
        }
    }
}

proof fn lemma_show_collection(
    list: Seq<CollectionInfo>,
    st: StoreState,
    some: Set<Seq<char>>,
    k: Seq<char>,
    p: int,
)
    requires
        model::keys_agree(st),
        model::shows_collections(list, st, some),
        st.collections.contains_key(k),
        !some.contains(k),
        0 <= p <= list.len(),
    ensures
        model::shows_collections(list.insert(p, model::collection_info(st, k)), st, some.insert(k)),
{
    let info = model::collection_info(st, k);
    let more = list.insert(p, info);
    assert(info.id == k);
    assert forall|i: int| 0 <= i < more.len() implies some.insert(k).contains(
        (#[trigger] more[i]).id,
    ) && more[i] == model::collection_info(st, more[i].id) by {
        let old_i = if i < p {
            i
        } else {
            i - 1
        };
        assert(i == p || more[i] == list[old_i]);
    }
    assert forall|i: int, j: int| 0 <= i < j < more.len() implies more[i] != more[j] by {
        let old_i = if i < p {
            i
        } else {
            i - 1
        };
        let old_j = if j < p {
            j
        } else {
            j - 1
        };
        assert(i == p || more[i] == list[old_i]);
        assert(j == p || more[j] == list[old_j]);
    }
    assert forall|key: Seq<char>| #[trigger] some.insert(k).contains(key) implies more.contains(
        model::collection_info(st, key),
    ) by {
        if key == k {
            assert(more[p] == info);
        } else {
            assert(some.contains(key));
            assert(list.contains(model::collection_info(st, key)));
            let i = list.index_of(model::collection_info(st, key));
            let new_i = if i < p {
                i
            } else {
                i + 1
            };
            assert(more[new_i] == list[i]);
        }
    }
}

impl Store {
    /// The chosen aliases in order.
    fn pick_aliases(
        &self,
        chosen: &Vec<bool>,
        scoped: bool,
        Ghost(keys): Ghost<Set<AliasKey>>,
    ) -> (r: Vec<Alias>)
        requires
            self.wf(),
            chosen@.len() == self.tables.aliases@.len(),
            forall|i: int|
                0 <= i < chosen@.len() ==> #[trigger] chosen@[i] == keys.contains(
                    model::alias_key()(rows::recs(self.tables.aliases@)[i]),
                ),
            forall|k: AliasKey| #[trigger]
                keys.contains(k) ==> self@.aliases.contains_key(k)
                    && self@.collections.contains_key(k.0),
        ensures
            model::shows_aliases(rows::recs(r@), self@, keys),
            model::in_order(rows::recs(r@), alias_order(scoped)),
    {
        let ghost all = rows::recs(self.tables.aliases@);
        let ghost key = model::alias_key();
        let ghost mut some: Set<AliasKey> = Set::empty();
        let mut out: Vec<Alias> = Vec::new();
        for i in 0..chosen.len()
            invariant
                self.wf(),
                all == rows::recs(self.tables.aliases@),
                key == model::alias_key(),
                chosen@.len() == all.len() == self.tables.aliases@.len(),
                forall|j: int|
                    0 <= j < chosen@.len() ==> #[trigger] chosen@[j] == keys.contains(key(all[j])),
                forall|k: AliasKey| #[trigger]
                    keys.contains(k) ==> self@.collections.contains_key(k.0),
                forall|k: AliasKey| #[trigger]
                    some.contains(k) ==> keys.contains(k) && table::has_key(
                        all.take(i as int),
                        key,
                        k,
                    ),
                forall|j: int|
                    0 <= j < i && keys.contains(key(#[trigger] all[j])) ==> some.contains(
                        key(all[j]),
                    ),
                model::shows_aliases(rows::recs(out@), self@, some),
                model::in_order(rows::recs(out@), alias_order(scoped)),
        {
            let ghost k = key(all[i as int]);
            let ghost before = all.take(i as int);
            let ghost after = all.take(i + 1);
            proof {
                assert(all[i as int] == self.tables.aliases@[i as int]@);
                table::lemma_row(all, key, i as int);
                assert(after[i as int] == all[i as int]);
                assert forall|x: AliasKey| table::has_key(before, key, x) implies table::has_key(
                    after,
                    key,
                    x,
                ) by {
                    let j = choose|j: int| 0 <= j < before.len() && key(#[trigger] before[j]) == x;
                    assert(after[j] == before[j]);
                }
                if some.contains(k) {
                    let j = choose|j: int| 0 <= j < before.len() && key(#[trigger] before[j]) == k;
                    assert(before[j] == all[j]);
                    assert(key(all[j]) != key(all[i as int]));
                }
            }
            if chosen[i] {
                assert(keys.contains(k));
                let alias = self.alias_from_row(i);
                let ghost shown = rows::recs(out@);
                let p = insert_alias(&mut out, alias, scoped);
                proof {
                    lemma_show_alias(shown, self@, some, k, p as int);
                    some = some.insert(k);
                }
            }
        }
        proof {
            assert forall|k: AliasKey| keys.contains(k) implies some.contains(k) by {
                let j = table::lemma_key(all, key, k);
                assert(keys.contains(key(all[j])));
            }
            assert(some =~= keys);
        }
        out
    }

    /// The chosen collections in order.
    fn pick_collections(
        &self,
        chosen: &Vec<bool>,
        ranked: bool,
        Ghost(ids): Ghost<Set<Seq<char>>>,
    ) -> (r: Vec<Collection>)
        requires
            self.wf(),
            chosen@.len() == self.tables.collections@.len(),
            forall|i: int|
                0 <= i < chosen@.len() ==> #[trigger] chosen@[i] == ids.contains(
                    model::collection_key()(rows::recs(self.tables.collections@)[i]),
                ),
            forall|k: Seq<char>| #[trigger] ids.contains(k) ==> self@.collections.contains_key(k),
        ensures
            model::shows_collections(rows::recs(r@), self@, ids),
            model::in_order(rows::recs(r@), collection_order(ranked)),
    {
        let ghost all = rows::recs(self.tables.collections@);
        let ghost key = model::collection_key();
        let ghost mut some: Set<Seq<char>> = Set::empty();
        let mut out: Vec<Collection> = Vec::new();
        for i in 0..chosen.len()
            invariant
                self.wf(),
                all == rows::recs(self.tables.collections@),
                key == model::collection_key(),
                chosen@.len() == all.len() == self.tables.collections@.len(),
                forall|j: int|
                    0 <= j < chosen@.len() ==> #[trigger] chosen@[j] == ids.contains(key(all[j])),
                forall|k: Seq<char>| #[trigger]
                    some.contains(k) ==> ids.contains(k) && table::has_key(
                        all.take(i as int),
                        key,
                        k,
                    ),
                forall|j: int|
                    0 <= j < i && ids.contains(key(#[trigger] all[j])) ==> some.contains(
                        key(all[j]),
                    ),
                model::shows_collections(rows::recs(out@), self@, some),
                model::in_order(rows::recs(out@), collection_order(ranked)),
        {
            let ghost k = key(all[i as int]);
            let ghost before = all.take(i as int);
            let ghost after = all.take(i + 1);
            proof {
                assert(all[i as int] == self.tables.collections@[i as int]@);
                table::lemma_row(all, key, i as int);
                assert(after[i as int] == all[i as int]);
                assert forall|x: Seq<char>| table::has_key(before, key, x) implies table::has_key(
                    after,
                    key,
                    x,
                ) by {
                    let j = choose|j: int| 0 <= j < before.len() && key(#[trigger] before[j]) == x;
                    assert(after[j] == before[j]);
                }
                if some.contains(k) {
                    let j = choose|j: int| 0 <= j < before.len() && key(#[trigger] before[j]) == k;
                    assert(before[j] == all[j]);
                    assert(key(all[j]) != key(all[i as int]));
                }
            }
            if chosen[i] {
                let collection = self.collection_from_row(i);
                let ghost shown = rows::recs(out@);
                let p = insert_collection(&mut out, collection, ranked);
                proof {
                    lemma_show_collection(shown, self@, some, k, p as int);
                    some = some.insert(k);
                }
            }
        }
        proof {
            assert forall|k: Seq<char>| ids.contains(k) implies some.contains(k) by {
                let j = table::lemma_key(all, key, k);
                assert(ids.contains(key(all[j])));
            }
            assert(some =~= ids);
        }
        out
    }
}

// ---------------------------------------------------------------------------
// Lists
// ---------------------------------------------------------------------------
impl Store {
    /// The key of a row, which is in the table of aliases.
    proof fn lemma_alias_row(&self, i: int)
        requires
            self.wf(),
            0 <= i < self.tables.aliases@.len(),
        ensures
            rows::recs(self.tables.aliases@)[i] == self.tables.aliases@[i]@,
            self@.aliases.contains_key(
                (self.tables.aliases@[i].collection_id@, self.tables.aliases@[i].name@),
            ),
            self@.aliases[(
                self.tables.aliases@[i].collection_id@,
                self.tables.aliases@[i].name@,
            )] == self.tables.aliases@[i]@,
    {
        let all = rows::recs(self.tables.aliases@);
        let key = model::alias_key();
        table::lemma_row(all, key, i);
        assert(key(all[i]) == (self.tables.aliases@[i].collection_id@, self.tables.aliases@[i].name@));
    }

    /// The priority with which the alias in a row is in force.
    fn row_priority(&self, i: usize) -> (r: Option<i64>)
        requires
            self.wf(),
            i < self.tables.aliases@.len(),
        ensures
            ({
                let row = self.tables.aliases@[i as int]@;
                let k = (row.collection_id, row.name);
                match r {
                    Some(p) => model::in_force(self@, k) && p == self@.active[k.0].priority,
                    None => !model::in_force(self@, k),
                }
            }),
    {
        proof {
            self.lemma_alias_row(i as int);
        }
        if !self.row_is_live(i) {
            return None;
        }
        match self.tables.active_row(self.tables.aliases[i].collection_id.as_str()) {
            Some(k) => Some(self.tables.active[k].priority),
            None => None,
        }
    }

    /// The aliases that a shell gets, by name: those that are in force, except where one of the
    /// same name is in force with a higher priority.
    pub fn list_effective(&self) -> (r: Vec<Alias>)
        requires
            self.wf(),
        ensures
            model::is_effective_list(rows::recs(r@), self@),
    {
        let ghost all = rows::recs(self.tables.aliases@);
        let ghost key = model::alias_key();
        let count: usize = self.tables.aliases.len();
        let mut priorities: Vec<Option<i64>> = Vec::new();
        for i in 0..count
            invariant
                self.wf(),
                count == self.tables.aliases@.len(),
                all == rows::recs(self.tables.aliases@),
                key == model::alias_key(),
                priorities@.len() == i,
                forall|j: int|
                    0 <= j < i ==> match #[trigger] priorities@[j] {
                        Some(p) => model::in_force(self@, key(all[j])) && p == self@.active[key(
                            all[j],
                        ).0].priority,
                        None => !model::in_force(self@, key(all[j])),
                    },
        {
            proof {
                self.lemma_alias_row(i as int);
            }
            priorities.push(self.row_priority(i));
        }
        let mut chosen: Vec<bool> = Vec::new();
        for i in 0..count
            invariant
                self.wf(),
                count == self.tables.aliases@.len() == all.len(),
                all == rows::recs(self.tables.aliases@),
                key == model::alias_key(),
                priorities@.len() == count,
                forall|j: int|
                    0 <= j < count ==> match #[trigger] priorities@[j] {
                        Some(p) => model::in_force(self@, key(all[j])) && p == self@.active[key(
                            all[j],
                        ).0].priority,
                        None => !model::in_force(self@, key(all[j])),
                    },
                chosen@.len() == i,
                forall|j: int|
                    0 <= j < i ==> #[trigger] chosen@[j] == model::effective(self@, key(all[j])),
        {
            let ghost k = key(all[i as int]);
            proof {
                self.lemma_alias_row(i as int);
            }
            match priorities[i] {
                None => {
                    chosen.push(false);
                },
                Some(priority) => {
                    let mut shadowed = false;
                    for j in 0..count
                        invariant
                            self.wf(),
                            i < count,
                            count == self.tables.aliases@.len() == all.len(),
                            all == rows::recs(self.tables.aliases@),
                            key == model::alias_key(),
                            k == key(all[i as int]),
                            k.1 == self.tables.aliases@[i as int].name@,
                            model::in_force(self@, k),
                            priority == self@.active[k.0].priority,
                            priorities@.len() == count,
                            forall|m: int|
                                0 <= m < count ==> match #[trigger] priorities@[m] {
                                    Some(p) => model::in_force(self@, key(all[m])) && p
                                        == self@.active[key(all[m]).0].priority,
                                    None => !model::in_force(self@, key(all[m])),
                                },
                            shadowed ==> exists|other: AliasKey| #[trigger]
                                model::in_force(self@, other) && other.1 == k.1
                                    && self@.active[other.0].priority > priority,
                            !shadowed ==> forall|m: int|
                                0 <= m < j && (#[trigger] all[m]).name == k.1 && model::in_force(
                                    self@,
                                    key(all[m]),
                                ) ==> self@.active[all[m].collection_id].priority <= priority,
                    {
                        proof {
                            self.lemma_alias_row(j as int);
                        }
                        if let Some(other) = priorities[j] {
                            if other > priority && same_text(
                                self.tables.aliases[j].name.as_str(),
                                self.tables.aliases[i].name.as_str(),
                            ) {
                                assert(model::in_force(self@, key(all[j as int])));
                                shadowed = true;
                            }
                        }
                    }
                    proof {
                        if !shadowed {
                            assert forall|other: AliasKey| #[trigger]
                                model::in_force(self@, other) && other.1 == k.1 implies
                                self@.active[other.0].priority <= priority by {
                                let m = table::lemma_key(all, key, other);
                                assert(all[m].name == k.1);
                            }
                        }
                    }
                    chosen.push(!shadowed);
                },
            }
        }
        self.pick_aliases(&chosen, false, Ghost(model::effective_keys(self@)))
    }

    /// The aliases that are not deleted, of one collection by name, or of all collections that are
    /// not deleted by collection and name.
    pub fn list_all(&self, collection_name: Option<&str>) -> (r: Result<Vec<Alias>, AliazError>)
        requires
            self.wf(),
        ensures
            match model::listed_keys(self@, text::seen_option(collection_name)) {
                Ok(_) => r matches Ok(list) && model::is_alias_list(
                    rows::recs(list@),
                    self@,
                    text::seen_option(collection_name),
                ),
                Err(f) => r matches Err(e) && e@ == f,
            },
    {
        let wanted: Option<usize> = match collection_name {
            Some(name) => match self.live_row(name) {
                Ok(k) => Some(k),
                Err(e) => {
                    return Err(e);
                },
            },
            None => None,
        };
        let ghost keys = model::listed_keys(self@, text::seen_option(collection_name))->Ok_0;
        let ghost all = rows::recs(self.tables.aliases@);
        let ghost key = model::alias_key();
        let count: usize = self.tables.aliases.len();
        let mut chosen: Vec<bool> = Vec::new();
        for i in 0..count
            invariant
                self.wf(),
                count == self.tables.aliases@.len() == all.len(),
                all == rows::recs(self.tables.aliases@),
                key == model::alias_key(),
                chosen@.len() == i,
                match wanted {
                    Some(k) => k < self.tables.collections@.len() && keys == model::live_keys_in(
                        self@,
                        self.tables.collections@[k as int].id@,
                    ),
                    None => keys == model::live_keys(self@),
                },
                forall|j: int|
                    0 <= j < i ==> #[trigger] chosen@[j] == keys.contains(key(all[j])),
        {
            proof {
                self.lemma_alias_row(i as int);
            }
            let live = self.row_is_live(i);
            let take = match wanted {
                Some(k) => live && same_text(
                    self.tables.aliases[i].collection_id.as_str(),
                    self.tables.collections[k].id.as_str(),
                ),
                None => live,
            };
            chosen.push(take);
        }
        Ok(self.pick_aliases(&chosen, collection_name.is_none(), Ghost(keys)))
    }

    /// The aliases whose last change is still to be sent, by collection and name.
    pub fn pending_aliases(&self) -> (r: Vec<Alias>)
        requires
            self.wf(),
        ensures
            model::is_pending_alias_list(rows::recs(r@), self@),
    {
        let ghost keys = model::pending_keys(self@);
        let ghost all = rows::recs(self.tables.aliases@);
        let ghost key = model::alias_key();
        let count: usize = self.tables.aliases.len();
        let mut chosen: Vec<bool> = Vec::new();
        for i in 0..count
            invariant
                self.wf(),
                count == self.tables.aliases@.len() == all.len(),
                all == rows::recs(self.tables.aliases@),
                key == model::alias_key(),
                keys == model::pending_keys(self@),
                chosen@.len() == i,
                forall|j: int|
                    0 <= j < i ==> #[trigger] chosen@[j] == keys.contains(key(all[j])),
        {
            proof {
                self.lemma_alias_row(i as int);
            }
            let row = &self.tables.aliases[i];
            let there = self.tables.collection_row(row.collection_id.as_str()).is_some();
            chosen.push(row.dirty && there);
        }
        self.pick_aliases(&chosen, true, Ghost(keys))
    }

    /// The collections that are not deleted: the shared one, the active ones by priority, then the
    /// others by name.
    pub fn collections(&self) -> (r: Vec<Collection>)
        requires
            self.wf(),
        ensures
            model::is_collection_list(rows::recs(r@), self@),
    {
        let ghost ids = model::live_ids(self@);
        let ghost all = rows::recs(self.tables.collections@);
        let ghost key = model::collection_key();
        let count: usize = self.tables.collections.len();
        let mut chosen: Vec<bool> = Vec::new();
        for i in 0..count
            invariant
                self.wf(),
                count == self.tables.collections@.len() == all.len(),
                all == rows::recs(self.tables.collections@),
                key == model::collection_key(),
                ids == model::live_ids(self@),
                chosen@.len() == i,
                forall|j: int|
                    0 <= j < i ==> #[trigger] chosen@[j] == ids.contains(key(all[j])),
        {
            proof {
                table::lemma_row(all, key, i as int);
                assert(all[i as int] == self.tables.collections@[i as int]@);
            }
            chosen.push(!self.tables.collections[i].deleted);
        }
        self.pick_collections(&chosen, true, Ghost(ids))
    }

    /// The collections whose last change is still to be sent, by name.
    pub fn pending_collections(&self) -> (r: Vec<Collection>)
        requires
            self.wf(),
        ensures
            model::is_pending_collection_list(rows::recs(r@), self@),
    {
        let ghost ids = model::dirty_ids(self@);
        let ghost all = rows::recs(self.tables.collections@);
        let ghost key = model::collection_key();
        let count: usize = self.tables.collections.len();
        let mut chosen: Vec<bool> = Vec::new();
        for i in 0..count
            invariant
                self.wf(),
                count == self.tables.collections@.len() == all.len(),
                all == rows::recs(self.tables.collections@),
                key == model::collection_key(),
                ids == model::dirty_ids(self@),
                chosen@.len() == i,
                forall|j: int|
                    0 <= j < i ==> #[trigger] chosen@[j] == ids.contains(key(all[j])),
        {
            proof {
                table::lemma_row(all, key, i as int);
                assert(all[i as int] == self.tables.collections@[i as int]@);
            }
            chosen.push(self.tables.collections[i].dirty);
        }
        self.pick_collections(&chosen, false, Ghost(ids))
    }
}

// ---------------------------------------------------------------------------
// Counts
// ---------------------------------------------------------------------------
/// Counts of what is stored.
#[derive(Debug)]
pub struct StoreStatus {
    /// How many aliases a shell gets.
    pub aliases: i64,
    /// How many collections are not deleted.
    pub collections: i64,
    /// The names of the active collections.
    pub active_collections: Vec<String>,
    /// How many collections and aliases are marked as changed.
    pub pending: i64,
}

/// The counts are those of what is stored. A count that does not fit wraps around.
pub open spec fn is_status(st: StoreState, status: StoreStatus) -> bool {
    &&& status.aliases == model::effective_keys(st).len() as i64
    &&& status.collections == model::live_ids(st).len() as i64
    &&& exists|list: Seq<CollectionInfo>| #[trigger]
        model::is_collection_list(list, st) && text::texts(status.active_collections@)
            == model::active_names(list)
    &&& status.pending == (model::dirty_ids(st).len() + model::dirty_keys(st).len()) as i64
}

/// The counts are the lengths of the lists: of what a shell gets, of the collections, and of what is
/// marked as changed. The active collections are named in the order of their list.
pub proof fn law_status(
    st: StoreState,
    status: StoreStatus,
    aliases: Seq<AliasInfo>,
    collections: Seq<CollectionInfo>,
    pending: Seq<CollectionInfo>,
)
    requires
        model::consistent(st),
        is_status(st, status),
        model::is_effective_list(aliases, st),
        model::is_collection_list(collections, st),
        model::is_pending_collection_list(pending, st),
        aliases.len() <= i64::MAX,
        collections.len() <= i64::MAX,
        pending.len() + st.aliases.dom().filter(|k: AliasKey| st.aliases[k].dirty).len()
            <= i64::MAX,
    ensures
        status.aliases == aliases.len(),
        status.collections == collections.len(),
        status.pending == pending.len() + st.aliases.dom().filter(
            |k: AliasKey| st.aliases[k].dirty,
        ).len(),
        text::texts(status.active_collections@) == collections.filter(
            |c: CollectionInfo| c.active,
        ).map_values(|c: CollectionInfo| c.name),
{
    effects::law_counts(st, aliases, collections, pending);
    let list = choose|list: Seq<CollectionInfo>| #[trigger]
        model::is_collection_list(list, st) && text::texts(status.active_collections@)
            == model::active_names(list);
    law_collection_list_is_determined(list, collections, st);
    effects::law_active_names(collections);
}

/// A list has as many elements as there are keys.
pub proof fn lemma_aliases_shown(list: Seq<AliasInfo>, st: StoreState, keys: Set<AliasKey>)
    requires
        model::shows_aliases(list, st, keys),
        model::keys_agree(st),
        forall|k: AliasKey| #[trigger] keys.contains(k) ==> st.aliases.contains_key(k),
    ensures
        keys.finite(),
        keys.len() == list.len(),
{
    let ks = list.map_values(|a: AliasInfo| (a.collection_id, a.name));
    assert forall|i: int, j: int| 0 <= i < j < ks.len() implies ks[i] != ks[j] by {
        assert(list[i] != list[j]);
        assert(ks[i] == (list[i].collection_id, list[i].name));
        assert(ks[j] == (list[j].collection_id, list[j].name));
    }
    assert forall|k: AliasKey| ks.to_set().contains(k) == keys.contains(k) by {
        if ks.to_set().contains(k) {
            let i = ks.index_of(k);
            assert(ks[i] == (list[i].collection_id, list[i].name));
        }
        if keys.contains(k) {
            let info = model::alias_info(st, k);
            let i = list.index_of(info);
            assert(list[i] == info);
            assert(ks[i] == k);
        }
    }
    assert(ks.to_set() =~= keys);
    ks.unique_seq_to_set();
    vstd::seq_lib::seq_to_set_is_finite(ks);
}

/// A list has as many elements as there are ids.
pub proof fn lemma_collections_shown(list: Seq<CollectionInfo>, st: StoreState, ids: Set<Seq<char>>)
    requires
        model::shows_collections(list, st, ids),
        model::keys_agree(st),
        forall|id: Seq<char>| #[trigger] ids.contains(id) ==> st.collections.contains_key(id),
    ensures
        ids.finite(),
        ids.len() == list.len(),
{
    let ks = list.map_values(|c: CollectionInfo| c.id);
    assert forall|i: int, j: int| 0 <= i < j < ks.len() implies ks[i] != ks[j] by {
        assert(list[i] != list[j]);
    }
    assert forall|id: Seq<char>| ks.to_set().contains(id) == ids.contains(id) by {
        if ks.to_set().contains(id) {
            let i = ks.index_of(id);
            assert(ks[i] == list[i].id);
        }
        if ids.contains(id) {
            let info = model::collection_info(st, id);
            let i = list.index_of(info);
            assert(list[i] == info);
            assert(ks[i] == id);
        }
    }
    assert(ks.to_set() =~= ids);
    ks.unique_seq_to_set();
    vstd::seq_lib::seq_to_set_is_finite(ks);
}

/// The names of the active ones among the collections.
pub fn active_collection_names(list: &Vec<Collection>) -> (r: Vec<String>)
    ensures
        text::texts(r@) == model::active_names(rows::recs(list@)),
{
    let ghost all = rows::recs(list@);
    let mut names: Vec<String> = Vec::new();
    assert(text::texts(names@) =~= Seq::<Seq<char>>::empty());
    assert(all.take(0) =~= Seq::<CollectionInfo>::empty());
    for i in 0..list.len()
        invariant
            all == rows::recs(list@),
            text::texts(names@) == model::active_names(all.take(i as int)),
    {
        assert(all.take(i + 1).drop_last() =~= all.take(i as int));
        assert(all.take(i + 1).last() == list@[i as int]@);
        if list[i].active {
            let ghost before = text::texts(names@);
            names.push(list[i].name.clone());
            assert(text::texts(names@) =~= before.push(list@[i as int].name@));
        }
    }
    assert(all.take(all.len() as int) =~= all);
    names
}

impl Store {
    /// How many aliases are marked as changed.
    fn count_dirty_aliases(&self) -> (r: usize)
        requires
            self.wf(),
        ensures
            model::dirty_keys(self@).finite(),
            r == model::dirty_keys(self@).len(),
    {
        let ghost keys = model::dirty_keys(self@);
        let ghost all = rows::recs(self.tables.aliases@);
        let ghost key = model::alias_key();
        let ghost mut some: Set<AliasKey> = Set::empty();
        let mut count: usize = 0;
        for i in 0..self.tables.aliases.len()
            invariant
                self.wf(),
                all == rows::recs(self.tables.aliases@),
                key == model::alias_key(),
                keys == model::dirty_keys(self@),
                some.finite(),
                count == some.len(),
                count <= i,
                forall|k: AliasKey| #[trigger]
                    some.contains(k) ==> keys.contains(k) && exists|j: int|
                        0 <= j < i && key(#[trigger] all[j]) == k,
                forall|j: int|
                    0 <= j < i && keys.contains(key(#[trigger] all[j])) ==> some.contains(
                        key(all[j]),
                    ),
        {
            proof {
                self.lemma_alias_row(i as int);
            }
            let ghost k = key(all[i as int]);
            assert(all[i as int] == self.tables.aliases@[i as int]@);
            if self.tables.aliases[i].dirty {
                proof {
                    if some.contains(k) {
                        let j = choose|j: int| 0 <= j < i && key(#[trigger] all[j]) == k;
                        assert(key(all[j]) != key(all[i as int]));
                    }
                    some = some.insert(k);
                }
                count = count + 1;
            }
        }
        proof {
            assert forall|k: AliasKey| keys.contains(k) implies some.contains(k) by {
                let j = table::lemma_key(all, key, k);
                assert(keys.contains(key(all[j])));
            }
            assert(some =~= keys);
        }
        count
    }

    /// Counts of what is stored. A count that does not fit wraps around.
    pub fn status(&self) -> (r: StoreStatus)
        requires
            self.wf(),
        ensures
            is_status(self@, r),
    {
        let effective = self.list_effective();
        let collections = self.collections();
        let dirty_collections = self.pending_collections();
        let dirty_aliases: usize = self.count_dirty_aliases();
        proof {
            lemma_aliases_shown(rows::recs(effective@), self@, model::effective_keys(self@));
            lemma_collections_shown(rows::recs(collections@), self@, model::live_ids(self@));
            lemma_collections_shown(rows::recs(dirty_collections@), self@, model::dirty_ids(self@));
        }
        let pending: u128 = dirty_collections.len() as u128 + dirty_aliases as u128;
        StoreStatus {
            aliases: #[verifier::truncate] (effective.len() as i64),
            collections: #[verifier::truncate] (collections.len() as i64),
            active_collections: active_collection_names(&collections),
            pending: #[verifier::truncate] (pending as i64),
        }
    }
}

// ---------------------------------------------------------------------------
// The lists are determined
// ---------------------------------------------------------------------------
proof fn lemma_same_list<T>(a: Seq<T>, b: Seq<T>, before: spec_fn(T, T) -> bool)
    requires
        strict(before),
        a.no_duplicates(),
        b.no_duplicates(),
        forall|x: T| #[trigger] a.contains(x) == b.contains(x),
        forall|x: T, y: T| #[trigger]
            a.contains(x) && #[trigger] a.contains(y) ==> x == y || before(x, y) || before(y, x),
        model::in_order(a, before),
        model::in_order(b, before),
    ensures
        a == b,
    decreases a.len(),
{
    if a.len() == 0 {
        if b.len() > 0 {
            assert(b.contains(b[0]));
            assert(a.contains(b[0]));
        }
        assert(a =~= b);
    } else {
        let x = a.last();
        assert(a.contains(x));
        assert(b.contains(x));
        let y = b.last();
        assert(b.contains(y));
        assert(a.contains(y));
        let i = a.index_of(y);
        let j = b.index_of(x);
        if x != y {
            assert(!before(a[a.len() - 1], a[i]));
            assert(!before(b[b.len() - 1], b[j]));
            assert(before(y, x) && before(x, y));
            assert(before(x, x));
        }
        let a2 = a.drop_last();
        let b2 = b.drop_last();
        assert forall|z: T| #[trigger] a2.contains(z) == b2.contains(z) by {
            if a2.contains(z) {
                let k = a2.index_of(z);
                assert(a[k] == z);
                assert(a.contains(z));
                assert(b.contains(z));
                let m = b.index_of(z);
                assert(a[k] != a[a.len() - 1]);
                assert(b2[m] == z);
            }
            if b2.contains(z) {
                let k = b2.index_of(z);
                assert(b[k] == z);
                assert(b.contains(z));
                assert(a.contains(z));
                let m = a.index_of(z);
                assert(b[k] != b[b.len() - 1]);
                assert(a2[m] == z);
            }
        }
        assert forall|p: T, q: T| #[trigger]
            a2.contains(p) && #[trigger] a2.contains(q) implies p == q || before(p, q) || before(
            q,
            p,
        ) by {
            assert(a.contains(a2[a2.index_of(p)]) && a.contains(a2[a2.index_of(q)])) by {
                assert(a[a2.index_of(p)] == p && a[a2.index_of(q)] == q);
            }
        }
        lemma_same_list(a2, b2, before);
        assert(a =~= a2.push(x));
        assert(b =~= b2.push(y));
    }
}

proof fn lemma_same_aliases(
    a: Seq<AliasInfo>,
    b: Seq<AliasInfo>,
    st: StoreState,
    keys: Set<AliasKey>,
)
    requires
        model::shows_aliases(a, st, keys),
        model::shows_aliases(b, st, keys),
    ensures
        forall|x: AliasInfo| #[trigger] a.contains(x) == b.contains(x),
{
    assert forall|x: AliasInfo| #[trigger] a.contains(x) == b.contains(x) by {
        if a.contains(x) {
            let i = a.index_of(x);
            assert(a[i] == x);
        }
        if b.contains(x) {
            let i = b.index_of(x);
            assert(b[i] == x);
        }
    }
}

/// Where priorities differ, the store determines the list of the aliases that a shell gets.
pub proof fn law_effective_list_is_determined(
    a: Seq<AliasInfo>,
    b: Seq<AliasInfo>,
    st: StoreState,
)
    requires
        model::consistent(st),
        model::priorities_distinct(st),
        model::is_effective_list(a, st),
        model::is_effective_list(b, st),
    ensures
        a == b,
{
    let before = model::by_name();
    lemma_alias_orders();
    lemma_same_aliases(a, b, st, model::effective_keys(st));
    assert forall|x: AliasInfo, y: AliasInfo| #[trigger]
        a.contains(x) && #[trigger] a.contains(y) implies x == y || before(x, y) || before(
        y,
        x,
    ) by {
        let i = a.index_of(x);
        let j = a.index_of(y);
        assert(a[i] == x && a[j] == y);
        text::lemma_text_lt_total(x.name, y.name);
        if x.name == y.name {
            laws::law_one_alias_per_name(
                st,
                (x.collection_id, x.name),
                (y.collection_id, y.name),
            );
        }
    }
    lemma_same_list(a, b, before);
}

/// The store determines the list of all aliases, and that of the aliases of a collection.
pub proof fn law_alias_list_is_determined(
    a: Seq<AliasInfo>,
    b: Seq<AliasInfo>,
    st: StoreState,
    collection: Option<Seq<char>>,
)
    requires
        model::consistent(st),
        model::is_alias_list(a, st, collection),
        model::is_alias_list(b, st, collection),
    ensures
        a == b,
{
    let keys = model::listed_keys(st, collection)->Ok_0;
    let before = if collection is Some {
        model::by_name()
    } else {
        model::by_collection()
    };
    lemma_alias_orders();
    lemma_same_aliases(a, b, st, keys);
    assert forall|x: AliasInfo, y: AliasInfo| #[trigger]
        a.contains(x) && #[trigger] a.contains(y) implies x == y || before(x, y) || before(
        y,
        x,
    ) by {
        let i = a.index_of(x);
        let j = a.index_of(y);
        assert(a[i] == x && a[j] == y);
        text::lemma_text_lt_total(x.name, y.name);
        text::lemma_text_lt_total(x.collection_name, y.collection_name);
        assert(st.aliases.contains_key((x.collection_id, x.name)));
        assert(st.aliases.contains_key((y.collection_id, y.name)));
        assert(st.collections.contains_key(x.collection_id));
        assert(st.collections.contains_key(y.collection_id));
    }
    lemma_same_list(a, b, before);
}

/// The list of collections begins with the shared one, which is active with priority 0.
pub proof fn law_shared_comes_first(list: Seq<CollectionInfo>, st: StoreState)
    requires
        model::consistent(st),
        model::is_collection_list(list, st),
    ensures
        list.len() > 0,
        list[0] == model::collection_info(st, DEFAULT_COLLECTION_ID@),
        list[0].name == DEFAULT_COLLECTION_NAME@,
        list[0].active,
        list[0].priority == 0,
{
    let id = DEFAULT_COLLECTION_ID@;
    let info = model::collection_info(st, id);
    assert(model::live_ids(st).contains(id));
    let k = list.index_of(info);
    assert(list[k] == info);
    assert(model::live_ids(st).contains(list[0].id));
    if k > 0 {
        assert(!model::by_rank()(list[k], list[0]));
        assert(list[0].name == DEFAULT_COLLECTION_NAME@);
        assert(st.collections.contains_key(list[0].id) && st.collections.contains_key(id));
    }
}

/// The store determines the list of collections.
pub proof fn law_collection_list_is_determined(
    a: Seq<CollectionInfo>,
    b: Seq<CollectionInfo>,
    st: StoreState,
)
    requires
        model::consistent(st),
        model::is_collection_list(a, st),
        model::is_collection_list(b, st),
    ensures
        a == b,
{
    let before = model::by_rank();
    lemma_collection_orders();
    assert forall|x: CollectionInfo| #[trigger] a.contains(x) == b.contains(x) by {
        if a.contains(x) {
            let i = a.index_of(x);
            assert(a[i] == x);
        }
        if b.contains(x) {
            let i = b.index_of(x);
            assert(b[i] == x);
        }
    }
    assert forall|x: CollectionInfo, y: CollectionInfo| #[trigger]
        a.contains(x) && #[trigger] a.contains(y) implies x == y || before(x, y) || before(
        y,
        x,
    ) by {
        let i = a.index_of(x);
        let j = a.index_of(y);
        assert(a[i] == x && a[j] == y);
        text::lemma_text_lt_total(x.name, y.name);
        assert(st.collections.contains_key(x.id) && st.collections.contains_key(y.id));
    }
    lemma_same_list(a, b, before);
}

} // verus!
