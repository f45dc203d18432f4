//! Rows in a vector, seen as a map from their keys.

use vstd::prelude::*;

verus! {

/// No two rows have the same key.
pub open spec fn distinct<K, R>(rows: Seq<R>, key: spec_fn(R) -> K) -> bool {
    forall|i: int, j: int|
        0 <= i < j < rows.len() ==> key(#[trigger] rows[i]) != key(#[trigger] rows[j])
}

pub open spec fn has_key<K, R>(rows: Seq<R>, key: spec_fn(R) -> K, k: K) -> bool {
    exists|i: int| 0 <= i < rows.len() && key(#[trigger] rows[i]) == k
}

/// The rows by their keys.
pub open spec fn table<K, R>(rows: Seq<R>, key: spec_fn(R) -> K) -> Map<K, R> {
    Map::new(
        |k: K| has_key(rows, key, k),
        |k: K| rows[choose|i: int| 0 <= i < rows.len() && key(#[trigger] rows[i]) == k],
    )
}

pub proof fn lemma_row<K, R>(rows: Seq<R>, key: spec_fn(R) -> K, i: int)
    requires
        distinct(rows, key),
        0 <= i < rows.len(),
    ensures
        table(rows, key).contains_key(key(rows[i])),
        table(rows, key)[key(rows[i])] == rows[i],
{
    let k = key(rows[i]);
    assert(has_key(rows, key, k));
    let j = choose|j: int| 0 <= j < rows.len() && key(#[trigger] rows[j]) == k;
    assert(key(rows[j]) == k);
    assert(i == j);
}

pub proof fn lemma_key<K, R>(rows: Seq<R>, key: spec_fn(R) -> K, k: K) -> (i: int)
    requires
        distinct(rows, key),
        table(rows, key).contains_key(k),
    ensures
        0 <= i < rows.len(),
        key(rows[i]) == k,
        table(rows, key)[k] == rows[i],
{
    let i = choose|i: int| 0 <= i < rows.len() && key(#[trigger] rows[i]) == k;
    lemma_row(rows, key, i);
    i
}

pub proof fn lemma_push<K, R>(rows: Seq<R>, key: spec_fn(R) -> K, row: R)
    requires
        distinct(rows, key),
        !table(rows, key).contains_key(key(row)),
    ensures
        distinct(rows.push(row), key),
        table(rows.push(row), key) == table(rows, key).insert(key(row), row),
{
    let more = rows.push(row);
    assert forall|i: int, j: int| 0 <= i < j < more.len() implies key(#[trigger] more[i]) != key(
        #[trigger] more[j],
    ) by {
        assert(more[i] == rows[i]);
        if j < rows.len() {
            assert(more[j] == rows[j]);
        } else {
            assert(has_key(rows, key, key(rows[i])));
        }
    }
    let left = table(more, key);
    let right = table(rows, key).insert(key(row), row);
    assert forall|k: K| left.contains_key(k) == right.contains_key(k) by {
        if left.contains_key(k) {
            let i = lemma_key(more, key, k);
            if i < rows.len() {
                assert(key(rows[i]) == k);
                assert(has_key(rows, key, k));
            }
        }
        if right.contains_key(k) {
            if k == key(row) {
                assert(key(more[rows.len() as int]) == k);
            } else {
                let i = lemma_key(rows, key, k);
                assert(key(more[i]) == k);
            }
            assert(has_key(more, key, k));
        }
    }
    assert forall|k: K| left.contains_key(k) implies left[k] == right[k] by {
        let i = lemma_key(more, key, k);
        if i < rows.len() {
            assert(more[i] == rows[i]);
            lemma_row(rows, key, i);
            assert(has_key(rows, key, k));
        }
    }
    assert(left =~= right);
}

/// Row `i` is replaced by one that keeps its key or has a key of its own.
pub proof fn lemma_update<K, R>(rows: Seq<R>, key: spec_fn(R) -> K, i: int, row: R)
    requires
        distinct(rows, key),
        0 <= i < rows.len(),
        key(row) == key(rows[i]) || !table(rows, key).contains_key(key(row)),
    ensures
        distinct(rows.update(i, row), key),
        table(rows.update(i, row), key) == table(rows, key).remove(key(rows[i])).insert(
            key(row),
            row,
        ),
{
    let other = rows.update(i, row);
    assert forall|a: int, b: int|
        0 <= a < b < other.len() implies key(#[trigger] other[a]) != key(#[trigger] other[b]) by {
        assert(a == i || other[a] == rows[a]);
        assert(b == i || other[b] == rows[b]);
        assert(key(rows[a]) != key(rows[b]));
        lemma_row(rows, key, a);
        lemma_row(rows, key, b);
    }
    let left = table(other, key);
    let right = table(rows, key).remove(key(rows[i])).insert(key(row), row);
    assert forall|k: K| left.contains_key(k) == right.contains_key(k) by {
        if left.contains_key(k) {
            let j = lemma_key(other, key, k);
            if j != i {
                assert(other[j] == rows[j]);
                lemma_row(rows, key, j);
                assert(key(rows[j]) != key(rows[i]));
            }
        }
        if right.contains_key(k) {
            if k == key(row) {
                assert(key(other[i]) == k);
            } else {
                let j = lemma_key(rows, key, k);
                assert(other[j] == rows[j]);
                assert(key(other[j]) == k);
            }
            assert(has_key(other, key, k));
        }
    }
    assert forall|k: K| left.contains_key(k) implies left[k] == right[k] by {
        let j = lemma_key(other, key, k);
        if j != i {
            assert(other[j] == rows[j]);
            lemma_row(rows, key, j);
            lemma_row(rows, key, i);
            lemma_row(other, key, i);
            assert(key(other[j]) != key(other[i]));
        }
    }
    assert(left =~= right);
}

pub proof fn lemma_remove<K, R>(rows: Seq<R>, key: spec_fn(R) -> K, i: int)
    requires
        distinct(rows, key),
        0 <= i < rows.len(),
    ensures
        distinct(rows.remove(i), key),
        table(rows.remove(i), key) == table(rows, key).remove(key(rows[i])),
{
    let fewer = rows.remove(i);
    assert forall|a: int| 0 <= a < fewer.len() implies #[trigger] fewer[a] == rows[if a < i {
        a
    } else {
        a + 1
    }] by {}
    assert forall|a: int, b: int|
        0 <= a < b < fewer.len() implies key(#[trigger] fewer[a]) != key(#[trigger] fewer[b]) by {
        let x = if a < i { a } else { a + 1 };
        let y = if b < i { b } else { b + 1 };
        assert(key(rows[x]) != key(rows[y]));
    }
    let left = table(fewer, key);
    let right = table(rows, key).remove(key(rows[i]));
    assert forall|k: K| left.contains_key(k) == right.contains_key(k) by {
        if left.contains_key(k) {
            let a = lemma_key(fewer, key, k);
            let x = if a < i { a } else { a + 1 };
            lemma_row(rows, key, x);
            assert(key(rows[x]) != key(rows[i]));
        }
        if right.contains_key(k) {
            let x = lemma_key(rows, key, k);
            let a = if x < i { x } else { x - 1 };
            assert(key(fewer[a]) == k);
            assert(has_key(fewer, key, k));
        }
    }
    assert forall|k: K| left.contains_key(k) implies left[k] == right[k] by {
        let a = lemma_key(fewer, key, k);
        let x = if a < i { a } else { a + 1 };
        lemma_row(rows, key, x);
        assert(key(rows[x]) != key(rows[i]));
    }
    assert(left =~= right);
}

/// There are finitely many keys.
pub proof fn lemma_finite<K, R>(rows: Seq<R>, key: spec_fn(R) -> K)
    requires
        distinct(rows, key),
    ensures
        table(rows, key).dom().finite(),
        table(rows, key).dom().len() == rows.len(),
    decreases rows.len(),
{
    if rows.len() == 0 {
        assert(table(rows, key).dom() =~= Set::empty());
    } else {
        let fewer = rows.drop_last();
        lemma_finite(fewer, key);
        assert(rows =~= fewer.push(rows.last()));
        if table(fewer, key).contains_key(key(rows.last())) {
            let i = lemma_key(fewer, key, key(rows.last()));
            assert(rows[i] == fewer[i]);
            assert(key(rows[i]) != key(rows[rows.len() - 1]));
        }
        lemma_push(fewer, key, rows.last());
        assert(table(rows, key).dom() =~= table(fewer, key).dom().insert(key(rows.last())));
    }
}

} // verus!
