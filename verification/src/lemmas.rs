//! Reusable proof machinery: the characterization of `find_first`, and
//! preservation of projection-uniqueness under the sequence operations
//! the engine performs.

use vstd::prelude::*;

use crate::model::find_first;
use crate::model::proj_unique;

verus! {

/// What `find_first` returns: the first index satisfying `pred`, or
/// `None` when no element satisfies it.
pub proof fn lemma_find_first_characterized<T>(s: Seq<T>, pred: spec_fn(T) -> bool)
    ensures
        (match find_first(s, pred) {
            Some(i) => 0 <= i < s.len() && pred(s[i]) && (forall|j: int|
                0 <= j < i ==> !pred(#[trigger] s[j])),
            None => forall|j: int| 0 <= j < s.len() ==> !pred(#[trigger] s[j]),
        }),
    decreases s.len(),
{
    if s.len() > 0 && !pred(s[0]) {
        let tail = s.drop_first();
        lemma_find_first_characterized(tail, pred);
        match find_first(tail, pred) {
            Some(i) => {
                assert(s[i + 1] == tail[i]);
                assert forall|j: int| 0 <= j < i + 1 implies !pred(#[trigger] s[j]) by {
                    if j > 0 {
                        assert(s[j] == tail[j - 1]);
                    }
                }
            },
            None => {
                assert forall|j: int| 0 <= j < s.len() implies !pred(#[trigger] s[j]) by {
                    if j > 0 {
                        assert(s[j] == tail[j - 1]);
                    }
                }
            },
        }
    }
}

/// `find_first` returns exactly the witnessed first index.
pub proof fn lemma_find_first_is<T>(s: Seq<T>, pred: spec_fn(T) -> bool, i: int)
    requires
        0 <= i < s.len(),
        pred(s[i]),
        forall|j: int| 0 <= j < i ==> !pred(#[trigger] s[j]),
    ensures
        find_first(s, pred) == Some(i),
{
    lemma_find_first_characterized(s, pred);
    match find_first(s, pred) {
        Some(k) => {
            if k < i {
                assert(!pred(s[k]));
            } else if i < k {
                assert(!pred(s[i]));
            }
        },
        None => {
            assert(!pred(s[i]));
        },
    }
}

/// `find_first` returns `None` when no element satisfies `pred`.
pub proof fn lemma_find_first_none<T>(s: Seq<T>, pred: spec_fn(T) -> bool)
    requires
        forall|j: int| 0 <= j < s.len() ==> !pred(#[trigger] s[j]),
    ensures
        find_first(s, pred) is None,
{
    lemma_find_first_characterized(s, pred);
    if let Some(k) = find_first(s, pred) {
        assert(!pred(s[k]));
    }
}

/// A sequence whose projection is unique keeps that through `remove`.
pub proof fn lemma_proj_unique_remove<T, B>(s: Seq<T>, proj: spec_fn(T) -> B, at: int)
    requires
        proj_unique(s, proj),
        0 <= at < s.len(),
    ensures
        proj_unique(s.remove(at), proj),
{
    let t = s.remove(at);
    assert forall|i: int, j: int| 0 <= i < j < t.len() implies proj(#[trigger] t[i]) != proj(
        #[trigger] t[j],
    ) by {
        let i0 = if i < at {
            i
        } else {
            i + 1
        };
        let j0 = if j < at {
            j
        } else {
            j + 1
        };
        assert(t[i] == s[i0]);
        assert(t[j] == s[j0]);
    }
}

/// A sequence whose projection is unique keeps that through `filter`.
pub proof fn lemma_proj_unique_filter<T, B>(
    s: Seq<T>,
    proj: spec_fn(T) -> B,
    pred: spec_fn(T) -> bool,
)
    requires
        proj_unique(s, proj),
    ensures
        proj_unique(s.filter(pred), proj),
        forall|i: int| 0 <= i < s.filter(pred).len() ==> s.contains(#[trigger] s.filter(pred)[i]),
    decreases s.len(),
{
    reveal(Seq::filter);
    if s.len() > 0 {
        let head = s.drop_last();
        assert forall|i: int, j: int| 0 <= i < j < head.len() implies proj(#[trigger] head[i])
            != proj(#[trigger] head[j]) by {
            assert(head[i] == s[i]);
            assert(head[j] == s[j]);
        }
        lemma_proj_unique_filter(head, proj, pred);
        let f = s.filter(pred);
        let fh = head.filter(pred);
        assert forall|i: int| 0 <= i < f.len() implies s.contains(#[trigger] f[i]) by {
            if pred(s.last()) && i == f.len() - 1 {
                assert(f[i] == s[s.len() - 1]);
            } else {
                assert(f[i] == fh[i]);
                assert(head.contains(fh[i]));
                let w = choose|w: int| 0 <= w < head.len() && head[w] == fh[i];
                assert(s[w] == f[i]);
            }
        }
        assert forall|i: int, j: int| 0 <= i < j < f.len() implies proj(#[trigger] f[i]) != proj(
            #[trigger] f[j],
        ) by {
            if pred(s.last()) && j == f.len() - 1 {
                assert(f[j] == s[s.len() - 1]);
                assert(f[i] == fh[i]);
                assert(head.contains(fh[i]));
                let w = choose|w: int| 0 <= w < head.len() && head[w] == fh[i];
                assert(s[w] == f[i]);
            } else {
                assert(f[i] == fh[i]);
                assert(f[j] == fh[j]);
            }
        }
    }
}

/// A projection-unique sequence stays so when one element is replaced
/// by one with the same projection.
pub proof fn lemma_proj_unique_update<T, B>(s: Seq<T>, proj: spec_fn(T) -> B, at: int, v: T)
    requires
        proj_unique(s, proj),
        0 <= at < s.len(),
        proj(v) == proj(s[at]),
    ensures
        proj_unique(s.update(at, v), proj),
{
    let t = s.update(at, v);
    assert forall|i: int, j: int| 0 <= i < j < t.len() implies proj(#[trigger] t[i]) != proj(
        #[trigger] t[j],
    ) by {
        assert(t[i] == if i == at {
            v
        } else {
            s[i]
        });
        assert(t[j] == if j == at {
            v
        } else {
            s[j]
        });
    }
}

/// A projection-unique sequence stays so when an element whose
/// projection is fresh is appended.
pub proof fn lemma_proj_unique_push<T, B>(s: Seq<T>, proj: spec_fn(T) -> B, v: T)
    requires
        proj_unique(s, proj),
        forall|i: int| 0 <= i < s.len() ==> proj(#[trigger] s[i]) != proj(v),
    ensures
        proj_unique(s.push(v), proj),
{
    let t = s.push(v);
    assert forall|i: int, j: int| 0 <= i < j < t.len() implies proj(#[trigger] t[i]) != proj(
        #[trigger] t[j],
    ) by {
        assert(t[i] == s[i]);
        if j < s.len() {
            assert(t[j] == s[j]);
        } else {
            assert(t[j] == v);
        }
    }
}

/// Two sequences on which a predicate agrees pointwise give the same
/// first index.
pub proof fn lemma_find_first_pointwise<T, U>(
    s1: Seq<T>,
    s2: Seq<U>,
    pred1: spec_fn(T) -> bool,
    pred2: spec_fn(U) -> bool,
)
    requires
        s1.len() == s2.len(),
        forall|j: int| 0 <= j < s1.len() ==> pred1(#[trigger] s1[j]) == pred2(#[trigger] s2[j]),
    ensures
        find_first(s1, pred1) == find_first(s2, pred2),
{
    lemma_find_first_characterized(s1, pred1);
    lemma_find_first_characterized(s2, pred2);
    match (find_first(s1, pred1), find_first(s2, pred2)) {
        (Some(i), Some(k)) => {
            if i < k {
                assert(!pred2(s2[i]));
            } else if k < i {
                assert(!pred1(s1[k]));
            }
        },
        (Some(i), None) => {
            assert(!pred2(s2[i]));
        },
        (None, Some(k)) => {
            assert(!pred1(s1[k]));
        },
        (None, None) => {},
    }
}

/// Appending an element does not change an already-found first index.
pub proof fn lemma_find_first_push_found<T>(s: Seq<T>, pred: spec_fn(T) -> bool, x: T)
    requires
        find_first(s, pred) is Some,
    ensures
        find_first(s.push(x), pred) == find_first(s, pred),
{
    lemma_find_first_characterized(s, pred);
    let i = find_first(s, pred)->Some_0;
    assert(s.push(x)[i] == s[i]);
    assert forall|j: int| 0 <= j < i implies !pred(#[trigger] s.push(x)[j]) by {
        assert(s.push(x)[j] == s[j]);
    }
    lemma_find_first_is(s.push(x), pred, i);
}

/// `map_values` distributes over `push`.
pub proof fn lemma_map_values_push<T, B>(s: Seq<T>, f: spec_fn(T) -> B, x: T)
    ensures
        s.push(x).map_values(f) == s.map_values(f).push(f(x)),
{
    assert(s.push(x).map_values(f) =~= s.map_values(f).push(f(x)));
}

/// `map_values` distributes over `update`.
pub proof fn lemma_map_values_update<T, B>(s: Seq<T>, f: spec_fn(T) -> B, at: int, x: T)
    requires
        0 <= at < s.len(),
    ensures
        s.update(at, x).map_values(f) == s.map_values(f).update(at, f(x)),
{
    assert(s.update(at, x).map_values(f) =~= s.map_values(f).update(at, f(x)));
}

/// `map_values` distributes over `remove`.
pub proof fn lemma_map_values_remove<T, B>(s: Seq<T>, f: spec_fn(T) -> B, at: int)
    requires
        0 <= at < s.len(),
    ensures
        s.remove(at).map_values(f) == s.map_values(f).remove(at),
{
    assert(s.remove(at).map_values(f) =~= s.map_values(f).remove(at));
}

/// How `filter` grows with `take`, one element at a time.
pub proof fn lemma_filter_take_step<T>(s: Seq<T>, pred: spec_fn(T) -> bool, i: int)
    requires
        0 <= i < s.len(),
    ensures
        s.take(i + 1).filter(pred) == if pred(s[i]) {
            s.take(i).filter(pred).push(s[i])
        } else {
            s.take(i).filter(pred)
        },
{
    reveal(Seq::filter);
    assert(s.take(i + 1).drop_last() =~= s.take(i));
    assert(s.take(i + 1).last() == s[i]);
}

/// A projection-unique sequence stays so when an element whose
/// projection is fresh is inserted at any position.
pub proof fn lemma_proj_unique_insert<T, B>(s: Seq<T>, proj: spec_fn(T) -> B, at: int, v: T)
    requires
        proj_unique(s, proj),
        0 <= at <= s.len(),
        forall|i: int| 0 <= i < s.len() ==> proj(#[trigger] s[i]) != proj(v),
    ensures
        proj_unique(s.take(at) + seq![v] + s.skip(at), proj),
{
    let t = s.take(at) + seq![v] + s.skip(at);
    assert(t.len() == s.len() + 1);
    assert forall|i: int| 0 <= i < t.len() implies #[trigger] t[i] == (if i < at {
        s[i]
    } else if i == at {
        v
    } else {
        s[i - 1]
    }) by {}
    assert forall|i: int, j: int| 0 <= i < j < t.len() implies proj(#[trigger] t[i]) != proj(
        #[trigger] t[j],
    ) by {}
}

/// A projection-unique sequence stays so under a map that keeps the
/// projection of every element.
pub proof fn lemma_proj_unique_map<T, U, B>(s: Seq<T>, f: spec_fn(T) -> U, proj_t: spec_fn(T) -> B, proj_u: spec_fn(U) -> B)
    requires
        proj_unique(s, proj_t),
        forall|j: int| 0 <= j < s.len() ==> proj_u(f(#[trigger] s[j])) == proj_t(s[j]),
    ensures
        proj_unique(s.map_values(f), proj_u),
{
    let t = s.map_values(f);
    assert forall|i: int, j: int| 0 <= i < j < t.len() implies proj_u(#[trigger] t[i]) != proj_u(
        #[trigger] t[j],
    ) by {
        assert(t[i] == f(s[i]));
        assert(t[j] == f(s[j]));
    }
}

} // verus!
