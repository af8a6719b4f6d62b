//! Searching lists.

use vstd::prelude::*;

verus! {

/// The first index below `n` at which `p` holds.
pub open spec fn first_index(n: int, p: spec_fn(int) -> bool) -> Option<int>
    decreases n,
{
    if n <= 0 {
        None
    } else if first_index(n - 1, p) is Some {
        first_index(n - 1, p)
    } else if p(n - 1) {
        Some(n - 1)
    } else {
        None
    }
}

/// `i` is the first index if `p` holds there and nowhere before.
pub proof fn lemma_first_index_found(n: int, p: spec_fn(int) -> bool, i: int)
    requires
        0 <= i < n,
        p(i),
        forall|j: int| 0 <= j < i ==> !(#[trigger] p(j)),
    ensures
        first_index(n, p) == Some(i),
    decreases n,
{
    if i < n - 1 {
        lemma_first_index_found(n - 1, p, i);
    } else {
        lemma_first_index_none(n - 1, p);
    }
}

/// There is none if `p` holds nowhere.
pub proof fn lemma_first_index_none(n: int, p: spec_fn(int) -> bool)
    requires
        forall|j: int| 0 <= j < n ==> !(#[trigger] p(j)),
    ensures
        first_index(n, p) is None,
    decreases n,
{
    if n > 0 {
        lemma_first_index_none(n - 1, p);
    }
}

/// What was found holds there and nowhere before.
pub proof fn lemma_first_index_holds(n: int, p: spec_fn(int) -> bool)
    ensures
        first_index(n, p) matches Some(i) ==> 0 <= i < n && p(i) && forall|j: int|
            0 <= j < i ==> !(#[trigger] p(j)),
        first_index(n, p) is None ==> forall|j: int| 0 <= j < n ==> !(#[trigger] p(j)),
    decreases n,
{
    if n > 0 {
        lemma_first_index_holds(n - 1, p);
    }
}

/// Whether a list holds a number.
pub fn is_in(list: &Vec<usize>, x: usize) -> (b: bool)
    ensures
        b == list@.contains(x),
{
    let mut i: usize = 0;
    while i < list.len()
        invariant
            i <= list@.len(),
            forall|j: int| 0 <= j < i ==> list@[j] != x,
        decreases list.len() - i,
    {
        if list[i] == x {
            return true;
        }
        i += 1;
    }
    false
}

/// `out` are the elements of `s` at the positions `from`, in order, and those are the positions
/// at which `p` holds.
pub open spec fn is_choice<T>(
    s: Seq<T>,
    out: Seq<T>,
    from: Seq<int>,
    p: spec_fn(int) -> bool,
) -> bool {
    &&& from.len() == out.len()
    &&& forall|k: int|
        0 <= k < out.len() ==> 0 <= #[trigger] from[k] < s.len() && out[k] == s[from[k]]
    &&& forall|k: int, l: int| 0 <= k < l < from.len() ==> from[k] < from[l]
    &&& forall|i: int| 0 <= i < s.len() ==> from.contains(i) == #[trigger] p(i)
}

/// A filtered list is the choice of the elements for which the filter holds.
pub proof fn lemma_filter_is_choice<T>(s: Seq<T>, f: spec_fn(T) -> bool, p: spec_fn(int) -> bool) -> (
    from: Seq<int>)
    requires
        forall|i: int| 0 <= i < s.len() ==> #[trigger] p(i) == f(s[i]),
    ensures
        is_choice(s, s.filter(f), from, p),
    decreases s.len(),
{
    reveal(Seq::filter);
    if s.len() == 0 {
        Seq::empty()
    } else {
        let rest = s.drop_last();
        let n = s.len() - 1;
        assert forall|i: int| 0 <= i < rest.len() implies #[trigger] p(i) == f(rest[i]) by {
            assert(rest[i] == s[i]);
        }
        let before = lemma_filter_is_choice(rest, f, p);
        assert(p(n) == f(s[n]));
        let from = if f(s.last()) {
            before.push(n)
        } else {
            before
        };
        let out = s.filter(f);
        assert forall|k: int| 0 <= k < out.len() implies 0 <= #[trigger] from[k] < s.len()
            && out[k] == s[from[k]] by {
            if k < before.len() {
                assert(from[k] == before[k]);
                assert(s[before[k]] == rest[before[k]]);
            }
        }
        assert forall|i: int| 0 <= i < s.len() implies from.contains(i) == #[trigger] p(i) by {
            if i < n {
                if before.contains(i) {
                    let k = before.index_of(i);
                    assert(from[k] == i);
                }
                if from.contains(i) {
                    let k = from.index_of(i);
                    assert(before[k] == i);
                }
            } else {
                if f(s.last()) {
                    assert(from[before.len() as int] == n);
                } else if from.contains(n) {
                    let k = from.index_of(n);
                    assert(before[k] == n);
                }
            }
        }
        from
    }
}

} // verus!
