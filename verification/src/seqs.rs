//! Small sequence helpers shared by the state-machine modules: view
//! sequences of string vectors, insertion without duplicates, and removal of
//! the first occurrence of a value.

use vstd::prelude::*;

verus! {

/// View sequence of a sequence of strings.
pub open spec fn seq_views(ss: Seq<String>) -> Seq<Seq<char>> {
    ss.map_values(|s: String| s@)
}

/// The sequence extended by `x` unless `x` already occurs.
pub open spec fn insert_unique<A>(s: Seq<A>, x: A) -> Seq<A> {
    if s.contains(x) {
        s
    } else {
        s.push(x)
    }
}

/// The sequence with the first occurrence of `x` removed, or the sequence
/// itself when `x` does not occur.
pub open spec fn seq_remove_first<A>(s: Seq<A>, x: A) -> Seq<A>
    decreases s.len(),
{
    if s.len() == 0 {
        s
    } else if s[0] == x {
        s.drop_first()
    } else {
        seq![s[0]] + seq_remove_first(s.drop_first(), x)
    }
}

/// Removing the first occurrence at its index `i` is the same as removing
/// index `i`.
pub proof fn lemma_seq_remove_first_at<A>(s: Seq<A>, x: A, i: int)
    requires
        0 <= i < s.len(),
        s[i] == x,
        forall|j: int| 0 <= j < i ==> s[j] != x,
    ensures
        seq_remove_first(s, x) == s.remove(i),
    decreases i,
{
    if i == 0 {
        assert(seq_remove_first(s, x) =~= s.remove(0));
    } else {
        lemma_seq_remove_first_at(s.drop_first(), x, i - 1);
        assert(seq_remove_first(s, x) =~= s.remove(i));
    }
}

/// Removing an absent element changes nothing.
pub proof fn lemma_seq_remove_first_absent<A>(s: Seq<A>, x: A)
    requires
        !s.contains(x),
    ensures
        seq_remove_first(s, x) == s,
    decreases s.len(),
{
    if s.len() > 0 {
        assert(s[0] != x);
        assert(!s.drop_first().contains(x)) by {
            if s.drop_first().contains(x) {
                let j = choose|j: int| 0 <= j < s.drop_first().len() && s.drop_first()[j] == x;
                assert(s[j + 1] == x);
            }
        }
        lemma_seq_remove_first_absent(s.drop_first(), x);
        assert(seq_remove_first(s, x) =~= s);
    }
}

/// What `seq_remove_first` keeps: every element other than `x` stays, and
/// on a duplicate-free sequence `x` itself is gone.
pub proof fn lemma_seq_remove_first_no_duplicates<A>(s: Seq<A>, x: A)
    requires
        s.no_duplicates(),
    ensures
        seq_remove_first(s, x).no_duplicates(),
        !seq_remove_first(s, x).contains(x),
        forall|y: A| y != x ==> (seq_remove_first(s, x).contains(y) <==> s.contains(y)),
        s.contains(x) ==> seq_remove_first(s, x).len() == s.len() - 1,
        !s.contains(x) ==> seq_remove_first(s, x) == s,
{
    if s.contains(x) {
        let i = choose|i: int| 0 <= i < s.len() && s[i] == x;
        let k = first_index(s, x, i);
        lemma_seq_remove_first_at(s, x, k);
        let r = s.remove(k);
        assert(r.no_duplicates()) by {
            assert(forall|p: int, q: int|
                0 <= p < q < r.len() ==> r[p] != r[q]) by {
                assert(forall|p: int| 0 <= p < r.len() ==> r[p] == (if p < k {
                    s[p]
                } else {
                    s[p + 1]
                }));
            }
        }
        assert(!r.contains(x)) by {
            if r.contains(x) {
                let j = choose|j: int| 0 <= j < r.len() && r[j] == x;
                if j < k {
                    assert(s[j] == x);
                } else {
                    assert(s[j + 1] == x);
                }
            }
        }
        assert(forall|y: A| y != x ==> (r.contains(y) <==> s.contains(y))) by {
            assert(forall|j: int|
                0 <= j < r.len() ==> r[j] == (if j < k {
                    s[j]
                } else {
                    s[j + 1]
                }) && s.contains(r[j]));
            assert forall|y: A| y != x && s.contains(y) implies r.contains(y) by {
                let j = choose|j: int| 0 <= j < s.len() && s[j] == y;
                if j < k {
                    assert(r[j] == y);
                } else if j > k {
                    assert(r[j - 1] == y);
                }
            }
        }
    } else {
        lemma_seq_remove_first_absent(s, x);
    }
}

/// The least index at which `x` occurs, found from some occurrence `i`.
proof fn first_index<A>(s: Seq<A>, x: A, i: int) -> (k: int)
    requires
        0 <= i < s.len(),
        s[i] == x,
    ensures
        0 <= k < s.len(),
        s[k] == x,
        forall|j: int| 0 <= j < k ==> s[j] != x,
    decreases i,
{
    if exists|j: int| 0 <= j < i && s[j] == x {
        let j = choose|j: int| 0 <= j < i && s[j] == x;
        first_index(s, x, j)
    } else {
        i
    }
}

} // verus!
