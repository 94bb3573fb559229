//! Facts about filtered and shortened sequences that the store's proofs use.
use vstd::prelude::*;

verus! {

/// Filtering one more element of a prefix appends it when it is kept.
pub proof fn lemma_filter_take_step<T>(s: Seq<T>, p: spec_fn(T) -> bool, k: int)
    requires
        0 <= k < s.len(),
    ensures
        s.take(k + 1).filter(p) == (if p(s[k]) {
            s.take(k).filter(p).push(s[k])
        } else {
            s.take(k).filter(p)
        }),
{
    reveal(Seq::filter);
    assert(s.take(k + 1).drop_last() =~= s.take(k));
    assert(s.take(k + 1).last() == s[k]);
}

/// An element is in a filtered sequence exactly when it is in the sequence
/// and kept.
pub proof fn lemma_filter_contains_iff<T>(s: Seq<T>, p: spec_fn(T) -> bool, x: T)
    ensures
        s.filter(p).contains(x) <==> (s.contains(x) && p(x)),
{
    broadcast use vstd::seq_lib::group_filter_ensures;

    if s.filter(p).contains(x) {
        s.lemma_filter_contains_rev(p, x);
        let i = choose|i: int| 0 <= i < s.filter(p).len() && s.filter(p)[i] == x;
        assert(p(s.filter(p)[i]));
    }
    if s.contains(x) && p(x) {
        let i = choose|i: int| 0 <= i < s.len() && s[i] == x;
        assert(s.filter(p).contains(s[i]));
    }
}

/// Every element of a filtered sequence is kept and comes from the sequence.
pub proof fn lemma_filter_all<T>(s: Seq<T>, p: spec_fn(T) -> bool)
    ensures
        forall|x: T| #[trigger] s.filter(p).contains(x) <==> (s.contains(x) && p(x)),
{
    assert forall|x: T| #[trigger] s.filter(p).contains(x) <==> (s.contains(x) && p(x)) by {
        lemma_filter_contains_iff(s, p, x);
    }
}

/// Filtering keeps a sequence free of duplicates.
pub proof fn lemma_filter_no_duplicates<T>(s: Seq<T>, p: spec_fn(T) -> bool)
    requires
        s.no_duplicates(),
    ensures
        s.filter(p).no_duplicates(),
    decreases s.len(),
{
    reveal(Seq::filter);
    if s.len() > 0 {
        let rest = s.drop_last();
        assert(rest.no_duplicates());
        lemma_filter_no_duplicates(rest, p);
        if p(s.last()) {
            lemma_filter_contains_iff(rest, p, s.last());
            if rest.contains(s.last()) {
                let i = choose|i: int| 0 <= i < rest.len() && rest[i] == s.last();
                assert(s[i] == s[s.len() - 1]);
            }
            let f = rest.filter(p);
            assert forall|i: int, j: int|
                0 <= i < f.push(s.last()).len() && 0 <= j < f.push(s.last()).len() && i != j
                    implies f.push(s.last())[i] != f.push(s.last())[j] by {
                if i == f.len() {
                    assert(f.contains(f[j]));
                } else if j == f.len() {
                    assert(f.contains(f[i]));
                }
            }
        }
    }
}

/// An element is in a sequence with one position removed exactly when it is
/// in the sequence and is not the removed one, for a sequence free of
/// duplicates.
pub proof fn lemma_remove_contains<T>(s: Seq<T>, k: int)
    requires
        0 <= k < s.len(),
        s.no_duplicates(),
    ensures
        s.remove(k).no_duplicates(),
        s.remove(k).len() == s.len() - 1,
        forall|x: T| #[trigger] s.remove(k).contains(x) <==> (s.contains(x) && x != s[k]),
{
    let r = s.remove(k);
    assert forall|i: int| 0 <= i < r.len() implies #[trigger] r[i] == (if i < k {
        s[i]
    } else {
        s[i + 1]
    }) by {}
    assert forall|x: T| #[trigger] r.contains(x) <==> (s.contains(x) && x != s[k]) by {
        if r.contains(x) {
            let i = choose|i: int| 0 <= i < r.len() && r[i] == x;
            if i < k {
                assert(s[i] == x);
            } else {
                assert(s[i + 1] == x);
            }
        }
        if s.contains(x) && x != s[k] {
            let i = choose|i: int| 0 <= i < s.len() && s[i] == x;
            if i < k {
                assert(r[i] == x);
            } else {
                assert(r[i - 1] == x);
            }
        }
    }
}

/// An element is in a sequence with one more element pushed exactly when it
/// is that element or was in the sequence.
pub proof fn lemma_push_contains<T>(s: Seq<T>, y: T)
    ensures
        forall|x: T| #[trigger] s.push(y).contains(x) <==> (s.contains(x) || x == y),
        !s.contains(y) && s.no_duplicates() ==> s.push(y).no_duplicates(),
{
    assert forall|x: T| #[trigger] s.push(y).contains(x) <==> (s.contains(x) || x == y) by {
        if s.contains(x) {
            let i = choose|i: int| 0 <= i < s.len() && s[i] == x;
            assert(s.push(y)[i] == x);
        }
        if x == y {
            assert(s.push(y)[s.len() as int] == x);
        }
        if s.push(y).contains(x) {
            let i = choose|i: int| 0 <= i < s.push(y).len() && s.push(y)[i] == x;
            if i < s.len() {
                assert(s[i] == x);
            }
        }
    }
    if !s.contains(y) && s.no_duplicates() {
        assert forall|i: int, j: int|
            0 <= i < s.push(y).len() && 0 <= j < s.push(y).len() && i != j implies s.push(
            y,
        )[i] != s.push(y)[j] by {
            if i == s.len() {
                assert(s.contains(s[j]));
            } else if j == s.len() {
                assert(s.contains(s[i]));
            }
        }
    }
}

/// An element is in a sequence with one position replaced exactly when it is
/// the new element or was in the sequence and is not the replaced one, for a
/// sequence free of duplicates.
pub proof fn lemma_update_contains<T>(s: Seq<T>, k: int, y: T)
    requires
        0 <= k < s.len(),
        s.no_duplicates(),
    ensures
        forall|x: T| #[trigger] s.update(k, y).contains(x) <==> ((s.contains(x) && x != s[k]) || x == y),
        !s.contains(y) ==> s.update(k, y).no_duplicates(),
{
    let u = s.update(k, y);
    assert forall|x: T| #[trigger] u.contains(x) <==> ((s.contains(x) && x != s[k]) || x == y) by {
        if u.contains(x) {
            let i = choose|i: int| 0 <= i < u.len() && u[i] == x;
            if i != k {
                assert(s[i] == x);
            }
        }
        if s.contains(x) && x != s[k] {
            let i = choose|i: int| 0 <= i < s.len() && s[i] == x;
            assert(u[i] == x);
        }
        if x == y {
            assert(u[k] == x);
        }
    }
    if !s.contains(y) {
        assert forall|i: int, j: int|
            0 <= i < u.len() && 0 <= j < u.len() && i != j implies u[i] != u[j] by {
            if i == k {
                assert(s.contains(s[j]));
            } else if j == k {
                assert(s.contains(s[i]));
            }
        }
    }
}

/// An element is in a concatenation exactly when it is in one of the parts;
/// parts free of duplicates that share no element give a concatenation free
/// of duplicates.
pub proof fn lemma_concat_contains<T>(s: Seq<T>, t: Seq<T>)
    ensures
        forall|x: T| #[trigger] (s + t).contains(x) <==> (s.contains(x) || t.contains(x)),
        s.no_duplicates() && t.no_duplicates() && (forall|x: T| s.contains(x) ==> !t.contains(x))
            ==> (s + t).no_duplicates(),
{
    let c = s + t;
    assert forall|x: T| #[trigger] c.contains(x) <==> (s.contains(x) || t.contains(x)) by {
        if c.contains(x) {
            let i = choose|i: int| 0 <= i < c.len() && c[i] == x;
            if i < s.len() {
                assert(s[i] == x);
            } else {
                assert(t[i - s.len()] == x);
            }
        }
        if s.contains(x) {
            let i = choose|i: int| 0 <= i < s.len() && s[i] == x;
            assert(c[i] == x);
        }
        if t.contains(x) {
            let i = choose|i: int| 0 <= i < t.len() && t[i] == x;
            assert(c[i + s.len()] == x);
        }
    }
    if s.no_duplicates() && t.no_duplicates() && (forall|x: T| s.contains(x) ==> !t.contains(x)) {
        assert forall|i: int, j: int| 0 <= i < c.len() && 0 <= j < c.len() && i != j implies c[i]
            != c[j] by {
            if i < s.len() && j >= s.len() {
                assert(s.contains(c[i]));
                assert(t.contains(t[j - s.len()]));
            } else if j < s.len() && i >= s.len() {
                assert(s.contains(c[j]));
                assert(t.contains(t[i - s.len()]));
            } else if i >= s.len() && j >= s.len() {
                assert(t[i - s.len()] != t[j - s.len()]);
            }
        }
    }
}

} // verus!
