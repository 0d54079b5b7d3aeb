//! Sums over sequences, and searches in them.
use vstd::prelude::*;

verus! {

/// The sum of what each element counts for.
pub open spec fn total<T>(s: Seq<T>, count: spec_fn(T) -> nat) -> nat
    decreases s.len(),
{
    if s.len() == 0 {
        0
    } else {
        total(s.drop_last(), count) + count(s.last())
    }
}

/// The position of the first element with a property.
pub open spec fn first_index<T>(s: Seq<T>, p: spec_fn(T) -> bool) -> Option<int>
    decreases s.len(),
{
    if s.len() == 0 {
        None
    } else {
        match first_index(s.drop_last(), p) {
            Some(i) => Some(i),
            None => if p(s.last()) {
                Some(s.len() - 1)
            } else {
                None
            },
        }
    }
}

/// The position of the last element with a property.
pub open spec fn last_index<T>(s: Seq<T>, p: spec_fn(T) -> bool) -> Option<int>
    decreases s.len(),
{
    if s.len() == 0 {
        None
    } else if p(s.last()) {
        Some(s.len() - 1)
    } else {
        last_index(s.drop_last(), p)
    }
}

/// A sequence without its last element, if it has one.
pub open spec fn all_but_last<T>(s: Seq<T>) -> Seq<T> {
    if s.len() == 0 {
        s
    } else {
        s.drop_last()
    }
}

/// Another element in one place changes the sum by the difference.
pub(crate) proof fn lemma_total_update<T>(s: Seq<T>, count: spec_fn(T) -> nat, i: int, x: T)
    requires
        0 <= i < s.len(),
    ensures
        total(s.update(i, x), count) + count(s[i]) == total(s, count) + count(x),
    decreases s.len(),
{
    let t = s.update(i, x);
    if i == s.len() - 1 {
        assert(t.drop_last() =~= s.drop_last());
    } else {
        assert(t.drop_last() =~= s.drop_last().update(i, x));
        lemma_total_update(s.drop_last(), count, i, x);
    }
}

/// One element more adds what it counts for.
pub(crate) proof fn lemma_total_take<T>(s: Seq<T>, count: spec_fn(T) -> nat, i: int)
    requires
        0 <= i < s.len(),
    ensures
        total(s.take(i + 1), count) == total(s.take(i), count) + count(s[i]),
{
    assert(s.take(i + 1).drop_last() =~= s.take(i));
}

/// The sum is zero exactly when every element counts for nothing.
pub(crate) proof fn lemma_total_zero<T>(s: Seq<T>, count: spec_fn(T) -> nat)
    ensures
        total(s, count) == 0 <==> forall|i: int| 0 <= i < s.len() ==> count(#[trigger] s[i]) == 0,
    decreases s.len(),
{
    if s.len() > 0 {
        let t = s.drop_last();
        lemma_total_zero(t, count);
        if total(s, count) == 0 {
            assert forall|i: int| 0 <= i < s.len() implies count(#[trigger] s[i]) == 0 by {
                if i < t.len() {
                    assert(count(t[i]) == 0);
                }
            }
        } else if count(s.last()) == 0 {
            let i = choose|i: int| 0 <= i < t.len() && count(#[trigger] t[i]) != 0;
            assert(count(s[i]) != 0);
        } else {
            assert(count(s[s.len() - 1]) != 0);
        }
    }
}

/// The first position with a property is the one before which none has it.
pub(crate) proof fn lemma_first_index<T>(s: Seq<T>, p: spec_fn(T) -> bool, i: int)
    requires
        0 <= i <= s.len(),
        forall|j: int| 0 <= j < i ==> !p(#[trigger] s[j]),
        i < s.len() ==> p(s[i]),
    ensures
        first_index(s, p) == (if i < s.len() {
            Some(i)
        } else {
            None
        }),
    decreases s.len(),
{
    if s.len() > 0 {
        let t = s.drop_last();
        if i < t.len() {
            assert forall|j: int| 0 <= j < i implies !p(#[trigger] t[j]) by {
                assert(!p(s[j]));
            }
            lemma_first_index(t, p, i);
        } else {
            assert forall|j: int| 0 <= j < t.len() implies !p(#[trigger] t[j]) by {
                assert(!p(s[j]));
            }
            lemma_first_index(t, p, t.len() as int);
            if i == s.len() {
                assert(!p(s[s.len() - 1]));
            }
        }
    }
}

/// A position found from the front has the property, and nothing found means that
/// no element has it.
pub(crate) proof fn lemma_first_index_found<T>(s: Seq<T>, p: spec_fn(T) -> bool)
    ensures
        match first_index(s, p) {
            Some(i) => 0 <= i < s.len() && p(s[i]) && forall|j: int|
                0 <= j < i ==> !p(#[trigger] s[j]),
            None => forall|j: int| 0 <= j < s.len() ==> !p(#[trigger] s[j]),
        },
    decreases s.len(),
{
    if s.len() > 0 {
        let t = s.drop_last();
        lemma_first_index_found(t, p);
        assert forall|j: int| 0 <= j < t.len() implies t[j] == #[trigger] s[j] by {
        }
        match first_index(t, p) {
            Some(i) => {
                assert forall|j: int| 0 <= j < i implies !p(#[trigger] s[j]) by {
                    assert(!p(t[j]));
                }
            },
            None => {
                assert forall|j: int| 0 <= j < t.len() implies !p(#[trigger] s[j]) by {
                    assert(!p(t[j]));
                }
            },
        }
    }
}

/// The last position with a property is the one after which none has it.
pub(crate) proof fn lemma_last_index<T>(s: Seq<T>, p: spec_fn(T) -> bool, i: int)
    requires
        -1 <= i < s.len(),
        forall|j: int| i < j < s.len() ==> !p(#[trigger] s[j]),
        0 <= i ==> p(s[i]),
    ensures
        last_index(s, p) == (if 0 <= i {
            Some(i)
        } else {
            None
        }),
    decreases s.len(),
{
    if s.len() > 0 {
        let t = s.drop_last();
        if i < t.len() {
            assert(!p(s[s.len() - 1]));
            assert forall|j: int| i < j < t.len() implies !p(#[trigger] t[j]) by {
                assert(!p(s[j]));
            }
            lemma_last_index(t, p, i);
        }
    }
}

/// A position found from the back has the property.
pub(crate) proof fn lemma_last_index_found<T>(s: Seq<T>, p: spec_fn(T) -> bool)
    ensures
        match last_index(s, p) {
            Some(i) => 0 <= i < s.len() && p(s[i]),
            None => true,
        },
    decreases s.len(),
{
    if s.len() > 0 && !p(s.last()) {
        lemma_last_index_found(s.drop_last(), p);
    }
}

/// Where an element has a property, one is found from the back.
pub(crate) proof fn lemma_last_index_exists<T>(s: Seq<T>, p: spec_fn(T) -> bool, i: int)
    requires
        0 <= i < s.len(),
        p(s[i]),
    ensures
        last_index(s, p) is Some,
    decreases s.len(),
{
    if !p(s.last()) {
        assert(s.drop_last()[i] == s[i]);
        lemma_last_index_exists(s.drop_last(), p, i);
    }
}

/// No element after a position found from the back has the property, and none at all
/// where nothing is found.
pub(crate) proof fn lemma_last_index_rest<T>(s: Seq<T>, p: spec_fn(T) -> bool)
    ensures
        match last_index(s, p) {
            Some(i) => forall|j: int| i < j < s.len() ==> !p(#[trigger] s[j]),
            None => forall|j: int| 0 <= j < s.len() ==> !p(#[trigger] s[j]),
        },
    decreases s.len(),
{
    if s.len() > 0 && !p(s.last()) {
        let t = s.drop_last();
        lemma_last_index_rest(t, p);
        lemma_last_index_found(t, p);
        assert forall|j: int| 0 <= j < t.len() implies t[j] == #[trigger] s[j] by {
        }
        match last_index(t, p) {
            Some(i) => {
                assert forall|j: int| i < j < s.len() implies !p(#[trigger] s[j]) by {
                    if j < t.len() {
                        assert(!p(t[j]));
                    }
                }
            },
            None => {
                assert forall|j: int| 0 <= j < s.len() implies !p(#[trigger] s[j]) by {
                    if j < t.len() {
                        assert(!p(t[j]));
                    }
                }
            },
        }
    }
}

} // verus!
