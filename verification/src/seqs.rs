//! Small facts about sequences of ids used by the allocator's FIFO pool, the
//! packed holder lists and the ownership registry.

use vstd::prelude::*;

verus! {

/// `s` with the first occurrence of `v` taken out (or `s` itself when `v`
/// does not occur).
pub open spec fn remove_first(s: Seq<usize>, v: usize) -> Seq<usize>
    decreases s.len(),
{
    if s.len() == 0 {
        s
    } else if s[0] == v {
        s.drop_first()
    } else {
        seq![s[0]] + remove_first(s.drop_first(), v)
    }
}

pub proof fn lemma_remove_first_absent(s: Seq<usize>, v: usize)
    requires
        !s.contains(v),
    ensures
        remove_first(s, v) == s,
    decreases s.len(),
{
    if s.len() == 0 {
        assert(remove_first(s, v) =~= s);
    } else {
        assert(s[0] != v);
        assert(!s.drop_first().contains(v)) by {
            if s.drop_first().contains(v) {
                let i = choose|i: int| 0 <= i < s.drop_first().len() && s.drop_first()[i] == v;
                assert(s[i + 1] == v);
            }
        }
        lemma_remove_first_absent(s.drop_first(), v);
        assert(remove_first(s, v) =~= s);
    }
}

pub(crate) proof fn lemma_remove_first_at(s: Seq<usize>, v: usize, i: int)
    requires
        0 <= i < s.len(),
        s[i] == v,
        forall|j: int| 0 <= j < i ==> s[j] != v,
    ensures
        remove_first(s, v) == s.remove(i),
    decreases i,
{
    if i == 0 {
        assert(remove_first(s, v) =~= s.remove(0));
    } else {
        lemma_remove_first_at(s.drop_first(), v, i - 1);
        assert(remove_first(s, v) =~= s.remove(i));
    }
}

/// Taking one occurrence of `v` out of a duplicate-free sequence leaves a
/// duplicate-free sequence holding exactly the other values.
pub proof fn lemma_remove_first_present(s: Seq<usize>, v: usize)
    requires
        s.no_duplicates(),
        s.contains(v),
    ensures
        remove_first(s, v).len() == s.len() - 1,
        remove_first(s, v).no_duplicates(),
        forall|x: usize| #[trigger] remove_first(s, v).contains(x) == (s.contains(x) && x != v),
    decreases s.len(),
{
    let i = choose|i: int| 0 <= i < s.len() && s[i] == v;
    let r = remove_first(s, v);
    if s[0] == v {
        assert(r == s.drop_first());
        assert forall|x: usize| #[trigger] r.contains(x) == (s.contains(x) && x != v) by {
            if r.contains(x) {
                let j = choose|j: int| 0 <= j < r.len() && r[j] == x;
                assert(s[j + 1] == x);
                assert(x != v);
            }
            if s.contains(x) && x != v {
                let j = choose|j: int| 0 <= j < s.len() && s[j] == x;
                assert(j != 0);
                assert(r[j - 1] == x);
            }
        }
        assert forall|a: int, b: int| 0 <= a < r.len() && 0 <= b < r.len() && a != b implies r[a]
            != r[b] by {
            assert(s[a + 1] == r[a] && s[b + 1] == r[b]);
        }
    } else {
        let tail = s.drop_first();
        assert(tail.contains(v)) by {
            assert(i != 0);
            assert(tail[i - 1] == v);
        }
        assert(tail.no_duplicates()) by {
            assert forall|a: int, b: int|
                0 <= a < tail.len() && 0 <= b < tail.len() && a != b implies tail[a] != tail[b] by {
                assert(s[a + 1] == tail[a] && s[b + 1] == tail[b]);
            }
        }
        lemma_remove_first_present(tail, v);
        let rt = remove_first(tail, v);
        assert(r == seq![s[0]] + rt);
        assert(r.len() == s.len() - 1);
        assert(r[0] == s[0]);
        assert forall|x: usize| #[trigger] r.contains(x) == (s.contains(x) && x != v) by {
            if r.contains(x) {
                let j = choose|j: int| 0 <= j < r.len() && r[j] == x;
                if j == 0 {
                    assert(x == s[0] && x != v);
                } else {
                    assert(rt[j - 1] == x);
                    assert(rt.contains(x));
                    assert(tail.contains(x) && x != v);
                    let k = choose|k: int| 0 <= k < tail.len() && tail[k] == x;
                    assert(s[k + 1] == x);
                }
                assert(s.contains(x) && x != v);
            }
            if s.contains(x) && x != v {
                let j = choose|j: int| 0 <= j < s.len() && s[j] == x;
                if j == 0 {
                    assert(r[0] == x);
                } else {
                    assert(tail[j - 1] == x);
                    assert(tail.contains(x));
                    assert(rt.contains(x));
                    let k = choose|k: int| 0 <= k < rt.len() && rt[k] == x;
                    assert(r[k + 1] == x);
                }
                assert(r.contains(x));
            }
        }
        assert(!tail.contains(s[0])) by {
            if tail.contains(s[0]) {
                let j = choose|j: int| 0 <= j < tail.len() && tail[j] == s[0];
                assert(s[j + 1] == s[0]);
            }
        }
        assert forall|a: int, b: int| 0 <= a < r.len() && 0 <= b < r.len() && a != b implies r[a]
            != r[b] by {
            if a > 0 && b > 0 {
                assert(r[a] == rt[a - 1] && r[b] == rt[b - 1]);
            } else if a == 0 {
                assert(r[b] == rt[b - 1]);
                assert(rt.contains(rt[b - 1]));
                assert(tail.contains(rt[b - 1]));
            } else {
                assert(r[a] == rt[a - 1]);
                assert(rt.contains(rt[a - 1]));
                assert(tail.contains(rt[a - 1]));
            }
        }
    }
}

pub(crate) proof fn lemma_drop_first_contains(s: Seq<usize>, x: usize)
    requires
        s.len() > 0,
        x != s[0],
    ensures
        s.drop_first().contains(x) == s.contains(x),
{
    if s.drop_first().contains(x) {
        let i = choose|i: int| 0 <= i < s.drop_first().len() && s.drop_first()[i] == x;
        assert(s[i + 1] == x);
    }
    if s.contains(x) {
        let i = choose|i: int| 0 <= i < s.len() && s[i] == x;
        assert(i != 0);
        assert(s.drop_first()[i - 1] == x);
    }
}

pub(crate) proof fn lemma_no_dup_drop_first(s: Seq<usize>)
    requires
        s.len() > 0,
        s.no_duplicates(),
    ensures
        s.drop_first().no_duplicates(),
        !s.drop_first().contains(s[0]),
{
    if s.drop_first().contains(s[0]) {
        let i = choose|i: int| 0 <= i < s.drop_first().len() && s.drop_first()[i] == s[0];
        assert(s[i + 1] == s[0]);
    }
}

pub(crate) proof fn lemma_push_contains(s: Seq<usize>, v: usize, x: usize)
    ensures
        s.push(v).contains(x) == (s.contains(x) || x == v),
{
    if s.contains(x) {
        let i = choose|i: int| 0 <= i < s.len() && s[i] == x;
        assert(s.push(v)[i] == x);
    }
    assert(s.push(v)[s.len() as int] == v);
    if s.push(v).contains(x) && x != v {
        let i = choose|i: int| 0 <= i < s.push(v).len() && s.push(v)[i] == x;
        assert(i < s.len());
        assert(s[i] == x);
    }
}

pub(crate) proof fn lemma_push_no_dup(s: Seq<usize>, v: usize)
    requires
        s.no_duplicates(),
        !s.contains(v),
    ensures
        s.push(v).no_duplicates(),
{
    assert forall|i: int, j: int|
        0 <= i < s.push(v).len() && 0 <= j < s.push(v).len() && i != j implies s.push(v)[i]
        != s.push(v)[j] by {
        if i < s.len() && j < s.len() {
            assert(s[i] == s.push(v)[i] && s[j] == s.push(v)[j]);
        } else if i < s.len() {
            assert(s.contains(s[i]) && s.push(v)[j] == v);
        } else {
            assert(s.contains(s[j]) && s.push(v)[i] == v);
        }
    }
}

} // verus!
