//! Vectors held in strictly ascending code-point order of a text key, the
//! order in which `serde_json` and ordered maps walk string keys.

use vstd::prelude::*;
use crate::json::{key_less, key_less_text};
use crate::registry::{lemma_key_less_irreflexive, lemma_key_less_total, lemma_key_less_transitive};

verus! {

/// A value found by a text key.
pub trait Keyed {
    spec fn key(&self) -> Seq<char>;

    fn key_text(&self) -> (r: &str)
        ensures
            r@ == self.key(),
    ;
}

/// Keys strictly ascend, so no key occurs twice.
pub open spec fn ascending<T: Keyed>(s: Seq<T>) -> bool {
    forall|i: int, j: int| 0 <= i < j < s.len() ==> key_less((#[trigger] s[i]).key(), (#[trigger] s[j]).key())
}

pub open spec fn has_key<T: Keyed>(s: Seq<T>, k: Seq<char>) -> bool {
    exists|i: int| 0 <= i < s.len() && (#[trigger] s[i]).key() == k
}

/// The position of a key that occurs.
pub open spec fn index_of_key<T: Keyed>(s: Seq<T>, k: Seq<char>) -> int {
    choose|i: int| 0 <= i < s.len() && (#[trigger] s[i]).key() == k
}

/// The element of a key that occurs.
pub open spec fn at_key<T: Keyed>(s: Seq<T>, k: Seq<char>) -> T {
    s[index_of_key(s, k)]
}

/// In ascending order a key sits at one position only.
pub proof fn lemma_key_unique<T: Keyed>(s: Seq<T>, i: int, j: int)
    requires
        ascending(s),
        0 <= i < s.len(),
        0 <= j < s.len(),
        s[i].key() == s[j].key(),
    ensures
        i == j,
{
    if i < j {
        assert(key_less(s[i].key(), s[j].key()));
        lemma_key_less_irreflexive(s[i].key());
    } else if j < i {
        assert(key_less(s[j].key(), s[i].key()));
        lemma_key_less_irreflexive(s[i].key());
    }
}

/// A key that occurs is found at its one position.
pub proof fn lemma_index_of_key<T: Keyed>(s: Seq<T>, i: int)
    requires
        ascending(s),
        0 <= i < s.len(),
    ensures
        has_key(s, s[i].key()),
        index_of_key(s, s[i].key()) == i,
        at_key(s, s[i].key()) == s[i],
{
    let k = s[i].key();
    assert(has_key(s, k));
    let j = index_of_key(s, k);
    lemma_key_unique(s, i, j);
}

/// The position of a key, if it occurs.
pub fn find_key<T: Keyed>(v: &Vec<T>, k: &str) -> (r: Option<usize>)
    requires
        ascending(v@),
    ensures
        r matches Some(i) ==> i < v@.len() && v@[i as int].key() == k@ && index_of_key(v@, k@) == i && has_key(v@, k@),
        r is None ==> !has_key(v@, k@),
{
    let mut i: usize = 0;
    while i < v.len()
        invariant
            i <= v.len(),
            ascending(v@),
            forall|j: int| 0 <= j < i ==> (#[trigger] v@[j]).key() != k@,
        decreases v.len() - i,
    {
        if crate::text::str_eq(v[i].key_text(), k) {
            proof {
                lemma_index_of_key(v@, i as int);
            }
            return Some(i);
        }
        i = i + 1;
    }
    None
}

/// Inserts a value whose key does not occur, at its ordered position.
pub fn insert_keyed<T: Keyed>(v: &mut Vec<T>, x: T)
    requires
        ascending(old(v)@),
        !has_key(old(v)@, x.key()),
    ensures
        ascending(final(v)@),
        exists|p: int| 0 <= p <= old(v)@.len() && final(v)@ == old(v)@.insert(p, x),
        forall|y: T| final(v)@.contains(y) <==> (old(v)@.contains(y) || y == x),
        forall|k: Seq<char>| has_key(final(v)@, k) <==> (has_key(old(v)@, k) || k == x.key()),
{
    let ghost s = v@;
    let mut p: usize = 0;
    while p < v.len() && key_less_text(v[p].key_text(), x.key_text())
        invariant
            p <= v.len(),
            v@ == s,
            ascending(s),
            forall|j: int| 0 <= j < p ==> key_less((#[trigger] s[j]).key(), x.key()),
        decreases v.len() - p,
    {
        p = p + 1;
    }
    proof {
        if p < s.len() {
            assert(!key_less(s[p as int].key(), x.key()));
            assert(s[p as int].key() != x.key());
            lemma_key_less_total(s[p as int].key(), x.key());
        }
    }
    let ghost xk = x.key();
    let ghost xv = x;
    v.insert(p, x);
    let ghost t = v@;
    assert(t == s.insert(p as int, xv));
    assert forall|i: int, j: int| 0 <= i < j < t.len() implies key_less((#[trigger] t[i]).key(), (#[trigger] t[j]).key()) by {
        if j < p {
            assert(t[i] == s[i] && t[j] == s[j]);
        } else if j == p {
            assert(t[i] == s[i]);
        } else if i < p {
            assert(t[i] == s[i] && t[j] == s[j - 1]);
            if p < s.len() {
                assert(key_less(xk, s[p as int].key()));
                if j - 1 > p {
                    lemma_key_less_transitive(xk, s[p as int].key(), s[j - 1].key());
                }
                lemma_key_less_transitive(s[i].key(), xk, s[j - 1].key());
            }
        } else if i == p {
            assert(t[j] == s[j - 1]);
            assert(key_less(xk, s[p as int].key()));
            if j - 1 > p {
                lemma_key_less_transitive(xk, s[p as int].key(), s[j - 1].key());
            }
        } else {
            assert(t[i] == s[i - 1] && t[j] == s[j - 1]);
        }
    }
    assert forall|y: T| t.contains(y) <==> (s.contains(y) || y == xv) by {
        if t.contains(y) {
            let i = choose|i: int| 0 <= i < t.len() && t[i] == y;
            if i < p {
                assert(s[i] == y);
            } else if i > p {
                assert(s[i - 1] == y);
            }
        }
        if s.contains(y) {
            let i = choose|i: int| 0 <= i < s.len() && s[i] == y;
            if i < p {
                assert(t[i] == y);
            } else {
                assert(t[i + 1] == y);
            }
        }
        if y == xv {
            assert(t[p as int] == y);
        }
    }
    assert forall|k: Seq<char>| has_key(t, k) <==> (has_key(s, k) || k == xk) by {
        if has_key(t, k) {
            let i = choose|i: int| 0 <= i < t.len() && (#[trigger] t[i]).key() == k;
            if i < p {
                assert(s[i].key() == k);
            } else if i > p {
                assert(s[i - 1].key() == k);
            }
        }
        if has_key(s, k) {
            let i = choose|i: int| 0 <= i < s.len() && (#[trigger] s[i]).key() == k;
            if i < p {
                assert(t[i].key() == k);
            } else {
                assert(t[i + 1].key() == k);
            }
        }
        if k == xk {
            assert(t[p as int].key() == k);
        }
    }
}

} // verus!
