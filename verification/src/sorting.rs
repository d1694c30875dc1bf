//! Stable sorting of records by a text key (projects by id, manifests by start
//! time, media by path) or by a number (audit entries by the instant they denote).
use vstd::prelude::*;
use crate::text::{text_less, str_less, lemma_text_less_irreflexive, lemma_text_less_total, lemma_text_less_transitive};

verus! {

/// A record ordered by one of its texts.
pub trait TextKey {
    spec fn key(&self) -> Seq<char>;

    fn key_str(&self) -> (r: &str)
        ensures
            r@ == self.key();
}

/// Key `a` sorts strictly before key `b`: in increasing text order, or in
/// decreasing order when `descending`.
pub open spec fn precedes(a: Seq<char>, b: Seq<char>, descending: bool) -> bool {
    if descending {
        text_less(b, a)
    } else {
        text_less(a, b)
    }
}

/// `precedes` is a strict total order.
pub proof fn lemma_precedes_order(a: Seq<char>, b: Seq<char>, c: Seq<char>, descending: bool)
    ensures
        !precedes(a, a, descending),
        a != b ==> precedes(a, b, descending) || precedes(b, a, descending),
        !(precedes(a, b, descending) && precedes(b, a, descending)),
        precedes(a, b, descending) && precedes(b, c, descending) ==> precedes(a, c, descending),
{
    lemma_text_less_irreflexive(a);
    lemma_text_less_total(a, b);
    if precedes(a, b, descending) && precedes(b, c, descending) {
        if descending {
            lemma_text_less_transitive(c, b, a);
        } else {
            lemma_text_less_transitive(a, b, c);
        }
    }
}

/// `r` holds the records of `v`, each once, in the order `perm` picks them:
/// ordered by key, and records with equal keys in their order in `v`.
pub open spec fn stably_sorted<T: TextKey>(v: Seq<T>, r: Seq<T>, perm: Seq<int>, descending: bool) -> bool {
    &&& r.len() == v.len()
    &&& perm.len() == v.len()
    &&& forall|k: int| 0 <= k < r.len() ==> 0 <= #[trigger] perm[k] < v.len() && r[k] == v[perm[k]]
    &&& forall|k: int, l: int| 0 <= k < l < r.len() ==> #[trigger] perm[k] != #[trigger] perm[l]
    &&& forall|k: int, l: int| 0 <= k < l < r.len() ==> !precedes(#[trigger] r[l].key(), #[trigger] r[k].key(), descending)
    &&& forall|k: int, l: int| 0 <= k < l < r.len() && #[trigger] r[k].key() == #[trigger] r[l].key() ==> perm[k] < perm[l]
}

fn precedes_exec(a: &str, b: &str, descending: bool) -> (r: bool)
    ensures
        r == precedes(a@, b@, descending),
{
    if descending {
        str_less(b, a)
    } else {
        str_less(a, b)
    }
}

/// Sorts records by key, keeping records with equal keys in their order (an
/// insertion sort).
pub fn stable_sort_by_key<T: TextKey>(v: Vec<T>, descending: bool) -> (r: Vec<T>)
    ensures
        exists|perm: Seq<int>| stably_sorted(v@, r@, perm, descending),
{
    let ghost orig = v@;
    let mut r: Vec<T> = Vec::new();
    let ghost mut perm: Seq<int> = Seq::empty();
    let mut rest = v;
    let n = rest.len();
    let mut i: usize = 0;
    assert(orig.skip(0) =~= orig);
    while i < n
        invariant
            n == orig.len(),
            i <= n,
            rest@ == orig.skip(i as int),
            r@.len() == i,
            perm.len() == i,
            forall|k: int| 0 <= k < i ==> 0 <= #[trigger] perm[k] < i && r@[k] == orig[perm[k]],
            forall|k: int, l: int| 0 <= k < l < i ==> #[trigger] perm[k] != #[trigger] perm[l],
            forall|k: int, l: int| 0 <= k < l < i ==> !precedes(#[trigger] r@[l].key(), #[trigger] r@[k].key(), descending),
            forall|k: int, l: int| 0 <= k < l < i && #[trigger] r@[k].key() == #[trigger] r@[l].key() ==> perm[k] < perm[l],
        decreases n - i,
    {
        let e = rest.remove(0);
        assert(e == orig[i as int]);
        assert(rest@ =~= orig.skip(i + 1));
        let mut p: usize = 0;
        while p < r.len() && !precedes_exec(e.key_str(), r[p].key_str(), descending)
            invariant
                p <= r@.len(),
                forall|q: int| 0 <= q < p ==> !precedes(e.key(), (#[trigger] r@[q]).key(), descending),
            decreases r@.len() - p,
        {
            p = p + 1;
        }
        let ghost old_r = r@;
        let ghost old_perm = perm;
        let ghost ek = e.key();
        proof {
            // Every record from `p` on sorts after `e`.
            assert forall|q: int| p <= q < old_r.len() implies precedes(ek, (#[trigger] old_r[q]).key(), descending) by {
                if q > p {
                    lemma_precedes_order(ek, old_r[p as int].key(), old_r[q].key(), descending);
                    lemma_precedes_order(old_r[p as int].key(), old_r[q].key(), ek, descending);
                }
            }
            perm = old_perm.insert(p as int, i as int);
        }
        r.insert(p, e);
        proof {
            assert forall|k: int| 0 <= k < i + 1 implies 0 <= #[trigger] perm[k] < i + 1 && r@[k] == orig[perm[k]] by {
                if k < p {
                    assert(perm[k] == old_perm[k] && r@[k] == old_r[k]);
                } else if k > p {
                    assert(perm[k] == old_perm[k - 1] && r@[k] == old_r[k - 1]);
                }
            }
            assert forall|k: int, l: int| 0 <= k < l < i + 1 implies #[trigger] perm[k] != #[trigger] perm[l] by {
                if l < p {
                } else if l == p {
                    assert(perm[k] == old_perm[k]);
                } else if k < p {
                    assert(perm[k] == old_perm[k] && perm[l] == old_perm[l - 1]);
                } else if k == p {
                    assert(perm[l] == old_perm[l - 1]);
                } else {
                    assert(perm[k] == old_perm[k - 1] && perm[l] == old_perm[l - 1]);
                }
            }
            assert forall|k: int, l: int| 0 <= k < l < i + 1 implies !precedes(#[trigger] r@[l].key(), #[trigger] r@[k].key(), descending) by {
                if l < p {
                    assert(r@[k] == old_r[k] && r@[l] == old_r[l]);
                } else if l == p {
                    assert(r@[k] == old_r[k]);
                } else if k < p {
                    assert(r@[k] == old_r[k] && r@[l] == old_r[l - 1]);
                    lemma_precedes_order(old_r[l - 1].key(), old_r[k].key(), ek, descending);
                    lemma_precedes_order(ek, old_r[l - 1].key(), old_r[k].key(), descending);
                } else if k == p {
                    assert(r@[l] == old_r[l - 1]);
                    lemma_precedes_order(old_r[l - 1].key(), ek, ek, descending);
                } else {
                    assert(r@[k] == old_r[k - 1] && r@[l] == old_r[l - 1]);
                }
            }
            assert forall|k: int, l: int| 0 <= k < l < i + 1 && #[trigger] r@[k].key() == #[trigger] r@[l].key() implies perm[k] < perm[l] by {
                if l < p {
                    assert(r@[k] == old_r[k] && r@[l] == old_r[l]);
                } else if l == p {
                    assert(perm[k] == old_perm[k]);
                } else if k < p {
                    assert(r@[k] == old_r[k] && r@[l] == old_r[l - 1]);
                    assert(perm[k] == old_perm[k] && perm[l] == old_perm[l - 1]);
                } else if k == p {
                    assert(r@[l] == old_r[l - 1]);
                    lemma_precedes_order(ek, ek, ek, descending);
                } else {
                    assert(r@[k] == old_r[k - 1] && r@[l] == old_r[l - 1]);
                    assert(perm[k] == old_perm[k - 1] && perm[l] == old_perm[l - 1]);
                }
            }
        }
        i = i + 1;
    }
    assert(stably_sorted(orig, r@, perm, descending));
    r
}

// ---------------------------------------------------------------------------
// By an integer key
// ---------------------------------------------------------------------------

/// A record ordered by a number, such as the instant it was made.
pub trait TimeKey {
    spec fn time_key(&self) -> int;

    fn time_key_exec(&self) -> (r: i128)
        ensures
            r == self.time_key();
}

/// `r` holds the records of `v`, each once, in the order `perm` picks them: by
/// increasing key, and records with equal keys in their order in `v`.
pub open spec fn stably_sorted_by_time<T: TimeKey>(v: Seq<T>, r: Seq<T>, perm: Seq<int>) -> bool {
    &&& r.len() == v.len()
    &&& perm.len() == v.len()
    &&& forall|k: int| 0 <= k < r.len() ==> 0 <= #[trigger] perm[k] < v.len() && r[k] == v[perm[k]]
    &&& forall|k: int, l: int| 0 <= k < l < r.len() ==> #[trigger] perm[k] != #[trigger] perm[l]
    &&& forall|k: int, l: int| 0 <= k < l < r.len() ==> (#[trigger] r[k]).time_key() <= (#[trigger] r[l]).time_key()
    &&& forall|k: int, l: int| 0 <= k < l < r.len() && (#[trigger] r[k]).time_key() == (#[trigger] r[l]).time_key() ==> perm[k] < perm[l]
}

/// Sorts records by increasing key, keeping records with equal keys in their order
/// (an insertion sort).
pub fn stable_sort_by_time<T: TimeKey>(v: Vec<T>) -> (r: Vec<T>)
    ensures
        exists|perm: Seq<int>| stably_sorted_by_time(v@, r@, perm),
{
    let ghost orig = v@;
    let mut r: Vec<T> = Vec::new();
    let ghost mut perm: Seq<int> = Seq::empty();
    let mut rest = v;
    let n = rest.len();
    let mut i: usize = 0;
    assert(orig.skip(0) =~= orig);
    while i < n
        invariant
            n == orig.len(),
            i <= n,
            rest@ == orig.skip(i as int),
            r@.len() == i,
            perm.len() == i,
            forall|k: int| 0 <= k < i ==> 0 <= #[trigger] perm[k] < i && r@[k] == orig[perm[k]],
            forall|k: int, l: int| 0 <= k < l < i ==> #[trigger] perm[k] != #[trigger] perm[l],
            forall|k: int, l: int| 0 <= k < l < i ==> (#[trigger] r@[k]).time_key() <= (#[trigger] r@[l]).time_key(),
            forall|k: int, l: int| 0 <= k < l < i && (#[trigger] r@[k]).time_key() == (#[trigger] r@[l]).time_key() ==> perm[k] < perm[l],
        decreases n - i,
    {
        let e = rest.remove(0);
        assert(e == orig[i as int]);
        assert(rest@ =~= orig.skip(i + 1));
        let ek_exec = e.time_key_exec();
        let mut p: usize = 0;
        while p < r.len() && r[p].time_key_exec() <= ek_exec
            invariant
                p <= r@.len(),
                ek_exec == e.time_key(),
                forall|q: int| 0 <= q < p ==> (#[trigger] r@[q]).time_key() <= e.time_key(),
            decreases r@.len() - p,
        {
            p = p + 1;
        }
        let ghost old_r = r@;
        let ghost old_perm = perm;
        let ghost ek = e.time_key();
        proof {
            assert forall|q: int| p <= q < old_r.len() implies ek < (#[trigger] old_r[q]).time_key() by {
                if q > p {
                    assert(old_r[p as int].time_key() <= old_r[q].time_key());
                }
            }
            perm = old_perm.insert(p as int, i as int);
        }
        r.insert(p, e);
        proof {
            assert forall|k: int| 0 <= k < i + 1 implies 0 <= #[trigger] perm[k] < i + 1 && r@[k] == orig[perm[k]] by {
                if k < p {
                    assert(perm[k] == old_perm[k] && r@[k] == old_r[k]);
                } else if k > p {
                    assert(perm[k] == old_perm[k - 1] && r@[k] == old_r[k - 1]);
                }
            }
            assert forall|k: int, l: int| 0 <= k < l < i + 1 implies #[trigger] perm[k] != #[trigger] perm[l] by {
                if l < p {
                } else if l == p {
                    assert(perm[k] == old_perm[k]);
                } else if k < p {
                    assert(perm[k] == old_perm[k] && perm[l] == old_perm[l - 1]);
                } else if k == p {
                    assert(perm[l] == old_perm[l - 1]);
                } else {
                    assert(perm[k] == old_perm[k - 1] && perm[l] == old_perm[l - 1]);
                }
            }
            assert forall|k: int, l: int| 0 <= k < l < i + 1 implies (#[trigger] r@[k]).time_key() <= (#[trigger] r@[l]).time_key() by {
                if l < p {
                    assert(r@[k] == old_r[k] && r@[l] == old_r[l]);
                } else if l == p {
                    assert(r@[k] == old_r[k]);
                } else if k < p {
                    assert(r@[k] == old_r[k] && r@[l] == old_r[l - 1]);
                } else if k == p {
                    assert(r@[l] == old_r[l - 1]);
                } else {
                    assert(r@[k] == old_r[k - 1] && r@[l] == old_r[l - 1]);
                }
            }
            assert forall|k: int, l: int| 0 <= k < l < i + 1 && (#[trigger] r@[k]).time_key() == (#[trigger] r@[l]).time_key() implies perm[k] < perm[l] by {
                if l < p {
                    assert(r@[k] == old_r[k] && r@[l] == old_r[l]);
                } else if l == p {
                    assert(perm[k] == old_perm[k]);
                    assert(r@[k] == old_r[k]);
                } else if k < p {
                    assert(r@[k] == old_r[k] && r@[l] == old_r[l - 1]);
                    assert(perm[k] == old_perm[k] && perm[l] == old_perm[l - 1]);
                } else if k == p {
                    assert(r@[l] == old_r[l - 1]);
                } else {
                    assert(r@[k] == old_r[k - 1] && r@[l] == old_r[l - 1]);
                    assert(perm[k] == old_perm[k - 1] && perm[l] == old_perm[l - 1]);
                }
            }
        }
        i = i + 1;
    }
    assert(stably_sorted_by_time(orig, r@, perm));
    r
}

} // verus!
