//! A small string-keyed association vector, the executable form of every
//! map in this library: the tag map of one game, an outcome histogram, and
//! the top-level per-opening summary map.
//!
//! The view of a `StrKeyMap` is a `Map<Seq<char>, _>` obtained by folding
//! the stored pairs from left to right, a later pair overriding an earlier
//! one with the same key. The well-formed maps built by this module keep
//! their keys distinct, so the fold order never matters for them.

use vstd::prelude::*;

verus! {

/// Fold a sequence of key/value pairs into a map, left to right: a later
/// pair with the same key overrides an earlier one.
pub open spec fn insert_all<K, V>(base: Map<K, V>, ps: Seq<(K, V)>) -> Map<K, V>
    decreases ps.len(),
{
    if ps.len() == 0 {
        base
    } else {
        insert_all(base, ps.drop_last()).insert(ps.last().0, ps.last().1)
    }
}

/// No two pairs carry the same key.
pub open spec fn distinct_keys<K, V>(ps: Seq<(K, V)>) -> bool {
    forall|i: int, j: int|
        0 <= i < j < ps.len() ==> (#[trigger] ps[i]).0 != (#[trigger] ps[j]).0
}

/// A key is in the folded map exactly when the base holds it or some pair
/// carries it.
pub proof fn lemma_insert_all_contains<K, V>(base: Map<K, V>, ps: Seq<(K, V)>, k: K)
    ensures
        insert_all(base, ps).contains_key(k) <==> (base.contains_key(k) || exists|i: int|
            0 <= i < ps.len() && (#[trigger] ps[i]).0 == k),
    decreases ps.len(),
{
    if ps.len() > 0 {
        lemma_insert_all_contains(base, ps.drop_last(), k);
        if ps.last().0 == k {
            assert(ps[ps.len() - 1].0 == k);
        } else {
            if exists|i: int| 0 <= i < ps.len() && (#[trigger] ps[i]).0 == k {
                let i = choose|i: int| 0 <= i < ps.len() && (#[trigger] ps[i]).0 == k;
                assert(i < ps.len() - 1);
                assert(ps.drop_last()[i].0 == k);
            }
            if exists|i: int| 0 <= i < ps.drop_last().len() && (#[trigger] ps.drop_last()[i]).0
                == k {
                let i = choose|i: int|
                    0 <= i < ps.drop_last().len() && (#[trigger] ps.drop_last()[i]).0 == k;
                assert(ps[i].0 == k);
            }
        }
    }
}

/// Appending a pair to the sequence inserts it into the folded map.
pub proof fn lemma_insert_all_push<K, V>(base: Map<K, V>, ps: Seq<(K, V)>, p: (K, V))
    ensures
        insert_all(base, ps.push(p)) == insert_all(base, ps).insert(p.0, p.1),
{
    assert(ps.push(p).drop_last() =~= ps);
    assert(ps.push(p).last() == p);
}

/// Folding a concatenation folds the two parts in turn.
pub proof fn lemma_insert_all_append<K, V>(base: Map<K, V>, a: Seq<(K, V)>, b: Seq<(K, V)>)
    ensures
        insert_all(base, a + b) == insert_all(insert_all(base, a), b),
    decreases b.len(),
{
    if b.len() == 0 {
        assert(a + b =~= a);
    } else {
        assert((a + b).drop_last() =~= a + b.drop_last());
        assert((a + b).last() == b.last());
        lemma_insert_all_append(base, a, b.drop_last());
    }
}

/// With distinct keys, every pair is visible in the folded map.
pub proof fn lemma_insert_all_index<K, V>(base: Map<K, V>, ps: Seq<(K, V)>, i: int)
    requires
        0 <= i < ps.len(),
        distinct_keys(ps),
    ensures
        insert_all(base, ps).contains_key(ps[i].0),
        insert_all(base, ps)[ps[i].0] == ps[i].1,
    decreases ps.len(),
{
    if i == ps.len() - 1 {
    } else {
        assert(ps.drop_last()[i] == ps[i]);
        lemma_insert_all_index(base, ps.drop_last(), i);
        assert(ps.last().0 != ps[i].0);
    }
}

/// With distinct keys, replacing the value at one index updates the folded
/// map at that pair's key.
pub proof fn lemma_insert_all_update<K, V>(base: Map<K, V>, ps: Seq<(K, V)>, i: int, v: V)
    requires
        0 <= i < ps.len(),
        distinct_keys(ps),
    ensures
        insert_all(base, ps.update(i, (ps[i].0, v))) == insert_all(base, ps).insert(ps[i].0, v),
    decreases ps.len(),
{
    let k = ps[i].0;
    let qs = ps.update(i, (k, v));
    if i == ps.len() - 1 {
        assert(qs.drop_last() =~= ps.drop_last());
        assert(qs.last() == (k, v));
        assert(insert_all(base, ps.drop_last()).insert(k, ps[i].1).insert(k, v) =~= insert_all(
            base,
            ps.drop_last(),
        ).insert(k, v));
    } else {
        assert(qs.drop_last() =~= ps.drop_last().update(i, (k, v)));
        assert(ps.drop_last()[i] == ps[i]);
        lemma_insert_all_update(base, ps.drop_last(), i, v);
        let last = ps.last();
        assert(qs.last() == last);
        assert(last.0 != k);
        assert(insert_all(base, ps.drop_last()).insert(k, v).insert(last.0, last.1)
            =~= insert_all(base, ps.drop_last()).insert(last.0, last.1).insert(k, v));
    }
}

/// An association vector with `String` keys, viewed as a map from the
/// keys' character sequences to the values' views.
pub struct StrKeyMap<V> {
    pub pairs: Vec<(String, V)>,
}

impl<V: View> StrKeyMap<V> {
    /// The stored pairs, with both components abstracted to their views.
    pub open spec fn kvs(&self) -> Seq<(Seq<char>, V::V)> {
        self.pairs@.map_values(|p: (String, V)| (p.0@, p.1@))
    }

    /// Keys are distinct, so each key denotes one stored pair.
    pub open spec fn wf(&self) -> bool {
        distinct_keys(self.kvs())
    }
}

impl<V: View> View for StrKeyMap<V> {
    type V = Map<Seq<char>, V::V>;

    open spec fn view(&self) -> Map<Seq<char>, V::V> {
        insert_all(Map::empty(), self.kvs())
    }
}

impl<V: View> StrKeyMap<V> {
    pub fn new() -> (r: Self)
        ensures
            r.wf(),
            r@ == Map::<Seq<char>, V::V>::empty(),
            r.pairs@.len() == 0,
    {
        let r = StrKeyMap { pairs: Vec::new() };
        proof {
            assert(r.kvs() =~= Seq::<(Seq<char>, V::V)>::empty());
        }
        r
    }

    /// Looks the key up; the reference handed back is one of the stored
    /// values.
    pub fn get<'a>(&'a self, key: &str) -> (r: Option<&'a V>)
        requires
            self.wf(),
        ensures
            (match r {
                Some(v) => self@.contains_key(key@) && v@ == self@[key@] && (exists|i: int|
                    0 <= i < self.pairs@.len() && (#[trigger] self.pairs@[i]).0@ == key@ && *v
                        == self.pairs@[i].1),
                None => !self@.contains_key(key@),
            }),
    {
        let k: String = key.to_owned();
        let n: usize = self.pairs.len();
        let mut i: usize = 0;
        while i < n
            invariant
                n == self.pairs@.len(),
                0 <= i <= n,
                self.wf(),
                k@ == key@,
                forall|j: int| 0 <= j < i ==> (#[trigger] self.pairs@[j]).0@ != key@,
            decreases n - i,
        {
            if self.pairs[i].0 == k {
                proof {
                    assert(self.kvs()[i as int].0 == key@);
                    lemma_insert_all_index(Map::<Seq<char>, V::V>::empty(), self.kvs(), i as int);
                }
                return Some(&self.pairs[i].1);
            }
            i = i + 1;
        }
        proof {
            lemma_insert_all_contains(Map::<Seq<char>, V::V>::empty(), self.kvs(), key@);
            assert(forall|j: int|
                0 <= j < self.kvs().len() ==> (#[trigger] self.kvs()[j]).0 != key@);
        }
        None
    }

    /// Inserts the pair, replacing the stored value if the key is already
    /// present.
    pub fn insert(&mut self, key: String, value: V)
        requires
            old(self).wf(),
        ensures
            final(self).wf(),
            final(self)@ == old(self)@.insert(key@, value@),
            ({
                ||| (exists|j: int|
                    0 <= j < old(self).pairs@.len() && (#[trigger] old(self).pairs@[j]).0@ == key@
                        && final(self).pairs@ == old(self).pairs@.update(j, (key, value)))
                ||| (!old(self)@.contains_key(key@) && final(self).pairs@ == old(self).pairs@.push(
                    (key, value),
                ))
            }),
    {
        let n: usize = self.pairs.len();
        let mut i: usize = 0;
        while i < n
            invariant
                n == self.pairs@.len(),
                0 <= i <= n,
                self.wf(),
                *self == *old(self),
                forall|j: int| 0 <= j < i ==> (#[trigger] self.pairs@[j]).0@ != key@,
            decreases n - i,
        {
            if self.pairs[i].0 == key {
                proof {
                    let ghost old_kvs = self.kvs();
                    lemma_insert_all_update(
                        Map::<Seq<char>, V::V>::empty(),
                        old_kvs,
                        i as int,
                        value@,
                    );
                }
                let ghost j = i as int;
                self.pairs[i] = (key, value);
                proof {
                    assert(self.pairs@ == old(self).pairs@.update(j, (key, value)));
                    assert(self.kvs() =~= old(self).kvs().update(j, (key@, value@)));
                    assert(old(self).kvs()[j].0 == key@);
                    assert(old(self).kvs().update(j, (key@, value@)) =~= old(self).kvs().update(
                        j,
                        (old(self).kvs()[j].0, value@),
                    ));
                    assert forall|a: int, b: int| 0 <= a < b < self.kvs().len() implies (
                    #[trigger] self.kvs()[a]).0 != (#[trigger] self.kvs()[b]).0 by {
                        assert(old(self).kvs()[a].0 != old(self).kvs()[b].0);
                    }
                }
                return;
            }
            i = i + 1;
        }
        proof {
            lemma_insert_all_contains(Map::<Seq<char>, V::V>::empty(), self.kvs(), key@);
            assert(forall|j: int|
                0 <= j < self.kvs().len() ==> (#[trigger] self.kvs()[j]).0 != key@);
            lemma_insert_all_push(Map::<Seq<char>, V::V>::empty(), self.kvs(), (key@, value@));
        }
        self.pairs.push((key, value));
        proof {
            assert(self.kvs() =~= old(self).kvs().push((key@, value@)));
            assert forall|a: int, b: int| 0 <= a < b < self.kvs().len() implies (
            #[trigger] self.kvs()[a]).0 != (#[trigger] self.kvs()[b]).0 by {
                if b < self.kvs().len() - 1 {
                    assert(old(self).kvs()[a].0 != old(self).kvs()[b].0);
                } else {
                    assert(old(self).kvs()[a].0 != key@);
                }
            }
        }
    }
}

} // verus!
