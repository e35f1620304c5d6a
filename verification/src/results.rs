//! The per-opening outcome histogram: a map from outcome token (`"win"`,
//! `"resigned"`, ...) to the number of games that ended that way. Only
//! outcomes that have occurred are stored, each with a count of at least
//! one, and merging histograms sums the counts per outcome.

use vstd::prelude::*;

use crate::kvmap::{lemma_insert_all_contains, lemma_insert_all_index, StrKeyMap};

verus! {

/// The count recorded for an outcome, zero when the outcome is absent.
pub open spec fn hist_get(m: Map<Seq<char>, u32>, k: Seq<char>) -> int {
    if m.contains_key(k) {
        m[k] as int
    } else {
        0
    }
}

/// The histogram holding, for every outcome of either side, the sum of the
/// two counts.
pub open spec fn hist_merge(a: Map<Seq<char>, u32>, b: Map<Seq<char>, u32>) -> Map<
    Seq<char>,
    u32,
> {
    Map::new(
        |k: Seq<char>| a.contains_key(k) || b.contains_key(k),
        |k: Seq<char>| (hist_get(a, k) + hist_get(b, k)) as u32,
    )
}

/// The sum of the stored counts.
pub open spec fn sum_vals(ps: Seq<(String, u32)>) -> int
    decreases ps.len(),
{
    if ps.len() == 0 {
        0
    } else {
        sum_vals(ps.drop_last()) + ps.last().1
    }
}

proof fn lemma_sum_vals_nonneg(ps: Seq<(String, u32)>)
    ensures
        sum_vals(ps) >= 0,
    decreases ps.len(),
{
    if ps.len() > 0 {
        lemma_sum_vals_nonneg(ps.drop_last());
    }
}

proof fn lemma_val_le_sum(ps: Seq<(String, u32)>, i: int)
    requires
        0 <= i < ps.len(),
    ensures
        ps[i].1 <= sum_vals(ps),
    decreases ps.len(),
{
    if i == ps.len() - 1 {
        lemma_sum_vals_nonneg(ps.drop_last());
    } else {
        assert(ps.drop_last()[i] == ps[i]);
        lemma_val_le_sum(ps.drop_last(), i);
    }
}

proof fn lemma_sum_vals_update(ps: Seq<(String, u32)>, i: int, p: (String, u32))
    requires
        0 <= i < ps.len(),
    ensures
        sum_vals(ps.update(i, p)) == sum_vals(ps) - ps[i].1 + p.1,
    decreases ps.len(),
{
    let qs = ps.update(i, p);
    if i == ps.len() - 1 {
        assert(qs.drop_last() =~= ps.drop_last());
        assert(qs.last() == p);
    } else {
        assert(qs.drop_last() =~= ps.drop_last().update(i, p));
        assert(ps.drop_last()[i] == ps[i]);
        lemma_sum_vals_update(ps.drop_last(), i, p);
        assert(qs.last() == ps.last());
    }
}

proof fn lemma_sum_vals_push(ps: Seq<(String, u32)>, p: (String, u32))
    ensures
        sum_vals(ps.push(p)) == sum_vals(ps) + p.1,
{
    assert(ps.push(p).drop_last() =~= ps);
    assert(ps.push(p).last() == p);
}

/// A game-outcome histogram. Its view maps each stored outcome token to
/// its count.
pub struct GameResult {
    pub map: StrKeyMap<u32>,
}

impl View for GameResult {
    type V = Map<Seq<char>, u32>;

    open spec fn view(&self) -> Map<Seq<char>, u32> {
        self.map@
    }
}

impl GameResult {
    /// Keys are distinct and every stored outcome has occurred at least
    /// once.
    pub open spec fn wf(&self) -> bool {
        &&& self.map.wf()
        &&& forall|i: int|
            0 <= i < self.map.pairs@.len() ==> (#[trigger] self.map.pairs@[i]).1 >= 1
    }

    /// The total number of games recorded, over all outcomes.
    pub open spec fn total(&self) -> int {
        sum_vals(self.map.pairs@)
    }

    /// A histogram recording one single outcome.
    pub fn singleton(outcome: String) -> (r: GameResult)
        ensures
            r.wf(),
            r@ == Map::<Seq<char>, u32>::empty().insert(outcome@, 1u32),
            r.total() == 1,
    {
        let mut map: StrKeyMap<u32> = StrKeyMap::new();
        let ghost empty_pairs = map.pairs@;
        map.insert(outcome, 1);
        proof {
            assert(map.pairs@ == empty_pairs.push((outcome, 1u32)));
            lemma_sum_vals_push(empty_pairs, (outcome, 1u32));
        }
        GameResult { map }
    }

    /// Records `v` further games that ended with `outcome`.
    fn add_count(&mut self, outcome: &String, v: u32)
        requires
            old(self).wf(),
            v >= 1,
            old(self).total() + v <= u32::MAX,
        ensures
            final(self).wf(),
            final(self)@ == old(self)@.insert(
                outcome@,
                ((hist_get(old(self)@, outcome@) + v) as u32),
            ),
            final(self)@[outcome@] == hist_get(old(self)@, outcome@) + v,
            final(self).total() == old(self).total() + v,
            forall|k: Seq<char>|
                final(self)@.contains_key(k) <==> (old(self)@.contains_key(k) || k == outcome@),
            forall|k: Seq<char>|
                final(self)@.contains_key(k) && k != outcome@ ==> final(self)@[k] == old(
                    self,
                )@[k],
    {
        let cur: u32 = match self.map.get(outcome.as_str()) {
            Some(c) => {
                proof {
                    let i = choose|i: int|
                        0 <= i < self.map.pairs@.len() && (#[trigger] self.map.pairs@[i]).0@
                            == outcome@ && *c == self.map.pairs@[i].1;
                    lemma_val_le_sum(self.map.pairs@, i);
                }
                *c
            },
            None => 0,
        };
        let new_key: String = outcome.clone();
        let new_val: u32 = cur + v;
        let ghost old_pairs = self.map.pairs@;
        self.map.insert(new_key, new_val);
        proof {
            assert(hist_get(old(self)@, outcome@) == cur as int);
            if old(self)@.contains_key(outcome@) {
                // the key was stored once; the insert replaced that pair
                let j = choose|j: int|
                    0 <= j < old_pairs.len() && (#[trigger] old_pairs[j]).0@ == outcome@
                        && self.map.pairs@ == old_pairs.update(j, (new_key, new_val));
                assert(old(self).map.kvs()[j].0 == outcome@);
                lemma_insert_all_index(Map::<Seq<char>, u32>::empty(), old(self).map.kvs(), j);
                assert(old_pairs[j].1 == old(self)@[outcome@]);
                lemma_sum_vals_update(old_pairs, j, (new_key, new_val));
                assert forall|i: int| 0 <= i < self.map.pairs@.len() implies (
                #[trigger] self.map.pairs@[i]).1 >= 1 by {
                    if i != j {
                        assert(self.map.pairs@[i] == old_pairs[i]);
                    }
                }
            } else {
                assert forall|j: int| 0 <= j < old_pairs.len() implies (#[trigger] old_pairs[j]).0@
                    != outcome@ by {
                    if old_pairs[j].0@ == outcome@ {
                        assert(old(self).map.kvs()[j].0 == outcome@);
                        lemma_insert_all_index(
                            Map::<Seq<char>, u32>::empty(),
                            old(self).map.kvs(),
                            j,
                        );
                    }
                }
                assert(self.map.pairs@ == old_pairs.push((new_key, new_val)));
                lemma_sum_vals_push(old_pairs, (new_key, new_val));
                assert forall|i: int| 0 <= i < self.map.pairs@.len() implies (
                #[trigger] self.map.pairs@[i]).1 >= 1 by {
                    if i < old_pairs.len() {
                        assert(self.map.pairs@[i] == old_pairs[i]);
                    }
                }
            }
        }
    }

    /// Folds `other` into this histogram: for every outcome the counts are
    /// summed; an outcome present on one side only keeps its count.
    pub fn merge(&mut self, other: &GameResult)
        requires
            old(self).wf(),
            other.wf(),
            old(self).total() + other.total() <= u32::MAX,
        ensures
            final(self).wf(),
            final(self).total() == old(self).total() + other.total(),
            forall|k: Seq<char>|
                final(self)@.contains_key(k) <==> (old(self)@.contains_key(k)
                    || other@.contains_key(k)),
            forall|k: Seq<char>| #[trigger]
                final(self)@.contains_key(k) ==> final(self)@[k] == hist_get(old(self)@, k)
                    + hist_get(other@, k),
            final(self)@ == hist_merge(old(self)@, other@),
    {
        let n: usize = other.map.pairs.len();
        let mut i: usize = 0;
        proof {
            assert(other.map.pairs@.take(0) =~= Seq::<(String, u32)>::empty());
            lemma_sum_vals_nonneg(other.map.pairs@);
        }
        while i < n
            invariant
                n == other.map.pairs@.len(),
                0 <= i <= n,
                self.wf(),
                other.wf(),
                old(self).total() + other.total() <= u32::MAX,
                self.total() == old(self).total() + sum_vals(other.map.pairs@.take(i as int)),
                sum_vals(other.map.pairs@.take(i as int)) <= other.total(),
                forall|k: Seq<char>|
                    self@.contains_key(k) <==> (old(self)@.contains_key(k) || exists|j: int|
                        0 <= j < i && (#[trigger] other.map.pairs@[j]).0@ == k),
                forall|j: int|
                    0 <= j < i ==> self@.contains_key((#[trigger] other.map.pairs@[j]).0@)
                        && self@[other.map.pairs@[j].0@] == hist_get(
                        old(self)@,
                        other.map.pairs@[j].0@,
                    ) + other.map.pairs@[j].1,
                forall|k: Seq<char>| #[trigger]
                    self@.contains_key(k) && !(exists|j: int|
                        0 <= j < i && (#[trigger] other.map.pairs@[j]).0@ == k) ==> old(
                        self,
                    )@.contains_key(k) && self@[k] == old(self)@[k],
            decreases n - i,
        {
            let ghost pre = *self;
            let p_key: &String = &other.map.pairs[i].0;
            let p_val: u32 = other.map.pairs[i].1;
            proof {
                lemma_val_le_sum(other.map.pairs@, i as int);
                assert(other.map.pairs@.take(i as int + 1).drop_last() =~= other.map.pairs@.take(
                    i as int,
                ));
                assert(sum_vals(other.map.pairs@.take(i as int + 1)) == sum_vals(
                    other.map.pairs@.take(i as int),
                ) + p_val);
                lemma_take_sum_le(other.map.pairs@, i as int + 1);
                // the key has not been processed yet: keys of `other` are distinct
                assert forall|j: int| 0 <= j < i implies (#[trigger] other.map.pairs@[j]).0@
                    != p_key@ by {
                    assert(other.map.kvs()[j].0 == other.map.pairs@[j].0@);
                    assert(other.map.kvs()[i as int].0 == p_key@);
                }
            }
            self.add_count(p_key, p_val);
            i = i + 1;
            proof {
                assert forall|j: int| 0 <= j < i implies self@.contains_key(
                    (#[trigger] other.map.pairs@[j]).0@,
                ) && self@[other.map.pairs@[j].0@] == hist_get(old(self)@, other.map.pairs@[j].0@)
                    + other.map.pairs@[j].1 by {
                    if j < i - 1 {
                        assert(other.map.kvs()[j].0 != other.map.kvs()[i - 1].0);
                        assert(pre@.contains_key(other.map.pairs@[j].0@));
                    }
                }
            }
        }
        proof {
            assert(other.map.pairs@.take(n as int) =~= other.map.pairs@);
            assert forall|k: Seq<char>| #[trigger] other@.contains_key(k) implies (exists|j: int|
                0 <= j < n && (#[trigger] other.map.pairs@[j]).0@ == k) by {
                lemma_insert_all_contains(Map::<Seq<char>, u32>::empty(), other.map.kvs(), k);
                let j = choose|j: int| 0 <= j < other.map.kvs().len() && (#[trigger] other.map.kvs()[j]).0 == k;
                assert(other.map.pairs@[j].0@ == k);
            }
            assert forall|k: Seq<char>| #[trigger] self@.contains_key(k) implies self@[k]
                == hist_get(old(self)@, k) + hist_get(other@, k) by {
                if exists|j: int| 0 <= j < n && (#[trigger] other.map.pairs@[j]).0@ == k {
                    let j = choose|j: int|
                        0 <= j < n && (#[trigger] other.map.pairs@[j]).0@ == k;
                    assert(other.map.kvs()[j].0 == k);
                    lemma_insert_all_index(Map::<Seq<char>, u32>::empty(), other.map.kvs(), j);
                    assert(other@[k] == other.map.pairs@[j].1);
                }
            }
            assert forall|k: Seq<char>| #[trigger] other@.contains_key(k) implies self@.contains_key(k) by {
                lemma_insert_all_contains(Map::<Seq<char>, u32>::empty(), other.map.kvs(), k);
                let j = choose|j: int| 0 <= j < other.map.kvs().len() && (#[trigger] other.map.kvs()[j]).0 == k;
                assert(other.map.pairs@[j].0@ == k);
            }
            assert(self@ =~= hist_merge(old(self)@, other@));
        }
    }
}

proof fn lemma_take_sum_le(ps: Seq<(String, u32)>, i: int)
    requires
        0 <= i <= ps.len(),
    ensures
        sum_vals(ps.take(i)) <= sum_vals(ps),
    decreases ps.len() - i,
{
    if i == ps.len() {
        assert(ps.take(i) =~= ps);
    } else {
        assert(ps.take(i + 1).drop_last() =~= ps.take(i));
        assert(ps.take(i + 1).last() == ps[i]);
        lemma_take_sum_le(ps, i + 1);
    }
}

} // verus!
