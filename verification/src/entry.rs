//! The per-opening accumulator and its merge rules: counts and outcome
//! histograms add as true sums, the ECO code and URL are sticky (a
//! recorded non-empty value is never overwritten by an empty one), and the
//! running accuracy is the pairwise average of the two sides.

use vstd::prelude::*;

use crate::results::{hist_get, hist_merge, GameResult};

verus! {

/// The abstract value of a per-opening accumulator.
#[verifier::ext_equal]
pub struct EntryV {
    pub count: int,
    pub eco: Seq<char>,
    pub eco_url: Seq<char>,
    pub results: Map<Seq<char>, u32>,
    pub average_accuracy: Option<u64>,
}

/// How two optional accuracy values combine: both present gives their
/// arithmetic mean (of the current average and the new value, not a
/// count-weighted running mean — a deliberately preserved behaviour that
/// drifts from the true mean); one present keeps it; none stays none.
pub open spec fn merge_accuracy(a: Option<u64>, b: Option<u64>) -> Option<u64> {
    match (a, b) {
        (Some(x), Some(y)) => Some(((x + y) / 2) as u64),
        (Some(x), None) => Some(x),
        (None, Some(y)) => Some(y),
        (None, None) => None,
    }
}

/// The merge of an incoming accumulator with an existing one: counts and
/// histograms sum, `eco` and `eco_url` keep the incoming value unless it
/// is empty, and the accuracies combine by [`merge_accuracy`].
pub open spec fn spec_merge_entry(incoming: EntryV, existing: EntryV) -> EntryV {
    (EntryV {
        count: incoming.count + existing.count,
        eco: if incoming.eco.len() == 0 {
            existing.eco
        } else {
            incoming.eco
        },
        eco_url: if incoming.eco_url.len() == 0 {
            existing.eco_url
        } else {
            incoming.eco_url
        },
        results: hist_merge(incoming.results, existing.results),
        average_accuracy: merge_accuracy(incoming.average_accuracy, existing.average_accuracy),
    })
}

/// The per-opening accumulator: how many games were folded in, the ECO
/// code and URL of the opening (empty until observed), the outcome
/// histogram, and the optional running accuracy. An accuracy is held in
/// fixed point with 32 fractional bits — the score `s` as `s * 2^32` — so
/// whole scores and every binary fraction of a score are exact.
pub struct Entry {
    pub count: u32,
    pub eco: String,
    pub eco_url: String,
    pub results: GameResult,
    pub average_accuracy: Option<u64>,
}

impl View for Entry {
    type V = EntryV;

    open spec fn view(&self) -> EntryV {
        (EntryV {
            count: self.count as int,
            eco: self.eco@,
            eco_url: self.eco_url@,
            results: self.results@,
            average_accuracy: self.average_accuracy,
        })
    }
}

impl Entry {
    /// At least one game was folded in, and the count equals the total of
    /// the outcome histogram.
    pub open spec fn wf(&self) -> bool {
        &&& self.results.wf()
        &&& self.count as int == self.results.total()
        &&& self.count >= 1
    }
}

/// The midpoint of two fixed-point accuracy values, rounded down.
fn accuracy_midpoint(a: u64, b: u64) -> (r: u64)
    ensures
        r as int == (a + b) / 2,
{
    let wide: u128 = ((a as u128) + (b as u128)) / 2;
    proof {
        assert(wide <= u64::MAX as u128);
    }
    wide as u64
}

impl Entry {
    /// Folds `other` into this accumulator, field by field, as
    /// [`spec_merge_entry`] describes with `self` as the incoming side.
    pub fn merge(&mut self, other: &Entry)
        requires
            old(self).wf(),
            other.wf(),
            old(self).count + other.count <= u32::MAX,
        ensures
            final(self).wf(),
            final(self)@ == spec_merge_entry(old(self)@, other@),
            // per outcome, the merged histogram is the exact sum
            forall|k: Seq<char>| #[trigger]
                final(self).results@.contains_key(k) ==> final(self).results@[k] == hist_get(
                    old(self).results@,
                    k,
                ) + hist_get(other.results@, k),
    {
        self.count = self.count + other.count;
        if self.eco.as_str().is_empty() {
            self.eco = other.eco.clone();
        }
        if self.eco_url.as_str().is_empty() {
            self.eco_url = other.eco_url.clone();
        }
        self.results.merge(&other.results);
        self.average_accuracy = match (self.average_accuracy, other.average_accuracy) {
            (Some(a), Some(b)) => Some(accuracy_midpoint(a, b)),
            (Some(a), None) => Some(a),
            (None, Some(b)) => Some(b),
            (None, None) => None,
        };
        proof {
            assert(self@ =~= spec_merge_entry(old(self)@, other@));
        }
    }
}

/// The aggregator's entry point: seeds a new opening when no accumulator
/// exists yet, and otherwise merges the incoming record into the existing
/// one. With no existing entry the incoming entry is returned unchanged.
pub fn merge_entry(existing: Option<&Entry>, incoming: Entry) -> (r: Entry)
    requires
        incoming.wf(),
        (match existing {
            Some(e) => e.wf() && incoming.count + e.count <= u32::MAX,
            None => true,
        }),
    ensures
        r.wf(),
        (match existing {
            None => r == incoming,
            Some(e) => r@ == spec_merge_entry(incoming@, e@),
        }),
{
    match existing {
        None => incoming,
        Some(e) => {
            let mut r = incoming;
            r.merge(e);
            r
        },
    }
}

/// A recorded non-empty ECO code or URL is sticky: merging never replaces
/// it with an empty value, whichever side of the merge it stands on, and
/// an empty value is backfilled by the other side's.
pub proof fn lemma_sticky_backfill(a: EntryV, b: EntryV)
    ensures
        a.eco_url.len() == 0 ==> spec_merge_entry(a, b).eco_url == b.eco_url,
        a.eco_url.len() > 0 ==> spec_merge_entry(a, b).eco_url == a.eco_url,
        a.eco_url.len() == 0 ==> spec_merge_entry(b, a).eco_url == b.eco_url,
        a.eco.len() == 0 ==> spec_merge_entry(a, b).eco == b.eco,
        a.eco.len() > 0 ==> spec_merge_entry(a, b).eco == a.eco,
        a.eco.len() == 0 ==> spec_merge_entry(b, a).eco == b.eco,
{
}

/// For the count and the outcome histogram the merge is a true sum, so
/// those fields do not depend on the merge direction. The accuracy field
/// is deliberately left out: the pairwise average is not symmetric in
/// general and not associative, a known drift of the preserved rule.
pub proof fn lemma_merge_count_results_commutative(a: EntryV, b: EntryV)
    ensures
        spec_merge_entry(a, b).count == spec_merge_entry(b, a).count,
        spec_merge_entry(a, b).results == spec_merge_entry(b, a).results,
{
    assert(hist_merge(a.results, b.results) =~= hist_merge(b.results, a.results));
}

/// For the count and the outcome histogram the merge is also associative,
/// as long as the per-outcome sums stay representable. The accuracy field
/// is deliberately left out here too: repeated pairwise averaging depends
/// on the grouping, the known accuracy-drift property of the rule.
pub proof fn lemma_merge_count_results_associative(a: EntryV, b: EntryV, c: EntryV)
    requires
        forall|k: Seq<char>|
            (#[trigger] hist_get(a.results, k)) + hist_get(b.results, k) + hist_get(c.results, k)
                <= u32::MAX,
    ensures
        spec_merge_entry(spec_merge_entry(a, b), c).count == spec_merge_entry(
            a,
            spec_merge_entry(b, c),
        ).count,
        spec_merge_entry(spec_merge_entry(a, b), c).results == spec_merge_entry(
            a,
            spec_merge_entry(b, c),
        ).results,
{
    assert(hist_merge(hist_merge(a.results, b.results), c.results) =~= hist_merge(
        a.results,
        hist_merge(b.results, c.results),
    ));
}

} // verus!
