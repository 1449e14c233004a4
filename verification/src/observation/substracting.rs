//! The difference of two observation records.

use crate::Rinex;
use crate::assoc::Ordered;
use crate::assoc::has_key;
use crate::assoc::lemma_put_lookup;
use crate::assoc::lemma_put_sorted;
use crate::assoc::lemma_rank_bounds;
use crate::assoc::lemma_rank_of_member;
use crate::assoc::lookup;
use crate::assoc::put;
use crate::assoc::rank;
use crate::assoc::sorted;
use crate::observation::ObservationData;
use crate::observation::record::ObservationKeyView;
use crate::observation::record::Observations;
use crate::observation::record::ObservationsView;
use crate::observation::record::Record;
use crate::observation::record::RecordEntry;
use crate::observation::record::RecordEntryView;
use crate::observation::record::RecordView;
use vstd::prelude::*;

verus! {

/// The difference of two numbers, held to the range of 64 bits.
pub open spec fn held_difference(a: i64, b: i64) -> i64 {
    if a - b > i64::MAX {
        i64::MAX
    } else if a - b < i64::MIN {
        i64::MIN
    } else {
        (a - b) as i64
    }
}

/// The difference of two numbers, held to the range of 64 bits.
pub fn difference(a: i64, b: i64) -> (r: i64)
    ensures
        r == held_difference(a, b),
{
    let wide: i128 = a as i128 - b as i128;
    if wide > i64::MAX as i128 {
        i64::MAX
    } else if wide < i64::MIN as i128 {
        i64::MIN
    } else {
        wide as i64
    }
}

/// The sum of two numbers, held to the range of 64 bits.
pub open spec fn held_sum(a: i64, b: i64) -> i64 {
    if a + b > i64::MAX {
        i64::MAX
    } else if a + b < i64::MIN {
        i64::MIN
    } else {
        (a + b) as i64
    }
}

impl ObservationData {
    /// The observation with the value of `rhs` added to its own; the
    /// indications stay. A sum that 64 bits cannot hold is held to their
    /// range.
    pub fn add(self, rhs: ObservationData) -> (r: ObservationData)
        ensures
            r == (ObservationData {
                value: held_sum(self.value, rhs.value),
                lli: self.lli,
                snr: self.snr,
            }),
    {
        let wide: i128 = self.value as i128 + rhs.value as i128;
        let value: i64 = if wide > i64::MAX as i128 {
            i64::MAX
        } else if wide < i64::MIN as i128 {
            i64::MIN
        } else {
            wide as i64
        };
        ObservationData { value, lli: self.lli, snr: self.snr }
    }
}

/// An observation less a reference: the values are substracted, the
/// indications stay.
pub open spec fn less(d: ObservationData, reference: ObservationData) -> ObservationData {
    ObservationData { value: held_difference(d.value, reference.value), lli: d.lli, snr: d.snr }
}

/// The first `n` observations of `lhs`, each less what `rhs` holds for
/// the same vehicle and observable; those for which `rhs` holds nothing
/// are left out.
pub open spec fn substract_observations(
    lhs: ObservationsView,
    rhs: ObservationsView,
    n: nat,
) -> ObservationsView
    decreases n,
{
    if n == 0 {
        Seq::empty()
    } else {
        let prev = substract_observations(lhs, rhs, (n - 1) as nat);
        match lookup(rhs, lhs[n - 1].0) {
            Some(reference) => put(prev, lhs[n - 1].0, less(lhs[n - 1].1, reference)),
            None => prev,
        }
    }
}

/// The first `n` epochs of `lhs`, each less the epoch of `rhs` with the
/// same key; epochs that `rhs` lacks, and epochs of which nothing is
/// left, are left out.
pub open spec fn substract_records(lhs: RecordView, rhs: RecordView, n: nat) -> RecordView
    decreases n,
{
    if n == 0 {
        Seq::empty()
    } else {
        let prev = substract_records(lhs, rhs, (n - 1) as nat);
        match lookup(rhs, lhs[n - 1].0) {
            Some(reference) => {
                let left = substract_observations(
                    lhs[n - 1].1.observations,
                    reference.observations,
                    lhs[n - 1].1.observations.len(),
                );
                if left.len() > 0 {
                    put(
                        prev,
                        lhs[n - 1].0,
                        RecordEntryView {
                            clock_offset: lhs[n - 1].1.clock_offset,
                            observations: left,
                        },
                    )
                } else {
                    prev
                }
            },
            None => prev,
        }
    }
}

/// The difference holds, for the keys of the observations gone through
/// that the reference holds too, the observation less the reference,
/// and nothing for other keys.
pub proof fn lemma_substract_lookup(
    lhs: ObservationsView,
    rhs: ObservationsView,
    n: nat,
    k: ObservationKeyView,
)
    requires
        sorted(lhs),
        n <= lhs.len(),
    ensures
        sorted(substract_observations(lhs, rhs, n)),
        lookup(substract_observations(lhs, rhs, n), k) == match (
            lookup(lhs.take(n as int), k),
            lookup(rhs, k),
        ) {
            (Some(d), Some(reference)) => Some(less(d, reference)),
            _ => None,
        },
    decreases n,
{
    let part = lhs.take(n as int);
    crate::assoc::lemma_sorted_take(lhs, n as int);
    if n > 0 {
        let prev = substract_observations(lhs, rhs, (n - 1) as nat);
        let x = lhs[n - 1];
        lemma_substract_lookup(lhs, rhs, (n - 1) as nat, k);
        let before = lhs.take(n - 1);
        crate::assoc::lemma_sorted_take(lhs, n - 1);
        assert(part =~= before.push(x));
        assert(part[n - 1] == x);
        lemma_rank_of_member(part, n - 1);
        if k == x.0 {
            lemma_rank_bounds(before, k);
            if has_key(before, k) {
                let i = rank(before, k);
                assert(before[i] == lhs[i]);
                assert(lhs[i].0.before(lhs[n - 1].0));
                ObservationKeyView::lemma_irreflexive(k);
            }
            assert(lookup(before, k) is None);
        } else {
            lemma_rank_bounds(part, k);
            lemma_rank_bounds(before, k);
            if has_key(part, k) {
                let i = rank(part, k);
                assert(i < n - 1);
                assert(part[i] == before[i]);
                lemma_rank_of_member(before, i);
            } else if has_key(before, k) {
                let i = rank(before, k);
                assert(part[i] == before[i]);
                lemma_rank_of_member(part, i);
            }
            assert(lookup(part, k) == lookup(before, k));
        }
        match lookup(rhs, x.0) {
            Some(reference) => {
                lemma_put_sorted(prev, x.0, less(x.1, reference));
                lemma_put_lookup(prev, x.0, less(x.1, reference), k);
            },
            None => {},
        }
    } else {
        assert(part.len() == 0);
    }
}

/// The difference of two epochs holds, for each key that both hold, the
/// observation less the reference, and nothing else.
pub proof fn lemma_substract_holds(
    lhs: ObservationsView,
    rhs: ObservationsView,
    k: ObservationKeyView,
)
    requires
        sorted(lhs),
    ensures
        lookup(substract_observations(lhs, rhs, lhs.len()), k) == match (
            lookup(lhs, k),
            lookup(rhs, k),
        ) {
            (Some(d), Some(reference)) => Some(less(d, reference)),
            _ => None,
        },
{
    lemma_substract_lookup(lhs, rhs, lhs.len(), k);
    assert(lhs.take(lhs.len() as int) =~= lhs);
}

/// The observations of `lhs` less those of `rhs`.
pub fn substracted_observations(lhs: &Observations, rhs: &Observations) -> (r: Observations)
    ensures
        r.wf(),
        r@ == substract_observations(lhs@, rhs@, lhs@.len()),
{
    let mut out = Observations::new();
    let mut i: usize = 0;
    while i < lhs.len()
        invariant
            i <= lhs@.len(),
            out.wf(),
            out@ == substract_observations(lhs@, rhs@, i as nat),
        decreases lhs@.len() - i,
    {
        let key = lhs.key_at(i);
        let d = lhs.data_at(i);
        match rhs.get(key) {
            Some(reference) => {
                let value = difference(d.value, reference.value);
                out.insert(key.clone(), ObservationData { value, lli: d.lli, snr: d.snr });
            },
            None => {},
        }
        i += 1;
    }
    out
}

impl Record {
    /// The record less `rhs`: of each epoch that both hold, the
    /// observations that both hold, the values of `rhs` substracted. A
    /// difference that 64 bits cannot hold is held to their range.
    pub fn substract(&self, rhs: &Record) -> (r: Record)
        ensures
            r.wf(),
            r@ == substract_records(self@, rhs@, self@.len()),
    {
        let mut out = Record::new();
        let mut i: usize = 0;
        while i < self.len()
            invariant
                i <= self@.len(),
                out.wf(),
                out@ == substract_records(self@, rhs@, i as nat),
            decreases self@.len() - i,
        {
            let key = self.key_at(i);
            let entry = self.entry_at(i);
            match rhs.get(&key) {
                Some(reference) => {
                    let left = substracted_observations(
                        &entry.observations,
                        &reference.observations,
                    );
                    if !left.is_empty() {
                        out.insert(key, RecordEntry::new(entry.clock_offset, left));
                    }
                },
                None => {},
            }
            i += 1;
        }
        out
    }

    /// Substracts `rhs` from the record.
    pub fn substract_mut(&mut self, rhs: &Record)
        ensures
            final(self).wf(),
            final(self)@ == substract_records(old(self)@, rhs@, old(self)@.len()),
    {
        *self = self.substract(rhs);
    }
}

impl Rinex {
    /// The file less `rhs`: its record less the record of `rhs`.
    pub fn substract(&self, rhs: &Rinex) -> (r: Rinex)
        ensures
            r.same_header(self),
            r.wf(),
            r.record@ == substract_records(self.record@, rhs.record@, self.record@.len()),
    {
        let mut s = self.clone();
        s.substract_mut(rhs);
        s
    }

    /// Substracts the record of `rhs` from the record of the file.
    pub fn substract_mut(&mut self, rhs: &Rinex)
        ensures
            final(self).header == old(self).header,
            final(self).comments == old(self).comments,
            final(self).wf(),
            final(self).record@ == substract_records(
                old(self).record@,
                rhs.record@,
                old(self).record@.len(),
            ),
    {
        self.record.substract_mut(&rhs.record);
    }
}

} // verus!
