//! Merging two observation records.

use crate::assoc::lemma_put_sorted;
use crate::assoc::lookup;
use crate::assoc::put;
use crate::assoc::put_new;
use crate::assoc::sorted;
use crate::observation::record::ObservationKeyView;
use crate::observation::record::Observations;
use crate::observation::record::ObservationsView;
use crate::observation::record::Record;
use crate::observation::record::RecordEntry;
use crate::observation::record::RecordEntryView;
use crate::observation::record::RecordView;
use vstd::prelude::*;

verus! {

/// Why two records or files cannot be merged.
#[derive(Clone, Copy, Debug, PartialEq, Eq, Structural)]
pub enum MergeError {
    /// The two files are not of the same kind.
    FileTypeMismatch,
}

/// The observations of an epoch after the first `n` observations of
/// `rhs` were merged in: `rhs` gives what `lhs` lacks.
pub open spec fn merge_observations(lhs: ObservationsView, rhs: ObservationsView, n: nat) -> ObservationsView
    decreases n,
{
    if n == 0 {
        lhs
    } else {
        put_new(merge_observations(lhs, rhs, (n - 1) as nat), rhs[n - 1].0, rhs[n - 1].1)
    }
}

/// An entry that both records hold, merged: what `lhs` holds stays, and
/// `rhs` gives the clock offset and the observations that `lhs` lacks.
pub open spec fn merge_entry(lhs: RecordEntryView, rhs: RecordEntryView) -> RecordEntryView {
    RecordEntryView {
        clock_offset: if lhs.clock_offset is Some {
            lhs.clock_offset
        } else {
            rhs.clock_offset
        },
        observations: merge_observations(lhs.observations, rhs.observations, rhs.observations.len()),
    }
}

/// A record after the first `n` epochs of `rhs` were merged in: an epoch
/// that the record lacks comes in whole, an epoch that it holds is merged
/// entry with entry.
pub open spec fn merge_records(lhs: RecordView, rhs: RecordView, n: nat) -> RecordView
    decreases n,
{
    if n == 0 {
        lhs
    } else {
        let prev = merge_records(lhs, rhs, (n - 1) as nat);
        match lookup(prev, rhs[n - 1].0) {
            Some(held) => put(prev, rhs[n - 1].0, merge_entry(held, rhs[n - 1].1)),
            None => put(prev, rhs[n - 1].0, rhs[n - 1].1),
        }
    }
}

pub proof fn lemma_merge_observations_sorted(lhs: ObservationsView, rhs: ObservationsView, n: nat)
    requires
        sorted(lhs),
    ensures
        sorted(merge_observations(lhs, rhs, n)),
    decreases n,
{
    if n > 0 {
        lemma_merge_observations_sorted(lhs, rhs, (n - 1) as nat);
        lemma_put_sorted(merge_observations(lhs, rhs, (n - 1) as nat), rhs[n - 1].0, rhs[n - 1].1);
    }
}

/// Everything that the left side holds is in the merged observations,
/// unchanged.
pub proof fn lemma_merge_left_wins(
    lhs: ObservationsView,
    rhs: ObservationsView,
    n: nat,
    k: ObservationKeyView,
)
    requires
        sorted(lhs),
        lookup(lhs, k) is Some,
    ensures
        lookup(merge_observations(lhs, rhs, n), k) == lookup(lhs, k),
    decreases n,
{
    if n > 0 {
        let prev = merge_observations(lhs, rhs, (n - 1) as nat);
        lemma_merge_left_wins(lhs, rhs, (n - 1) as nat, k);
        lemma_merge_observations_sorted(lhs, rhs, (n - 1) as nat);
        if !crate::assoc::has_key(prev, rhs[n - 1].0) {
            crate::assoc::lemma_put_lookup(prev, rhs[n - 1].0, rhs[n - 1].1, k);
        }
    }
}

/// Merges the observations of `rhs` into `lhs`.
pub fn merged_observations(lhs: &Observations, rhs: &Observations) -> (r: Observations)
    requires
        lhs.wf(),
    ensures
        r.wf(),
        r@ == merge_observations(lhs@, rhs@, rhs@.len()),
{
    let mut out = lhs.clone();
    let mut i: usize = 0;
    while i < rhs.len()
        invariant
            i <= rhs@.len(),
            out.wf(),
            out@ == merge_observations(lhs@, rhs@, i as nat),
        decreases rhs@.len() - i,
    {
        out.insert_new(rhs.key_at(i).clone(), rhs.data_at(i));
        i += 1;
    }
    out
}

impl Record {
    /// Merges `rhs` into the record. An epoch that the record lacks
    /// comes in whole. Of an epoch that both hold, what the record holds
    /// stays, and `rhs` gives the clock offset and the observations that
    /// the record lacks.
    pub fn merge_mut(&mut self, rhs: &Record) -> (r: Result<(), MergeError>)
        requires
            old(self).wf(),
            rhs.wf(),
        ensures
            r is Ok,
            final(self).wf(),
            final(self)@ == merge_records(old(self)@, rhs@, rhs@.len()),
    {
        let mut i: usize = 0;
        while i < rhs.len()
            invariant
                i <= rhs@.len(),
                rhs.wf(),
                self.wf(),
                self@ == merge_records(old(self)@, rhs@, i as nat),
            decreases rhs@.len() - i,
        {
            let key = rhs.key_at(i);
            let entry = rhs.entry_at(i);
            let merged = match self.get(&key) {
                Some(held) => RecordEntry::new(
                    if held.clock_offset.is_some() {
                        held.clock_offset
                    } else {
                        entry.clock_offset
                    },
                    merged_observations(&held.observations, &entry.observations),
                ),
                None => entry.clone(),
            };
            self.insert(key, merged);
            i += 1;
        }
        Ok(())
    }

    /// The record with `rhs` merged in.
    pub fn merge(&self, rhs: &Record) -> (r: Result<Record, MergeError>)
        requires
            self.wf(),
            rhs.wf(),
        ensures
            r matches Ok(m) && m.wf() && m@ == merge_records(self@, rhs@, rhs@.len()),
    {
        let mut lhs = self.clone();
        match lhs.merge_mut(rhs) {
            Ok(()) => Ok(lhs),
            Err(e) => Err(e),
        }
    }
}

} // verus!
