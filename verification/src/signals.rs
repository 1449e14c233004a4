//! Signals of a file: its constellations, and its observations of one
//! kind with the epochs that they belong to.

use crate::Rinex;
use crate::constellation::Constellation;
use crate::constellation::SV;
use crate::epoch::Epoch;
use crate::observable::Observable;
use crate::observable::ObservableView;
use crate::observation::EpochFlag;
use crate::observation::masking::has_constellation;
use crate::observation::record::ObservationsView;
use crate::observation::record::RecordKey;
use crate::observation::record::RecordView;
use crate::sampling::record_vehicles;
use vstd::prelude::*;

verus! {

/// The constellations of the first `n` vehicles of a list, each once,
/// as they come.
pub open spec fn constellations_of(svs: Seq<SV>, n: nat) -> Seq<Constellation>
    decreases n,
{
    if n == 0 {
        Seq::empty()
    } else {
        let prev = constellations_of(svs, (n - 1) as nat);
        if prev.contains(svs[n - 1].constellation) {
            prev
        } else {
            prev.push(svs[n - 1].constellation)
        }
    }
}

/// An observation with the epoch that it belongs to. The value is
/// counted in thousandths of the unit of the observable.
#[derive(Debug, PartialEq, Eq)]
pub struct Sample {
    /// Sampling instant.
    pub epoch: Epoch,
    /// Status of the epoch.
    pub flag: EpochFlag,
    /// Vehicle that was observed.
    pub sv: SV,
    /// What was observed.
    pub observable: Observable,
    /// What the file holds for it, in thousandths.
    pub value: i64,
}

/// A sample as contracts see it.
pub struct SampleView {
    pub epoch: Epoch,
    pub flag: EpochFlag,
    pub sv: SV,
    pub observable: ObservableView,
    pub value: i64,
}

impl View for Sample {
    type V = SampleView;

    open spec fn view(&self) -> SampleView {
        SampleView {
            epoch: self.epoch,
            flag: self.flag,
            sv: self.sv,
            observable: self.observable@,
            value: self.value,
        }
    }
}

/// The samples of a list as contracts see them.
pub open spec fn samples_view(v: Seq<Sample>) -> Seq<SampleView> {
    Seq::new(v.len(), |i: int| v[i]@)
}

/// A list of samples with those of the first `n` observations of an
/// epoch that are of one kind of observable.
pub open spec fn samples_with(
    list: Seq<SampleView>,
    key: RecordKey,
    obs: ObservationsView,
    n: nat,
    kind: int,
) -> Seq<SampleView>
    decreases n,
{
    if n == 0 {
        list
    } else {
        let prev = samples_with(list, key, obs, (n - 1) as nat, kind);
        if obs[n - 1].0.observable.kind == kind {
            prev.push(
                SampleView {
                    epoch: key.epoch,
                    flag: key.flag,
                    sv: obs[n - 1].0.sv,
                    observable: obs[n - 1].0.observable,
                    value: obs[n - 1].1.value,
                },
            )
        } else {
            prev
        }
    }
}

/// The observations of one kind of observable that the first `n`
/// epochs of a record hold, in the order of the record.
pub open spec fn record_samples(s: RecordView, n: nat, kind: int) -> Seq<SampleView>
    decreases n,
{
    if n == 0 {
        Seq::empty()
    } else {
        samples_with(
            record_samples(s, (n - 1) as nat, kind),
            s[n - 1].0,
            s[n - 1].1.observations,
            s[n - 1].1.observations.len(),
            kind,
        )
    }
}

impl Rinex {
    /// The constellations of the file, each once, as they come.
    pub fn constellation(&self) -> (r: Vec<Constellation>)
        ensures
            r@ == constellations_of(
                record_vehicles(self.record@, self.record@.len()),
                record_vehicles(self.record@, self.record@.len()).len(),
            ),
    {
        let svs = self.sv();
        let mut out: Vec<Constellation> = Vec::new();
        let mut i: usize = 0;
        while i < svs.len()
            invariant
                i <= svs@.len(),
                out@ == constellations_of(svs@, i as nat),
            decreases svs@.len() - i,
        {
            let c = svs[i].constellation;
            if !has_constellation(&out, c) {
                out.push(c);
            }
            i += 1;
        }
        out
    }

    /// The observations of one kind of observable, in the order of the
    /// record.
    fn samples(&self, kind: u8) -> (r: Vec<Sample>)
        ensures
            samples_view(r@) == record_samples(self.record@, self.record@.len(), kind as int),
    {
        let mut out: Vec<Sample> = Vec::new();
        let mut i: usize = 0;
        assert(samples_view(out@) =~= record_samples(self.record@, 0, kind as int));
        while i < self.record.len()
            invariant
                i <= self.record@.len(),
                samples_view(out@) == record_samples(self.record@, i as nat, kind as int),
            decreases self.record@.len() - i,
        {
            let key = self.record.key_at(i);
            let obs = &self.record.entry_at(i).observations;
            let mut k: usize = 0;
            while k < obs.len()
                invariant
                    k <= obs@.len(),
                    key == self.record@[i as int].0,
                    samples_view(out@) == samples_with(
                        record_samples(self.record@, i as nat, kind as int),
                        key,
                        obs@,
                        k as nat,
                        kind as int,
                    ),
                decreases obs@.len() - k,
            {
                let ghost before = samples_view(out@);
                let held = obs.key_at(k);
                if held.observable.kind() == kind {
                    let sample = Sample {
                        epoch: key.epoch,
                        flag: key.flag,
                        sv: held.sv,
                        observable: held.observable.clone(),
                        value: obs.data_at(k).value,
                    };
                    out.push(sample);
                    assert(samples_view(out@) =~= before.push(sample@));
                }
                k += 1;
            }
            i += 1;
        }
        out
    }

    /// The carrier phases of the file, in the order of the record, as
    /// the file holds them.
    pub fn carrier_phase(&self) -> (r: Vec<Sample>)
        ensures
            samples_view(r@) == record_samples(self.record@, self.record@.len(), 0),
    {
        self.samples(0)
    }

    /// The pseudo ranges of the file, in the order of the record.
    pub fn pseudo_range(&self) -> (r: Vec<Sample>)
        ensures
            samples_view(r@) == record_samples(self.record@, self.record@.len(), 3),
    {
        self.samples(3)
    }
}

} // verus!
