//! Sampling of a file: its epochs, the spans between them, the gaps.

use crate::Rinex;
use crate::constellation::SV;
use crate::epoch::Duration;
use crate::epoch::Epoch;
use crate::observable::Observable;
use crate::observable::ObservableView;
use crate::observable::observable_views;
use crate::observation::record::ObservationsView;
use crate::observation::record::RecordView;
use vstd::prelude::*;

verus! {

/// The instants of the first `n` epochs of a record.
pub open spec fn epochs_of(s: RecordView, n: nat) -> Seq<Epoch> {
    Seq::new(n, |i: int| s[i].0.epoch)
}

/// A list of vehicles with one more, unless the list has it.
pub open spec fn with_vehicle(list: Seq<SV>, sv: SV) -> Seq<SV> {
    if list.contains(sv) {
        list
    } else {
        list.push(sv)
    }
}

/// A list of observables with one more, unless the list has it.
pub open spec fn with_code(list: Seq<ObservableView>, o: ObservableView) -> Seq<ObservableView> {
    if list.contains(o) {
        list
    } else {
        list.push(o)
    }
}

/// A list of vehicles with those of the first `n` observations of an
/// epoch, each once, as they come.
pub open spec fn vehicles_with(list: Seq<SV>, obs: ObservationsView, n: nat) -> Seq<SV>
    decreases n,
{
    if n == 0 {
        list
    } else {
        with_vehicle(vehicles_with(list, obs, (n - 1) as nat), obs[n - 1].0.sv)
    }
}

/// The vehicles of the first `n` epochs of a record, each once, as they
/// come.
pub open spec fn record_vehicles(s: RecordView, n: nat) -> Seq<SV>
    decreases n,
{
    if n == 0 {
        Seq::empty()
    } else {
        vehicles_with(
            record_vehicles(s, (n - 1) as nat),
            s[n - 1].1.observations,
            s[n - 1].1.observations.len(),
        )
    }
}

/// A list of observables with those of the first `n` observations of an
/// epoch, each once, as they come.
pub open spec fn codes_with(list: Seq<ObservableView>, obs: ObservationsView, n: nat) -> Seq<
    ObservableView,
>
    decreases n,
{
    if n == 0 {
        list
    } else {
        with_code(codes_with(list, obs, (n - 1) as nat), obs[n - 1].0.observable)
    }
}

/// The observables of the first `n` epochs of a record, each once, as
/// they come.
pub open spec fn record_codes(s: RecordView, n: nat) -> Seq<ObservableView>
    decreases n,
{
    if n == 0 {
        Seq::empty()
    } else {
        codes_with(
            record_codes(s, (n - 1) as nat),
            s[n - 1].1.observations,
            s[n - 1].1.observations.len(),
        )
    }
}

/// Place of a span in a histogram, or the length of the histogram.
pub open spec fn bin_of(h: Seq<(Duration, usize)>, d: Duration) -> int
    decreases h.len(),
{
    if h.len() == 0 || h[0].0 == d {
        0
    } else {
        1 + bin_of(h.drop_first(), d)
    }
}

/// A histogram with one more occurrence of a span: the count of the
/// span grows by one, or the span comes in at the end with a count of
/// one.
pub open spec fn tally(h: Seq<(Duration, usize)>, d: Duration) -> Seq<(Duration, usize)> {
    if 0 <= bin_of(h, d) < h.len() {
        h.update(bin_of(h, d), (d, (h[bin_of(h, d)].1 + 1) as usize))
    } else {
        h.push((d, 1))
    }
}

/// The histogram of the spans between the first `n + 1` epochs of a
/// record: each span with the number of times it occurs, in the order
/// in which the spans first occur.
pub open spec fn histogram_of(s: RecordView, n: nat) -> Seq<(Duration, usize)>
    decreases n,
{
    if n == 0 {
        Seq::empty()
    } else {
        tally(histogram_of(s, (n - 1) as nat), s[n as int].0.epoch.spec_since(&s[n - 1].0.epoch))
    }
}

/// Number of spans between the epochs of a record.
pub open spec fn spans(s: RecordView) -> nat {
    if s.len() == 0 {
        0
    } else {
        (s.len() - 1) as nat
    }
}

/// Place of the span that occurs most among the first `n` of a
/// histogram, the last of them where several occur as often; -1 in an
/// empty histogram.
pub open spec fn mode_of(h: Seq<(Duration, usize)>, n: nat) -> int
    decreases n,
{
    if n == 0 {
        -1
    } else {
        let best = mode_of(h, (n - 1) as nat);
        if best < 0 || h[n - 1].1 >= h[best].1 {
            n - 1
        } else {
            best
        }
    }
}

/// The span that occurs most between the epochs of a record.
pub open spec fn dominant_of(s: RecordView) -> Option<Duration> {
    let h = histogram_of(s, spans(s));
    if h.len() == 0 {
        None
    } else {
        Some(h[mode_of(h, h.len())].0)
    }
}

/// The gaps among the first `n` spans of a record: the instant at which
/// a span longer than `limit` starts, and the span.
pub open spec fn gaps_of(s: RecordView, limit: Duration, n: nat) -> Seq<(Epoch, Duration)>
    decreases n,
{
    if n == 0 {
        Seq::empty()
    } else if s[n as int].0.epoch.spec_since(&s[n - 1].0.epoch).nanos > limit.nanos {
        gaps_of(s, limit, (n - 1) as nat).push(
            (s[n - 1].0.epoch, s[n as int].0.epoch.spec_since(&s[n - 1].0.epoch)),
        )
    } else {
        gaps_of(s, limit, (n - 1) as nat)
    }
}

pub proof fn lemma_bin_of_is(h: Seq<(Duration, usize)>, d: Duration, n: int)
    requires
        0 <= n <= h.len(),
        forall|i: int| 0 <= i < n ==> (#[trigger] h[i]).0 != d,
        n == h.len() || h[n].0 == d,
    ensures
        bin_of(h, d) == n,
    decreases n,
{
    if n > 0 {
        let t = h.drop_first();
        assert(h[0].0 != d);
        assert forall|i: int| 0 <= i < n - 1 implies (#[trigger] t[i]).0 != d by {
            assert(t[i] == h[i + 1]);
        }
        if n < h.len() {
            assert(t[n - 1] == h[n]);
        }
        lemma_bin_of_is(t, d, n - 1);
    }
}

/// Counts one more occurrence of a span.
fn count_span(h: &mut Vec<(Duration, usize)>, d: Duration, Ghost(total): Ghost<nat>)
    requires
        total < usize::MAX,
        forall|i: int| 0 <= i < old(h)@.len() ==> (#[trigger] old(h)@[i]).1 <= total,
    ensures
        final(h)@ == tally(old(h)@, d),
        forall|i: int| 0 <= i < final(h)@.len() ==> (#[trigger] final(h)@[i]).1 <= total + 1,
{
    let mut i: usize = 0;
    while i < h.len()
        invariant
            i <= h.len(),
            h@ == old(h)@,
            total < usize::MAX,
            forall|j: int| 0 <= j < h@.len() ==> (#[trigger] h@[j]).1 <= total,
            forall|j: int| 0 <= j < i ==> (#[trigger] h@[j]).0 != d,
        decreases h.len() - i,
    {
        if h[i].0 == d {
            proof {
                lemma_bin_of_is(h@, d, i as int);
            }
            let n = h[i].1;
            h.set(i, (d, n + 1));
            return ;
        }
        i += 1;
    }
    proof {
        lemma_bin_of_is(h@, d, i as int);
    }
    h.push((d, 1));
}

impl Rinex {
    /// The instants of the file, in order.
    pub fn epoch(&self) -> (r: Vec<Epoch>)
        ensures
            r@ == epochs_of(self.record@, self.record@.len()),
    {
        let mut out: Vec<Epoch> = Vec::new();
        let mut i: usize = 0;
        while i < self.record.len()
            invariant
                i <= self.record@.len(),
                out@ == epochs_of(self.record@, i as nat),
            decreases self.record@.len() - i,
        {
            out.push(self.record.key_at(i).epoch);
            i += 1;
            assert(out@ =~= epochs_of(self.record@, i as nat));
        }
        out
    }

    /// The first instant of the file.
    pub fn first_epoch(&self) -> (r: Option<Epoch>)
        ensures
            r == if self.record@.len() == 0 {
                None
            } else {
                Some(self.record@[0].0.epoch)
            },
    {
        if self.record.len() == 0 {
            None
        } else {
            Some(self.record.key_at(0).epoch)
        }
    }

    /// The last instant of the file.
    pub fn last_epoch(&self) -> (r: Option<Epoch>)
        ensures
            r == if self.record@.len() == 0 {
                None
            } else {
                Some(self.record@.last().0.epoch)
            },
    {
        let n = self.record.len();
        if n == 0 {
            None
        } else {
            Some(self.record.key_at(n - 1).epoch)
        }
    }

    /// Time between the first and the last instant of the file.
    pub fn duration(&self) -> (r: Option<Duration>)
        ensures
            r == if self.record@.len() == 0 {
                None
            } else {
                Some(self.record@.last().0.epoch.spec_since(&self.record@[0].0.epoch))
            },
    {
        let n = self.record.len();
        if n == 0 {
            None
        } else {
            Some(self.record.key_at(n - 1).epoch.since(&self.record.key_at(0).epoch))
        }
    }

    /// The sampling interval that the header declares.
    pub fn sample_rate(&self) -> (r: Option<Duration>)
        ensures
            r == self.header.sampling_interval,
    {
        self.header.sampling_interval
    }

    /// The vehicles of the file, each once, as they come.
    pub fn sv(&self) -> (r: Vec<SV>)
        ensures
            r@ == record_vehicles(self.record@, self.record@.len()),
    {
        let mut out: Vec<SV> = Vec::new();
        let mut i: usize = 0;
        while i < self.record.len()
            invariant
                i <= self.record@.len(),
                out@ == record_vehicles(self.record@, i as nat),
            decreases self.record@.len() - i,
        {
            let obs = &self.record.entry_at(i).observations;
            let mut k: usize = 0;
            while k < obs.len()
                invariant
                    k <= obs@.len(),
                    out@ == vehicles_with(record_vehicles(self.record@, i as nat), obs@, k as nat),
                decreases obs@.len() - k,
            {
                let sv = obs.key_at(k).sv;
                if !crate::observation::masking::has_vehicle(&out, sv) {
                    out.push(sv);
                }
                k += 1;
            }
            i += 1;
        }
        out
    }

    /// The observables of the file, each once, as they come.
    pub fn observable(&self) -> (r: Vec<Observable>)
        ensures
            observable_views(r@) == record_codes(self.record@, self.record@.len()),
    {
        let mut out: Vec<Observable> = Vec::new();
        let mut i: usize = 0;
        assert(observable_views(out@) =~= record_codes(self.record@, 0));
        while i < self.record.len()
            invariant
                i <= self.record@.len(),
                observable_views(out@) == record_codes(self.record@, i as nat),
            decreases self.record@.len() - i,
        {
            let obs = &self.record.entry_at(i).observations;
            let mut k: usize = 0;
            while k < obs.len()
                invariant
                    k <= obs@.len(),
                    observable_views(out@) == codes_with(
                        record_codes(self.record@, i as nat),
                        obs@,
                        k as nat,
                    ),
                decreases obs@.len() - k,
            {
                let ghost before = observable_views(out@);
                let o = &obs.key_at(k).observable;
                if !crate::observation::masking::has_observable(&out, o) {
                    out.push(o.clone());
                    assert(observable_views(out@) =~= before.push(o@));
                }
                k += 1;
            }
            i += 1;
        }
        out
    }

    /// The histogram of the spans between the instants of the file.
    pub fn sampling_histogram(&self) -> (r: Vec<(Duration, usize)>)
        ensures
            r@ == histogram_of(self.record@, spans(self.record@)),
    {
        let mut out: Vec<(Duration, usize)> = Vec::new();
        let n = self.record.len();
        let mut i: usize = 1;
        while i < n
            invariant
                1 <= i,
                n == self.record@.len(),
                n > 0 ==> i <= n,
                n == 0 ==> i == 1,
                out@ == histogram_of(self.record@, (i - 1) as nat),
                forall|j: int| 0 <= j < out@.len() ==> (#[trigger] out@[j]).1 <= i - 1,
            decreases n - i,
        {
            let d = self.record.key_at(i).epoch.since(&self.record.key_at(i - 1).epoch);
            count_span(&mut out, d, Ghost((i - 1) as nat));
            i += 1;
        }
        out
    }

    /// The span that occurs most between the instants of the file.
    pub fn dominant_sample_rate(&self) -> (r: Option<Duration>)
        ensures
            r == dominant_of(self.record@),
    {
        let h = self.sampling_histogram();
        if h.len() == 0 {
            return None;
        }
        let mut best: usize = 0;
        let mut i: usize = 1;
        assert(mode_of(h@, 0) == -1);
        while i < h.len()
            invariant
                1 <= i <= h.len(),
                best < i,
                best == mode_of(h@, i as nat),
            decreases h.len() - i,
        {
            if h[i].1 >= h[best].1 {
                best = i;
            }
            i += 1;
        }
        Some(h[best].0)
    }

    /// True when one span separates all the instants of the file.
    pub fn steady_sampling(&self) -> (r: bool)
        ensures
            r == (histogram_of(self.record@, spans(self.record@)).len() == 1),
    {
        self.sampling_histogram().len() == 1
    }

    /// The span above which the time between two instants counts as a
    /// gap: the tolerance if one is given, else the span that occurs
    /// most in the file, else the sampling interval of the header.
    pub open spec fn gap_limit(&self, tolerance: Option<Duration>) -> Option<Duration> {
        match tolerance {
            Some(t) => Some(t),
            None => match dominant_of(self.record@) {
                Some(d) => Some(d),
                None => self.header.sampling_interval,
            },
        }
    }

    /// The gaps of the file: where the time between two instants is
    /// longer than the limit, the first of the two instants and the time
    /// between them. Without a limit no gap is told.
    pub fn data_gaps(&self, tolerance: Option<Duration>) -> (r: Vec<(Epoch, Duration)>)
        ensures
            r@ == match self.gap_limit(tolerance) {
                Some(limit) => gaps_of(self.record@, limit, spans(self.record@)),
                None => Seq::empty(),
            },
    {
        let limit = match tolerance {
            Some(t) => t,
            None => match self.dominant_sample_rate() {
                Some(d) => d,
                None => match self.header.sampling_interval {
                    Some(d) => d,
                    None => {
                        return Vec::new();
                    },
                },
            },
        };
        let mut out: Vec<(Epoch, Duration)> = Vec::new();
        let n = self.record.len();
        let mut i: usize = 1;
        while i < n
            invariant
                1 <= i,
                n == self.record@.len(),
                n > 0 ==> i <= n,
                n == 0 ==> i == 1,
                out@ == gaps_of(self.record@, limit, (i - 1) as nat),
            decreases n - i,
        {
            let from = self.record.key_at(i - 1).epoch;
            let d = self.record.key_at(i).epoch.since(&from);
            if d.nanos > limit.nanos {
                out.push((from, d));
            }
            i += 1;
        }
        out
    }
}

} // verus!
