//! Masks on the observation record.

use crate::assoc::Ordered;
use crate::assoc::lemma_retain_before_next;
use crate::assoc::lemma_retain_idempotent;
use crate::assoc::lemma_retain_lookup;
use crate::assoc::lemma_retain_sorted;
use crate::assoc::lemma_sorted_take;
use crate::assoc::lookup;
use crate::assoc::retain;
use crate::assoc::sorted;
use crate::constellation::Constellation;
use crate::constellation::SV;
use crate::observable::Observable;
use crate::observable::ObservableView;
use crate::observable::observable_of_text;
use crate::observable::observable_views;
use crate::observation::ObservationData;
use crate::observation::record::ObservationKey;
use crate::observation::record::ObservationKeyView;
use crate::observation::record::Observations;
use crate::observation::record::ObservationsView;
use crate::observation::record::Record;
use crate::observation::record::RecordEntry;
use crate::observation::record::RecordEntryView;
use crate::observation::record::RecordKey;
use crate::observation::record::RecordView;
use crate::observation::record::record_wf;
use crate::processing::masking::MaskFilter;
use crate::processing::masking::MaskFilterView;
use crate::processing::masking::MaskOperand;
use crate::processing::token::MaskToken;
use crate::processing::token::MaskTokenView;
use vstd::prelude::*;
use vstd::string::StringSliceAdditionalSpecFns;
use vstd::utf8::encode_utf8;

verus! {

/// The PRN that ordering operands compare with: the PRN of the first
/// vehicle of the list that belongs to the constellation.
pub open spec fn reference_prn(list: Seq<SV>, c: Constellation) -> Option<u8>
    decreases list.len(),
{
    if list.len() == 0 {
        None
    } else if list[0].constellation == c {
        Some(list[0].prn)
    } else {
        reference_prn(list.drop_first(), c)
    }
}

/// The observables that the first `n` names of a list stand for; names
/// that stand for none are passed over.
pub open spec fn codes_of(names: Seq<Seq<char>>, n: nat) -> Seq<ObservableView>
    decreases n,
{
    if n == 0 {
        Seq::empty()
    } else {
        match observable_of_text(encode_utf8(names[n - 1])) {
            Ok(o) => codes_of(names, (n - 1) as nat).push(o),
            Err(_) => codes_of(names, (n - 1) as nat),
        }
    }
}

/// True when a constellation is one of a list. The generic `SBAS` in
/// the list stands for every augmentation system.
pub open spec fn constellation_hit(list: Seq<Constellation>, c: Constellation) -> bool {
    list.contains(c) || (list.contains(Constellation::SBAS) && c.spec_is_sbas())
}

/// True when a mask retains an observation.
///
/// - A signal strength retains the observations that tell their
///   strength, when it compares as the operand says.
/// - A list of vehicles retains with `=` the vehicles of the list and
///   with `!=` the others. With an ordering operand the PRN of the
///   vehicle is compared with the PRN of the first vehicle of the list
///   that shares its constellation; where the list has none, the
///   observation is retained.
/// - A list of observables or of constellations retains with `=` what
///   is in the list and with `!=` what is not; the other operands retain
///   everything.
/// - The other tokens retain everything.
pub open spec fn keeps(m: MaskFilterView, key: ObservationKeyView, data: ObservationData) -> bool {
    match m.token {
        MaskTokenView::SNR(threshold) => data.snr matches Some(s) && m.operand.holds(
            s.spec_db() as int * 1000,
            threshold as int,
        ),
        MaskTokenView::SV(list) => match m.operand {
            MaskOperand::Equals => list.contains(key.sv),
            MaskOperand::NotEquals => !list.contains(key.sv),
            _ => match reference_prn(list, key.sv.constellation) {
                Some(prn) => m.operand.holds(key.sv.prn as int, prn as int),
                None => true,
            },
        },
        MaskTokenView::Observables(names) => match m.operand {
            MaskOperand::Equals => codes_of(names, names.len()).contains(key.observable),
            MaskOperand::NotEquals => !codes_of(names, names.len()).contains(key.observable),
            _ => true,
        },
        MaskTokenView::Constellations(list) => match m.operand {
            MaskOperand::Equals => constellation_hit(list, key.sv.constellation),
            MaskOperand::NotEquals => !constellation_hit(list, key.sv.constellation),
            _ => true,
        },
        _ => true,
    }
}

/// The test that a mask applies to each observation.
pub open spec fn keeper(m: MaskFilterView) -> spec_fn((ObservationKeyView, ObservationData)) -> bool {
    |kv: (ObservationKeyView, ObservationData)| keeps(m, kv.0, kv.1)
}

/// The test that a mask on instants applies to each epoch.
pub open spec fn epoch_keeper(m: MaskFilterView) -> spec_fn((RecordKey, RecordEntryView)) -> bool {
    |kv: (RecordKey, RecordEntryView)|
        match m.token {
            MaskTokenView::Epoch(t) => m.operand.holds(
                kv.0.epoch.tai_nanos as int,
                t.tai_nanos as int,
            ),
            _ => true,
        }
}

/// True for the tokens that are tested on each observation.
pub open spec fn per_observation(token: MaskTokenView) -> bool {
    token is SNR || token is SV || token is Observables || token is Constellations
}

/// An entry after a mask went over its observations.
pub open spec fn mask_entry(m: MaskFilterView, e: RecordEntryView) -> RecordEntryView {
    RecordEntryView {
        clock_offset: e.clock_offset,
        observations: retain(e.observations, keeper(m)),
    }
}

/// True for the entries that stay in the record: those that have an
/// observation or a clock offset.
pub open spec fn entry_stays(e: RecordEntryView) -> bool {
    e.observations.len() > 0 || e.clock_offset is Some
}

/// The record after a mask went over the observations of every epoch:
/// the epochs that are left with no observation and have no clock offset
/// are dropped.
pub open spec fn mask_entries(m: MaskFilterView, s: RecordView) -> RecordView
    decreases s.len(),
{
    if s.len() == 0 {
        s
    } else if entry_stays(mask_entry(m, s.last().1)) {
        mask_entries(m, s.drop_last()).push((s.last().0, mask_entry(m, s.last().1)))
    } else {
        mask_entries(m, s.drop_last())
    }
}

/// The record after a mask. A mask on instants retains the epochs whose
/// instant compares with the instant of the mask as the operand says. A
/// mask on signal strength, vehicles, observables or constellations goes
/// over the observations. Any other mask leaves the record as it is.
pub open spec fn mask_record(m: MaskFilterView, s: RecordView) -> RecordView {
    if m.token is Epoch {
        retain(s, epoch_keeper(m))
    } else if per_observation(m.token) {
        mask_entries(m, s)
    } else {
        s
    }
}

/// Masking keeps the entries of a record in order.
pub proof fn lemma_mask_entries_wf(m: MaskFilterView, s: RecordView)
    requires
        record_wf(s),
    ensures
        record_wf(mask_entries(m, s)),
        mask_entries(m, s).len() > 0 ==> exists|j: int|
            0 <= j < s.len() && s[j].0 == mask_entries(m, s).last().0,
    decreases s.len(),
{
    if s.len() > 0 {
        let t = s.drop_last();
        assert forall|i: int, j: int| 0 <= i < j < t.len() implies (#[trigger] t[i]).0.before(
            (#[trigger] t[j]).0,
        ) by {
            assert(t[i] == s[i] && t[j] == s[j]);
        }
        assert forall|i: int| 0 <= i < t.len() implies sorted(
            (#[trigger] t[i]).1.observations,
        ) by {
            assert(t[i] == s[i]);
        }
        lemma_mask_entries_wf(m, t);
        let rt = mask_entries(m, t);
        let r = mask_entries(m, s);
        let e = mask_entry(m, s.last().1);
        lemma_retain_sorted(s.last().1.observations, keeper(m));
        if entry_stays(e) {
            assert(r.last().0 == s[s.len() - 1].0);
            assert forall|i: int, j: int| 0 <= i < j < r.len() implies (#[trigger] r[i]).0.before(
                (#[trigger] r[j]).0,
            ) by {
                if j < rt.len() {
                    assert(r[i] == rt[i] && r[j] == rt[j]);
                } else {
                    assert(r[i] == rt[i]);
                    lemma_mask_entries_member(m, t, i);
                    let k = choose|k: int| 0 <= k < t.len() && t[k].0 == rt[i].0;
                    assert(t[k] == s[k]);
                    assert(s[k].0.before(s[s.len() - 1].0));
                }
            }
            assert forall|i: int| 0 <= i < r.len() implies sorted(
                (#[trigger] r[i]).1.observations,
            ) by {
                if i < rt.len() {
                    assert(r[i] == rt[i]);
                }
            }
        } else {
            if r.len() > 0 {
                let j = choose|j: int| 0 <= j < t.len() && t[j].0 == rt.last().0;
                assert(s[j] == t[j]);
            }
        }
    }
}

/// The keys of a masked record are keys of the record.
pub proof fn lemma_mask_entries_member(m: MaskFilterView, s: RecordView, i: int)
    requires
        0 <= i < mask_entries(m, s).len(),
    ensures
        exists|k: int| 0 <= k < s.len() && s[k].0 == mask_entries(m, s)[i].0,
    decreases s.len(),
{
    let t = s.drop_last();
    let rt = mask_entries(m, t);
    if i < rt.len() {
        lemma_mask_entries_member(m, t, i);
        let k = choose|k: int| 0 <= k < t.len() && t[k].0 == rt[i].0;
        assert(s[k] == t[k]);
        if entry_stays(mask_entry(m, s.last().1)) {
            assert(mask_entries(m, s)[i] == rt[i]);
        }
    } else {
        assert(mask_entries(m, s)[i].0 == s[s.len() - 1].0);
    }
}

/// Applying a mask twice gives the same record as applying it once.
pub proof fn lemma_mask_idempotent(m: MaskFilterView, s: RecordView)
    ensures
        mask_record(m, mask_record(m, s)) == mask_record(m, s),
{
    if m.token is Epoch {
        lemma_retain_idempotent(s, epoch_keeper(m));
    } else if per_observation(m.token) {
        lemma_mask_entries_idempotent(m, s);
    }
}

pub proof fn lemma_mask_entries_idempotent(m: MaskFilterView, s: RecordView)
    ensures
        mask_entries(m, mask_entries(m, s)) == mask_entries(m, s),
    decreases s.len(),
{
    if s.len() > 0 {
        let t = s.drop_last();
        lemma_mask_entries_idempotent(m, t);
        let e = mask_entry(m, s.last().1);
        if entry_stays(e) {
            let r = mask_entries(m, t).push((s.last().0, e));
            assert(r.drop_last() =~= mask_entries(m, t));
            lemma_retain_idempotent(s.last().1.observations, keeper(m));
            assert(mask_entry(m, e) == e);
        }
    }
}

/// A mask that retains with `=` a list of constellations in which the
/// generic `SBAS` stands retains the observations of every vehicle of
/// an augmentation system.
pub proof fn lemma_sbas_broadening(
    list: Seq<Constellation>,
    key: ObservationKeyView,
    data: ObservationData,
)
    requires
        list.contains(Constellation::SBAS),
        key.sv.constellation.spec_is_sbas(),
    ensures
        keeps(
            MaskFilterView { token: MaskTokenView::Constellations(list), operand: MaskOperand::Equals },
            key,
            data,
        ),
{
}

/// Under such a mask the observations of an epoch keep what they hold
/// for a vehicle of an augmentation system.
pub proof fn lemma_sbas_broadening_lookup(
    list: Seq<Constellation>,
    obs: ObservationsView,
    key: ObservationKeyView,
)
    requires
        sorted(obs),
        list.contains(Constellation::SBAS),
        key.sv.constellation.spec_is_sbas(),
        lookup(obs, key) is Some,
    ensures
        lookup(
            mask_entry(
                MaskFilterView {
                    token: MaskTokenView::Constellations(list),
                    operand: MaskOperand::Equals,
                },
                RecordEntryView { clock_offset: None, observations: obs },
            ).observations,
            key,
        ) == lookup(obs, key),
{
    let m = MaskFilterView {
        token: MaskTokenView::Constellations(list),
        operand: MaskOperand::Equals,
    };
    lemma_sbas_broadening(list, key, lookup(obs, key)->0);
    lemma_retain_lookup(obs, keeper(m), key);
}

/// True when a vehicle is one of a list.
pub fn has_vehicle(list: &Vec<SV>, sv: SV) -> (r: bool)
    ensures
        r == list@.contains(sv),
{
    let mut i: usize = 0;
    while i < list.len()
        invariant
            i <= list.len(),
            forall|j: int| 0 <= j < i ==> list@[j] != sv,
        decreases list.len() - i,
    {
        if list[i] == sv {
            return true;
        }
        i += 1;
    }
    false
}

/// True when a constellation is one of a list.
pub fn has_constellation(list: &Vec<Constellation>, c: Constellation) -> (r: bool)
    ensures
        r == list@.contains(c),
{
    let mut i: usize = 0;
    while i < list.len()
        invariant
            i <= list.len(),
            forall|j: int| 0 <= j < i ==> list@[j] != c,
        decreases list.len() - i,
    {
        if list[i] == c {
            return true;
        }
        i += 1;
    }
    false
}

/// True when an observable is one of a list.
pub fn has_observable(list: &Vec<Observable>, o: &Observable) -> (r: bool)
    ensures
        r == observable_views(list@).contains(o@),
{
    let mut i: usize = 0;
    while i < list.len()
        invariant
            i <= list.len(),
            forall|j: int| 0 <= j < i ==> observable_views(list@)[j] != o@,
        decreases list.len() - i,
    {
        if list[i].same(o) {
            assert(observable_views(list@)[i as int] == o@);
            return true;
        }
        i += 1;
    }
    false
}

/// The PRN of the first vehicle of a list that belongs to a constellation.
pub fn find_reference_prn(list: &Vec<SV>, c: Constellation) -> (r: Option<u8>)
    ensures
        r == reference_prn(list@, c),
{
    let mut i: usize = 0;
    assert(list@.skip(0) =~= list@);
    while i < list.len()
        invariant
            i <= list.len(),
            reference_prn(list@, c) == reference_prn(list@.skip(i as int), c),
        decreases list.len() - i,
    {
        assert(list@.skip(i as int)[0] == list@[i as int]);
        if list[i].constellation == c {
            return Some(list[i].prn);
        }
        assert(list@.skip(i as int).drop_first() =~= list@.skip(i as int + 1));
        i += 1;
    }
    None
}

/// Reads the observables that a list of names stands for.
pub fn parse_codes(names: &Vec<String>) -> (r: Vec<Observable>)
    ensures
        observable_views(r@) == codes_of(crate::processing::token::strings_view(names@), names@.len()),
{
    let ghost texts = crate::processing::token::strings_view(names@);
    let mut out: Vec<Observable> = Vec::new();
    let mut i: usize = 0;
    assert(observable_views(out@) =~= codes_of(texts, 0));
    while i < names.len()
        invariant
            i <= names.len(),
            texts == crate::processing::token::strings_view(names@),
            observable_views(out@) == codes_of(texts, i as nat),
        decreases names.len() - i,
    {
        let ghost before = observable_views(out@);
        assert(texts[i as int] == names@[i as int]@);
        match Observable::from_str(names[i].as_str()) {
            Ok(o) => {
                let ghost v = o@;
                out.push(o);
                assert(observable_views(out@) =~= before.push(v));
            },
            Err(_) => {},
        }
        i += 1;
    }
    out
}

/// True when a mask retains an observation. `codes` holds the
/// observables of a mask on observables.
pub fn observation_stays(
    mask: &MaskFilter,
    codes: &Vec<Observable>,
    key: &ObservationKey,
    data: &ObservationData,
) -> (r: bool)
    requires
        mask@.token matches MaskTokenView::Observables(names) ==> observable_views(codes@)
            == codes_of(names, names.len()),
    ensures
        r == keeps(mask@, key@, *data),
{
    match &mask.token {
        MaskToken::SNR(threshold) => match data.snr {
            Some(s) => mask.operand.test(s.db() as i128 * 1000, *threshold as i128),
            None => false,
        },
        MaskToken::SV(list) => match mask.operand {
            MaskOperand::Equals => has_vehicle(list, key.sv),
            MaskOperand::NotEquals => !has_vehicle(list, key.sv),
            _ => match find_reference_prn(list, key.sv.constellation) {
                Some(prn) => mask.operand.test(key.sv.prn as i128, prn as i128),
                None => true,
            },
        },
        MaskToken::Observables(_) => match mask.operand {
            MaskOperand::Equals => has_observable(codes, &key.observable),
            MaskOperand::NotEquals => !has_observable(codes, &key.observable),
            _ => true,
        },
        MaskToken::Constellations(list) => {
            let hit = has_constellation(list, key.sv.constellation) || (has_constellation(
                list,
                Constellation::SBAS,
            ) && key.sv.constellation.is_sbas());
            match mask.operand {
                MaskOperand::Equals => hit,
                MaskOperand::NotEquals => !hit,
                _ => true,
            }
        },
        _ => true,
    }
}

/// The observations that a mask retains.
pub fn masked_observations(mask: &MaskFilter, codes: &Vec<Observable>, obs: &Observations) -> (r:
    Observations)
    requires
        obs.wf(),
        mask@.token matches MaskTokenView::Observables(names) ==> observable_views(codes@)
            == codes_of(names, names.len()),
    ensures
        r.wf(),
        r@ == retain(obs@, keeper(mask@)),
{
    let mut out = Observations::new();
    let mut i: usize = 0;
    assert(obs@.take(0) =~= Seq::<(ObservationKeyView, ObservationData)>::empty());
    while i < obs.len()
        invariant
            i <= obs@.len(),
            obs.wf(),
            out.wf(),
            out@ == retain(obs@.take(i as int), keeper(mask@)),
            mask@.token matches MaskTokenView::Observables(names) ==> observable_views(codes@)
                == codes_of(names, names.len()),
        decreases obs@.len() - i,
    {
        let key = obs.key_at(i);
        let data = obs.data_at(i);
        proof {
            lemma_retain_before_next(obs@, keeper(mask@), i as int);
        }
        if observation_stays(mask, codes, key, &data) {
            out.push_last(key.clone(), data);
        }
        i += 1;
    }
    assert(obs@.take(i as int) =~= obs@);
    out
}

impl Record {
    /// Applies a mask to the record.
    pub fn mask_mut(&mut self, mask: &MaskFilter)
        requires
            old(self).wf(),
        ensures
            final(self).wf(),
            final(self)@ == mask_record(mask@, old(self)@),
    {
        let ghost m = mask@;
        let ghost s = self@;
        match &mask.token {
            MaskToken::Epoch(t) => {
                let mut out = Record::new();
                let mut i: usize = 0;
                assert(s.take(0) =~= Seq::<(RecordKey, RecordEntryView)>::empty());
                while i < self.len()
                    invariant
                        i <= s.len(),
                        s == self@,
                        m == mask@,
                        mask.token == MaskToken::Epoch(*t),
                        self.wf(),
                        out.wf(),
                        out@ == retain(s.take(i as int), epoch_keeper(m)),
                    decreases s.len() - i,
                {
                    let key = self.key_at(i);
                    let entry = self.entry_at(i);
                    proof {
                        lemma_retain_before_next(s, epoch_keeper(m), i as int);
                    }
                    if mask.operand.test(key.epoch.tai_nanos, t.tai_nanos) {
                        out.push_last(key, entry.clone());
                    }
                    i += 1;
                }
                assert(s.take(i as int) =~= s);
                *self = out;
            },
            MaskToken::SNR(_) | MaskToken::SV(_) | MaskToken::Observables(_)
            | MaskToken::Constellations(_) => {
                let codes = match &mask.token {
                    MaskToken::Observables(names) => parse_codes(names),
                    _ => Vec::new(),
                };
                let mut out = Record::new();
                let mut i: usize = 0;
                assert(s.take(0) =~= Seq::<(RecordKey, RecordEntryView)>::empty());
                while i < self.len()
                    invariant
                        i <= s.len(),
                        s == self@,
                        m == mask@,
                        per_observation(m.token),
                        self.wf(),
                        out.wf(),
                        out@ == mask_entries(m, s.take(i as int)),
                        m.token matches MaskTokenView::Observables(names) ==> observable_views(
                            codes@,
                        ) == codes_of(names, names.len()),
                    decreases s.len() - i,
                {
                    let key = self.key_at(i);
                    let entry = self.entry_at(i);
                    let observations = masked_observations(mask, &codes, &entry.observations);
                    proof {
                        let t = s.take(i as int);
                        let u = s.take(i as int + 1);
                        assert(u.drop_last() =~= t);
                        assert(u.last() == s[i as int]);
                        assert forall|a: int| 0 <= a < t.len() implies sorted(
                            (#[trigger] t[a]).1.observations,
                        ) by {
                            assert(t[a] == s[a]);
                        }
                        lemma_sorted_take(s, i as int);
                        lemma_mask_entries_wf(m, t);
                        if out@.len() > 0 {
                            let j = choose|j: int| 0 <= j < t.len() && t[j].0 == out@.last().0;
                            assert(t[j] == s[j]);
                            assert(s[j].0.before(s[i as int].0));
                        }
                    }
                    if observations.len() > 0 || entry.clock_offset.is_some() {
                        out.push_last(key, RecordEntry::new(entry.clock_offset, observations));
                    }
                    i += 1;
                }
                assert(s.take(i as int) =~= s);
                *self = out;
            },
            _ => {},
        }
    }

    /// The record that a mask leaves.
    pub fn mask(&self, mask: &MaskFilter) -> (r: Self)
        requires
            self.wf(),
        ensures
            r.wf(),
            r@ == mask_record(mask@, self@),
    {
        let mut s = self.clone();
        s.mask_mut(mask);
        s
    }
}

} // verus!
