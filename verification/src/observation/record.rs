//! The observation record: the observations of a file, ordered by epoch,
//! then by vehicle and observable.

use crate::assoc::Ordered;
use crate::assoc::lemma_put_sorted;
use crate::assoc::lemma_rank_is;
use crate::assoc::lookup;
use crate::assoc::put;
use crate::assoc::put_new;
use crate::assoc::sorted;
use crate::constellation::Constellation;
use crate::constellation::SV;
use crate::epoch::Epoch;
use crate::observable::Observable;
use crate::observable::ObservableView;
use crate::observable::Precedence;
use crate::observable::lemma_text_before_irreflexive;
use crate::observable::lemma_text_before_total;
use crate::observable::lemma_text_before_transitive;
use crate::observation::EpochFlag;
use crate::observation::ObservationData;
use vstd::prelude::*;
pub use crate::observation::formatting::fmt_epoch;
pub use crate::observation::parsing::is_new_epoch;
pub use crate::observation::parsing::parse_epoch;

verus! {

/// Why an epoch could not be read or written.
#[derive(Clone, Copy, Debug, PartialEq, Eq, Structural)]
pub enum Error {
    /// The flag of the epoch is none of the standard.
    EpochFlag,
    /// The date of the epoch cannot be read.
    EpochError,
    /// A vehicle cannot be identified.
    SvParsing,
    /// A constellation cannot be identified.
    ConstellationParsing,
    /// There is no line to read.
    EmptyLine,
    /// The number of vehicles cannot be read.
    NumSatParsing,
    /// The lines that name the vehicles end too early.
    MissingSvDescription,
    /// The header names no observable for a vehicle.
    MissingObservationDescription,
    /// A vehicle bears no constellation and the header declares none.
    InvalidConstellationDefinition,
}

/// Key of the record: a sampling instant and its flag.
#[derive(Clone, Copy, Debug, PartialEq, Eq, Structural, Hash)]
pub struct RecordKey {
    /// Sampling instant.
    pub epoch: Epoch,
    /// Status of the epoch.
    pub flag: EpochFlag,
}

impl Ordered for RecordKey {
    /// Keys are ordered by instant, then by flag; the time scale in which
    /// an instant was given settles what is left.
    open spec fn before(self, other: Self) -> bool {
        ||| self.epoch.tai_nanos < other.epoch.tai_nanos
        ||| (self.epoch.tai_nanos == other.epoch.tai_nanos && self.flag.spec_index()
            < other.flag.spec_index())
        ||| (self.epoch.tai_nanos == other.epoch.tai_nanos && self.flag.spec_index()
            == other.flag.spec_index() && self.epoch.time_scale.spec_code()
            < other.epoch.time_scale.spec_code())
    }

    proof fn lemma_irreflexive(a: Self) {
    }

    proof fn lemma_transitive(a: Self, b: Self, c: Self) {
    }

    proof fn lemma_total(a: Self, b: Self) {
    }
}

impl RecordKey {
    /// Compares two keys.
    pub fn compare(&self, other: &RecordKey) -> (r: Precedence)
        ensures
            r == Precedence::Before <==> self.before(*other),
            r == Precedence::Same <==> *self == *other,
            r == Precedence::After <==> other.before(*self),
    {
        proof {
            RecordKey::lemma_total(*self, *other);
        }
        if self.epoch.tai_nanos < other.epoch.tai_nanos {
            Precedence::Before
        } else if self.epoch.tai_nanos > other.epoch.tai_nanos {
            Precedence::After
        } else if self.flag.index() < other.flag.index() {
            Precedence::Before
        } else if self.flag.index() > other.flag.index() {
            Precedence::After
        } else if self.epoch.time_scale.code() < other.epoch.time_scale.code() {
            Precedence::Before
        } else if self.epoch.time_scale.code() > other.epoch.time_scale.code() {
            Precedence::After
        } else {
            Precedence::Same
        }
    }
}

/// Key of an observation: a vehicle and an observable.
#[derive(Debug, PartialEq, Eq, Hash, PartialOrd, Ord)]
pub struct ObservationKey {
    /// Vehicle that was observed.
    pub sv: SV,
    /// What was measured.
    pub observable: Observable,
}

/// An observation key as contracts see it.
pub struct ObservationKeyView {
    pub sv: SV,
    pub observable: ObservableView,
}

impl View for ObservationKey {
    type V = ObservationKeyView;

    open spec fn view(&self) -> ObservationKeyView {
        ObservationKeyView { sv: self.sv, observable: self.observable@ }
    }
}

pub proof fn lemma_constellation_index(c: Constellation)
    ensures
        Constellation::at(c.index()) == c,
        0 <= c.index() <= 20,
{
}

impl Ordered for ObservationKeyView {
    /// Keys are ordered by constellation, then by PRN, then by observable.
    open spec fn before(self, other: Self) -> bool {
        self.sv.rank() < other.sv.rank() || (self.sv.rank() == other.sv.rank()
            && self.observable.before(other.observable))
    }

    proof fn lemma_irreflexive(a: Self) {
        lemma_text_before_irreflexive(a.observable.code);
    }

    proof fn lemma_transitive(a: Self, b: Self, c: Self) {
        if a.sv.rank() == b.sv.rank() && b.sv.rank() == c.sv.rank() {
            if a.observable.kind == b.observable.kind && b.observable.kind == c.observable.kind {
                lemma_text_before_transitive(
                    a.observable.code,
                    b.observable.code,
                    c.observable.code,
                );
            }
        }
    }

    proof fn lemma_total(a: Self, b: Self) {
        lemma_constellation_index(a.sv.constellation);
        lemma_constellation_index(b.sv.constellation);
        lemma_text_before_total(a.observable.code, b.observable.code);
    }
}

impl Clone for ObservationKey {
    fn clone(&self) -> (r: Self)
        ensures
            r@ == self@,
    {
        ObservationKey { sv: self.sv, observable: self.observable.clone() }
    }
}

impl ObservationKey {
    pub fn new(sv: SV, observable: Observable) -> (r: Self)
        ensures
            r@ == (ObservationKeyView { sv, observable: observable@ }),
    {
        ObservationKey { sv, observable }
    }

    /// Compares two keys.
    pub fn compare(&self, other: &ObservationKey) -> (r: Precedence)
        ensures
            r == Precedence::Before <==> self@.before(other@),
            r == Precedence::Same <==> self@ == other@,
            r == Precedence::After <==> other@.before(self@),
    {
        proof {
            ObservationKeyView::lemma_total(self@, other@);
            ObservationKeyView::lemma_irreflexive(self@);
            lemma_constellation_index(self.sv.constellation);
            lemma_constellation_index(other.sv.constellation);
            lemma_text_before_total(self@.observable.code, other@.observable.code);
        }
        let a: u16 = self.sv.constellation.to_index() as u16 * 256 + self.sv.prn as u16;
        let b: u16 = other.sv.constellation.to_index() as u16 * 256 + other.sv.prn as u16;
        if a < b {
            Precedence::Before
        } else if a > b {
            Precedence::After
        } else {
            self.observable.compare(&other.observable)
        }
    }
}

/// The observations of an epoch as contracts see them: a sorted list.
pub type ObservationsView = Seq<(ObservationKeyView, ObservationData)>;

/// The vehicles of a list of observations, each once, in ascending order.
pub open spec fn vehicles_of(s: ObservationsView) -> Seq<SV>
    decreases s.len(),
{
    if s.len() == 0 {
        Seq::empty()
    } else {
        let rest = vehicles_of(s.drop_last());
        if rest.len() > 0 && rest.last() == s.last().0.sv {
            rest
        } else {
            rest.push(s.last().0.sv)
        }
    }
}

/// The observations of an epoch, ordered by vehicle and observable.
#[derive(Debug, PartialEq, Eq)]
pub struct Observations {
    inner: Vec<(ObservationKey, ObservationData)>,
}

impl View for Observations {
    type V = ObservationsView;

    closed spec fn view(&self) -> ObservationsView {
        Seq::new(self.inner@.len(), |i: int| (self.inner@[i].0@, self.inner@[i].1))
    }
}

impl Observations {
    /// The keys grow strictly.
    pub open spec fn wf(&self) -> bool {
        sorted(self@)
    }

    pub fn new() -> (r: Self)
        ensures
            r@ == Seq::<(ObservationKeyView, ObservationData)>::empty(),
            r.wf(),
    {
        let r = Observations { inner: Vec::new() };
        assert(r@ =~= Seq::<(ObservationKeyView, ObservationData)>::empty());
        r
    }

    pub fn len(&self) -> (r: usize)
        ensures
            r == self@.len(),
    {
        self.inner.len()
    }

    pub fn is_empty(&self) -> (r: bool)
        ensures
            r == (self@.len() == 0),
    {
        self.inner.len() == 0
    }

    /// The key at a place of the order.
    pub fn key_at(&self, i: usize) -> (r: &ObservationKey)
        requires
            i < self@.len(),
        ensures
            r@ == self@[i as int].0,
    {
        &self.inner[i].0
    }

    /// The observation at a place of the order.
    pub fn data_at(&self, i: usize) -> (r: ObservationData)
        requires
            i < self@.len(),
        ensures
            r == self@[i as int].1,
    {
        self.inner[i].1
    }

    /// Number of keys that stand before `key`.
    fn position(&self, key: &ObservationKey) -> (r: (usize, bool))
        ensures
            r.0 == crate::assoc::rank(self@, key@),
            r.1 == crate::assoc::has_key(self@, key@),
            r.0 <= self@.len(),
    {
        let mut i: usize = 0;
        while i < self.inner.len()
            invariant
                i <= self.inner.len(),
                forall|j: int| 0 <= j < i ==> (#[trigger] self@[j]).0.before(key@),
            decreases self.inner.len() - i,
        {
            let p = self.inner[i].0.compare(key);
            assert(self@[i as int].0 == self.inner@[i as int].0@);
            match p {
                Precedence::Before => {
                    i += 1;
                },
                Precedence::Same => {
                    proof {
                        ObservationKeyView::lemma_irreflexive(key@);
                        lemma_rank_is(self@, key@, i as int);
                    }
                    return (i, true);
                },
                Precedence::After => {
                    proof {
                        ObservationKeyView::lemma_irreflexive(key@);
                        if self@[i as int].0.before(key@) {
                            ObservationKeyView::lemma_transitive(key@, self@[i as int].0, key@);
                        }
                        lemma_rank_is(self@, key@, i as int);
                    }
                    return (i, false);
                },
            }
        }
        proof {
            lemma_rank_is(self@, key@, i as int);
        }
        (i, false)
    }

    /// The observation of a key, if the epoch has one.
    pub fn get(&self, key: &ObservationKey) -> (r: Option<ObservationData>)
        ensures
            r == lookup(self@, key@),
    {
        let (i, found) = self.position(key);
        if found {
            Some(self.inner[i].1)
        } else {
            None
        }
    }

    pub fn contains_key(&self, key: &ObservationKey) -> (r: bool)
        ensures
            r == crate::assoc::has_key(self@, key@),
    {
        self.position(key).1
    }

    /// Sets the observation of a key.
    pub fn insert(&mut self, key: ObservationKey, data: ObservationData)
        requires
            old(self).wf(),
        ensures
            final(self).wf(),
            final(self)@ == put(old(self)@, key@, data),
    {
        let (i, found) = self.position(&key);
        proof {
            lemma_put_sorted(self@, key@, data);
        }
        if found {
            self.inner.set(i, (key, data));
        } else {
            self.inner.insert(i, (key, data));
        }
        assert(self@ =~= put(old(self)@, key@, data));
    }

    /// Sets the observation of a key unless the epoch has one.
    pub fn insert_new(&mut self, key: ObservationKey, data: ObservationData)
        requires
            old(self).wf(),
        ensures
            final(self).wf(),
            final(self)@ == put_new(old(self)@, key@, data),
    {
        let (i, found) = self.position(&key);
        proof {
            lemma_put_sorted(self@, key@, data);
        }
        if !found {
            self.inner.insert(i, (key, data));
        }
        assert(self@ =~= put_new(old(self)@, key@, data));
    }

    /// Adds an observation whose key stands after every key of the epoch.
    pub fn push_last(&mut self, key: ObservationKey, data: ObservationData)
        requires
            old(self).wf(),
            old(self)@.len() > 0 ==> old(self)@.last().0.before(key@),
        ensures
            final(self).wf(),
            final(self)@ == old(self)@.push((key@, data)),
    {
        let ghost k = key@;
        self.inner.push((key, data));
        assert(self@ =~= old(self)@.push((k, data)));
        proof {
            let s = old(self)@;
            let t = self@;
            assert forall|i: int, j: int| 0 <= i < j < t.len() implies (#[trigger] t[i]).0.before(
                (#[trigger] t[j]).0,
            ) by {
                if j < s.len() {
                    assert(t[i] == s[i] && t[j] == s[j]);
                } else if i < s.len() - 1 {
                    assert(t[i] == s[i]);
                    assert(s[i].0.before(s[s.len() - 1].0));
                    ObservationKeyView::lemma_transitive(s[i].0, s.last().0, k);
                } else {
                    assert(t[i] == s.last());
                }
            }
        }
    }

    /// The vehicles of the epoch, each once, in ascending order.
    pub fn vehicles(&self) -> (r: Vec<SV>)
        ensures
            r@ == vehicles_of(self@),
    {
        let mut out: Vec<SV> = Vec::new();
        let mut i: usize = 0;
        while i < self.inner.len()
            invariant
                i <= self.inner.len(),
                out@ == vehicles_of(self@.take(i as int)),
            decreases self.inner.len() - i,
        {
            let sv = self.inner[i].0.sv;
            assert(self@.take(i as int + 1).drop_last() =~= self@.take(i as int));
            assert(self@.take(i as int + 1).last() == self@[i as int]);
            let n = out.len();
            if n == 0 || !(out[n - 1] == sv) {
                out.push(sv);
            }
            i += 1;
        }
        assert(self@.take(i as int) =~= self@);
        out
    }
}

impl Clone for Observations {
    fn clone(&self) -> (r: Self)
        ensures
            r@ == self@,
    {
        let mut inner: Vec<(ObservationKey, ObservationData)> = Vec::new();
        let mut i: usize = 0;
        while i < self.inner.len()
            invariant
                i <= self.inner.len(),
                inner@.len() == i,
                forall|j: int|
                    0 <= j < i ==> (#[trigger] inner@[j]).0@ == self.inner@[j].0@ && inner@[j].1
                        == self.inner@[j].1,
            decreases self.inner.len() - i,
        {
            inner.push((self.inner[i].0.clone(), self.inner[i].1));
            i += 1;
        }
        let r = Observations { inner };
        assert(r@ =~= self@);
        r
    }
}

/// What the record holds for an epoch.
#[derive(Debug, PartialEq, Eq)]
pub struct RecordEntry {
    /// Offset of the receiver's clock, in picoseconds.
    pub clock_offset: Option<i64>,
    /// Observations of the epoch.
    pub observations: Observations,
}

/// An entry of the record as contracts see it.
pub struct RecordEntryView {
    pub clock_offset: Option<i64>,
    pub observations: ObservationsView,
}

impl View for RecordEntry {
    type V = RecordEntryView;

    open spec fn view(&self) -> RecordEntryView {
        RecordEntryView { clock_offset: self.clock_offset, observations: self.observations@ }
    }
}

impl RecordEntry {
    pub open spec fn wf(&self) -> bool {
        self.observations.wf()
    }

    pub fn new(clock_offset: Option<i64>, observations: Observations) -> (r: Self)
        ensures
            r@ == (RecordEntryView { clock_offset, observations: observations@ }),
            r.observations == observations,
    {
        RecordEntry { clock_offset, observations }
    }
}

impl Clone for RecordEntry {
    fn clone(&self) -> (r: Self)
        ensures
            r@ == self@,
    {
        RecordEntry { clock_offset: self.clock_offset, observations: self.observations.clone() }
    }
}

/// The record as contracts see it: a sorted list of epochs.
pub type RecordView = Seq<(RecordKey, RecordEntryView)>;

/// The keys of a record grow strictly, and so do the keys of the
/// observations of each epoch.
pub open spec fn record_wf(s: RecordView) -> bool {
    &&& sorted(s)
    &&& forall|i: int| 0 <= i < s.len() ==> sorted((#[trigger] s[i]).1.observations)
}

/// The observations of a file, ordered by epoch.
#[derive(Debug, PartialEq, Eq)]
pub struct Record {
    inner: Vec<(RecordKey, RecordEntry)>,
}

impl View for Record {
    type V = RecordView;

    closed spec fn view(&self) -> RecordView {
        Seq::new(self.inner@.len(), |i: int| (self.inner@[i].0, self.inner@[i].1@))
    }
}

impl Record {
    pub open spec fn wf(&self) -> bool {
        record_wf(self@)
    }

    pub fn new() -> (r: Self)
        ensures
            r@ == Seq::<(RecordKey, RecordEntryView)>::empty(),
            r.wf(),
    {
        let r = Record { inner: Vec::new() };
        assert(r@ =~= Seq::<(RecordKey, RecordEntryView)>::empty());
        r
    }

    pub fn len(&self) -> (r: usize)
        ensures
            r == self@.len(),
    {
        self.inner.len()
    }

    pub fn is_empty(&self) -> (r: bool)
        ensures
            r == (self@.len() == 0),
    {
        self.inner.len() == 0
    }

    /// The key at a place of the order.
    pub fn key_at(&self, i: usize) -> (r: RecordKey)
        requires
            i < self@.len(),
        ensures
            r == self@[i as int].0,
    {
        self.inner[i].0
    }

    /// The entry at a place of the order.
    pub fn entry_at(&self, i: usize) -> (r: &RecordEntry)
        requires
            i < self@.len(),
        ensures
            r@ == self@[i as int].1,
            self.wf() ==> r.wf(),
    {
        assert(self@[i as int].1 == self.inner@[i as int].1@);
        &self.inner[i].1
    }

    /// Number of keys that stand before `key`.
    fn position(&self, key: &RecordKey) -> (r: (usize, bool))
        ensures
            r.0 == crate::assoc::rank(self@, *key),
            r.1 == crate::assoc::has_key(self@, *key),
            r.0 <= self@.len(),
    {
        let mut i: usize = 0;
        while i < self.inner.len()
            invariant
                i <= self.inner.len(),
                forall|j: int| 0 <= j < i ==> (#[trigger] self@[j]).0.before(*key),
            decreases self.inner.len() - i,
        {
            let p = self.inner[i].0.compare(key);
            assert(self@[i as int].0 == self.inner@[i as int].0);
            match p {
                Precedence::Before => {
                    i += 1;
                },
                Precedence::Same => {
                    proof {
                        lemma_rank_is(self@, *key, i as int);
                    }
                    return (i, true);
                },
                Precedence::After => {
                    proof {
                        lemma_rank_is(self@, *key, i as int);
                    }
                    return (i, false);
                },
            }
        }
        proof {
            lemma_rank_is(self@, *key, i as int);
        }
        (i, false)
    }

    /// The entry of an epoch, if the record has one.
    pub fn get(&self, key: &RecordKey) -> (r: Option<&RecordEntry>)
        ensures
            match r {
                Some(e) => lookup(self@, *key) == Some(e@) && (self.wf() ==> e.wf()),
                None => lookup(self@, *key) is None,
            },
    {
        let (i, found) = self.position(key);
        if found {
            assert(self@[i as int].1 == self.inner@[i as int].1@);
            Some(&self.inner[i].1)
        } else {
            None
        }
    }

    pub fn contains_key(&self, key: &RecordKey) -> (r: bool)
        ensures
            r == crate::assoc::has_key(self@, *key),
    {
        self.position(key).1
    }

    /// Sets the entry of an epoch.
    pub fn insert(&mut self, key: RecordKey, entry: RecordEntry)
        requires
            old(self).wf(),
            entry.wf(),
        ensures
            final(self).wf(),
            final(self)@ == put(old(self)@, key, entry@),
    {
        let (i, found) = self.position(&key);
        let ghost e = entry@;
        proof {
            lemma_put_sorted(self@, key, e);
        }
        if found {
            self.inner.set(i, (key, entry));
        } else {
            self.inner.insert(i, (key, entry));
        }
        assert(self@ =~= put(old(self)@, key, e));
        proof {
            let s = old(self)@;
            let t = self@;
            assert forall|j: int| 0 <= j < t.len() implies sorted(
                (#[trigger] t[j]).1.observations,
            ) by {
                if j == i {
                } else if found || j < i {
                    assert(t[j] == s[j]);
                } else {
                    assert(t[j] == s[j - 1]);
                }
            }
        }
    }

    /// Adds an epoch whose key stands after every key of the record.
    pub fn push_last(&mut self, key: RecordKey, entry: RecordEntry)
        requires
            old(self).wf(),
            entry.wf(),
            old(self)@.len() > 0 ==> old(self)@.last().0.before(key),
        ensures
            final(self).wf(),
            final(self)@ == old(self)@.push((key, entry@)),
    {
        let ghost e = entry@;
        self.inner.push((key, entry));
        assert(self@ =~= old(self)@.push((key, e)));
        proof {
            let s = old(self)@;
            let t = self@;
            assert forall|i: int, j: int| 0 <= i < j < t.len() implies (#[trigger] t[i]).0.before(
                (#[trigger] t[j]).0,
            ) by {
                if j < s.len() {
                    assert(t[i] == s[i] && t[j] == s[j]);
                } else if i < s.len() - 1 {
                    assert(t[i] == s[i]);
                    assert(s[i].0.before(s[s.len() - 1].0));
                } else {
                    assert(t[i] == s.last());
                }
            }
            assert forall|j: int| 0 <= j < t.len() implies sorted(
                (#[trigger] t[j]).1.observations,
            ) by {
                if j < s.len() {
                    assert(t[j] == s[j]);
                }
            }
        }
    }
}

impl Clone for Record {
    fn clone(&self) -> (r: Self)
        ensures
            r@ == self@,
    {
        let mut inner: Vec<(RecordKey, RecordEntry)> = Vec::new();
        let mut i: usize = 0;
        while i < self.inner.len()
            invariant
                i <= self.inner.len(),
                inner@.len() == i,
                forall|j: int|
                    0 <= j < i ==> (#[trigger] inner@[j]).0 == self.inner@[j].0 && inner@[j].1@
                        == self.inner@[j].1@,
            decreases self.inner.len() - i,
        {
            inner.push((self.inner[i].0, self.inner[i].1.clone()));
            i += 1;
        }
        let r = Record { inner };
        assert(r@ =~= self@);
        r
    }
}

impl Default for Record {
    fn default() -> (r: Self)
        ensures
            r@ == Seq::<(RecordKey, RecordEntryView)>::empty(),
            r.wf(),
    {
        Record::new()
    }
}

} // verus!
