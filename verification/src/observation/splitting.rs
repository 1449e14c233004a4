//! Splitting an observation record in time.

use crate::assoc::Ordered;
use crate::assoc::lemma_retain_before_next;
use crate::assoc::retain;
use crate::epoch::Duration;
use crate::epoch::Epoch;
use crate::observation::record::Record;
use crate::observation::record::RecordEntryView;
use crate::observation::record::RecordKey;
use crate::observation::record::RecordView;
use vstd::prelude::*;

verus! {

/// Why a record or a file cannot be split.
#[derive(Clone, Copy, Debug, PartialEq, Eq, Structural)]
pub enum SplitError {
    /// The record is not indexed by epoch.
    NoEpochIteration,
}

/// The test of the epochs that come before an instant.
pub open spec fn before_instant(t: Epoch) -> spec_fn((RecordKey, RecordEntryView)) -> bool {
    |kv: (RecordKey, RecordEntryView)| kv.0.epoch.tai_nanos < t.tai_nanos
}

/// The test of the epochs that come at an instant or after it.
pub open spec fn from_instant(t: Epoch) -> spec_fn((RecordKey, RecordEntryView)) -> bool {
    |kv: (RecordKey, RecordEntryView)| kv.0.epoch.tai_nanos >= t.tai_nanos
}

/// Where the split by gaps stands between two epochs.
pub struct GapState {
    /// Epochs gathered since the last gap.
    pub segment: RecordView,
    /// Segments that a gap has closed.
    pub closed: Seq<RecordView>,
}

/// True when an epoch comes `gap` or more after the last epoch of the
/// segment. The first epoch of a record finds an empty segment, and
/// opens no gap.
pub open spec fn gap_opens(
    segment: RecordView,
    kv: (RecordKey, RecordEntryView),
    gap: Duration,
) -> bool {
    segment.len() > 0 && kv.0.epoch.tai_nanos - segment.last().0.epoch.tai_nanos >= gap.nanos
}

/// The state of the split by gaps after one more epoch: an epoch that
/// opens a gap closes the segment and starts the next one, any other
/// epoch joins the segment.
pub open spec fn gap_step(st: GapState, kv: (RecordKey, RecordEntryView), gap: Duration) -> GapState {
    if gap_opens(st.segment, kv, gap) {
        GapState { segment: seq![kv], closed: st.closed.push(st.segment) }
    } else {
        GapState { segment: st.segment.push(kv), closed: st.closed }
    }
}

/// The state of the split by gaps after the first `n` epochs of a record.
pub open spec fn gap_run(s: RecordView, gap: Duration, n: nat) -> GapState
    decreases n,
{
    if n == 0 {
        GapState { segment: Seq::empty(), closed: Seq::empty() }
    } else {
        gap_step(gap_run(s, gap, (n - 1) as nat), s[n - 1], gap)
    }
}

/// The segments of a record: those that a gap has closed, then the one
/// that is open when the record ends.
pub open spec fn split_by_gap(s: RecordView, gap: Duration) -> Seq<RecordView> {
    let st = gap_run(s, gap, s.len());
    if st.segment.len() > 0 {
        st.closed.push(st.segment)
    } else {
        st.closed
    }
}

/// The epochs of the first `n` segments, one segment after the other.
pub open spec fn joined_segments(segments: Seq<RecordView>, n: nat) -> RecordView
    decreases n,
{
    if n == 0 {
        Seq::empty()
    } else {
        joined_segments(segments, (n - 1) as nat) + segments[n - 1]
    }
}

/// Only the segments gone through count.
pub proof fn lemma_joined_segments_prefix(a: Seq<RecordView>, b: Seq<RecordView>, n: nat)
    requires
        n <= a.len(),
        n <= b.len(),
        forall|i: int| 0 <= i < n ==> a[i] == b[i],
    ensures
        joined_segments(a, n) == joined_segments(b, n),
    decreases n,
{
    if n > 0 {
        lemma_joined_segments_prefix(a, b, (n - 1) as nat);
    }
}

/// While a record is split by gaps, the closed segments and the open
/// one hold the epochs gone through, in order; no closed segment is
/// empty, and the open one holds the last epoch gone through.
pub proof fn lemma_gap_run(s: RecordView, gap: Duration, n: nat)
    requires
        n <= s.len(),
    ensures
        joined_segments(gap_run(s, gap, n).closed, gap_run(s, gap, n).closed.len()) + gap_run(
            s,
            gap,
            n,
        ).segment == s.take(n as int),
        forall|i: int|
            0 <= i < gap_run(s, gap, n).closed.len() ==> (#[trigger] gap_run(
                s,
                gap,
                n,
            ).closed[i]).len() > 0,
        n > 0 ==> gap_run(s, gap, n).segment.len() > 0 && gap_run(s, gap, n).segment.last()
            == s[n - 1],
    decreases n,
{
    if n > 0 {
        lemma_gap_run(s, gap, (n - 1) as nat);
        let prev = gap_run(s, gap, (n - 1) as nat);
        let st = gap_run(s, gap, n);
        let kv = s[n - 1];
        let before = joined_segments(prev.closed, prev.closed.len());
        assert(s.take(n as int) =~= s.take(n - 1).push(kv));
        if gap_opens(prev.segment, kv, gap) {
            lemma_joined_segments_prefix(st.closed, prev.closed, prev.closed.len());
            assert(st.closed.last() == prev.segment);
            assert((before + prev.segment) + seq![kv] =~= s.take(n as int));
        } else {
            assert(before + prev.segment.push(kv) =~= (before + prev.segment).push(kv));
        }
    } else {
        assert(s.take(0) =~= Seq::<(RecordKey, RecordEntryView)>::empty());
        assert(joined_segments(gap_run(s, gap, 0).closed, 0) + gap_run(s, gap, 0).segment
            =~= Seq::<(RecordKey, RecordEntryView)>::empty());
    }
}

/// The split by gaps is a partition: the segments, one after the other,
/// are the record; no segment is empty; a record that is not empty
/// gives a segment.
pub proof fn lemma_split_partition(s: RecordView, gap: Duration)
    ensures
        joined_segments(split_by_gap(s, gap), split_by_gap(s, gap).len()) == s,
        forall|i: int|
            0 <= i < split_by_gap(s, gap).len() ==> (#[trigger] split_by_gap(s, gap)[i]).len() > 0,
        s.len() > 0 ==> split_by_gap(s, gap).len() >= 1,
{
    lemma_gap_run(s, gap, s.len());
    let st = gap_run(s, gap, s.len());
    let parts = split_by_gap(s, gap);
    assert(s.take(s.len() as int) =~= s);
    if st.segment.len() > 0 {
        lemma_joined_segments_prefix(parts, st.closed, st.closed.len());
        assert(parts.last() == st.segment);
    } else {
        assert(joined_segments(st.closed, st.closed.len()) + st.segment =~= joined_segments(
            st.closed,
            st.closed.len(),
        ));
    }
}

/// Time from the epoch before the `i`-th to the `i`-th, in nanoseconds.
pub open spec fn span_before(s: RecordView, i: int) -> int {
    s[i].0.epoch.tai_nanos - s[i - 1].0.epoch.tai_nanos
}

/// No two epochs that follow each other are `gap` or more apart.
pub open spec fn no_gap(s: RecordView, gap: Duration) -> bool {
    forall|i: int| 0 < i < s.len() ==> #[trigger] span_before(s, i) < gap.nanos
}

/// A record without a gap stays in one segment while it is split.
pub proof fn lemma_gap_run_no_gap(s: RecordView, gap: Duration, n: nat)
    requires
        n <= s.len(),
        no_gap(s, gap),
    ensures
        gap_run(s, gap, n) == (GapState { segment: s.take(n as int), closed: Seq::empty() }),
    decreases n,
{
    if n > 0 {
        lemma_gap_run_no_gap(s, gap, (n - 1) as nat);
        let prev = s.take(n - 1);
        if n > 1 {
            assert(prev.last() == s[n - 2]);
            assert(span_before(s, n - 1) < gap.nanos);
        }
        assert(prev.push(s[n - 1]) =~= s.take(n as int));
    } else {
        assert(s.take(0) =~= Seq::<(RecordKey, RecordEntryView)>::empty());
    }
}

/// A record without a gap, if it is not empty, is its only segment.
pub proof fn lemma_split_no_gap(s: RecordView, gap: Duration)
    requires
        s.len() > 0,
        no_gap(s, gap),
    ensures
        split_by_gap(s, gap) == seq![s],
{
    lemma_gap_run_no_gap(s, gap, s.len());
    assert(s.take(s.len() as int) =~= s);
    assert(Seq::<RecordView>::empty().push(s) =~= seq![s]);
}

/// The views of a list of records.
pub open spec fn records_view(v: Seq<Record>) -> Seq<RecordView> {
    Seq::new(v.len(), |i: int| v[i]@)
}

impl Record {
    /// Splits the record at an instant: the epochs that come before it,
    /// and the others, each part in order.
    pub fn split(&self, epoch: Epoch) -> (r: Result<(Record, Record), SplitError>)
        requires
            self.wf(),
        ensures
            r matches Ok(p) && p.0.wf() && p.1.wf() && p.0@ == retain(self@, before_instant(epoch))
                && p.1@ == retain(self@, from_instant(epoch)),
    {
        let ghost s = self@;
        let mut r0 = Record::new();
        let mut r1 = Record::new();
        let mut i: usize = 0;
        assert(s.take(0) =~= Seq::<(RecordKey, RecordEntryView)>::empty());
        while i < self.len()
            invariant
                i <= s.len(),
                s == self@,
                self.wf(),
                r0.wf(),
                r1.wf(),
                r0@ == retain(s.take(i as int), before_instant(epoch)),
                r1@ == retain(s.take(i as int), from_instant(epoch)),
            decreases s.len() - i,
        {
            let key = self.key_at(i);
            let entry = self.entry_at(i);
            proof {
                lemma_retain_before_next(s, before_instant(epoch), i as int);
                lemma_retain_before_next(s, from_instant(epoch), i as int);
            }
            if key.epoch.tai_nanos < epoch.tai_nanos {
                r0.push_last(key, entry.clone());
            } else {
                r1.push_last(key, entry.clone());
            }
            i += 1;
        }
        assert(s.take(i as int) =~= s);
        Ok((r0, r1))
    }

    /// The segments of the record, as the split by gaps makes them.
    fn segments(&self, duration: Duration) -> (ret: Vec<Record>)
        requires
            self.wf(),
        ensures
            records_view(ret@) == split_by_gap(self@, duration),
            forall|j: int| 0 <= j < ret@.len() ==> (#[trigger] ret@[j]).wf(),
    {
        let ghost s = self@;
        let mut curr = Record::new();
        let mut ret: Vec<Record> = Vec::new();
        let mut i: usize = 0;
        assert(records_view(ret@) =~= Seq::<RecordView>::empty());
        while i < self.len()
            invariant
                i <= s.len(),
                s == self@,
                self.wf(),
                curr.wf(),
                i > 0 ==> curr@.len() > 0 && curr@.last() == s[i - 1],
                i == 0 ==> curr@.len() == 0,
                forall|j: int| 0 <= j < ret@.len() ==> (#[trigger] ret@[j]).wf(),
                gap_run(s, duration, i as nat).segment == curr@,
                gap_run(s, duration, i as nat).closed == records_view(ret@),
            decreases s.len() - i,
        {
            let key = self.key_at(i);
            let entry = self.entry_at(i);
            let ghost closed = records_view(ret@);
            let ghost segment = curr@;
            let apart = Record::opens_gap(&curr, &key, duration);
            assert(apart == gap_opens(segment, s[i as int], duration));
            if apart {
                ret.push(curr);
                assert(records_view(ret@) =~= closed.push(segment));
                curr = Record::new();
                curr.push_last(key, entry.clone());
                assert(curr@ =~= seq![s[i as int]]);
            } else {
                proof {
                    if i > 0 {
                        assert(s[i - 1].0.before(s[i as int].0));
                    }
                }
                curr.push_last(key, entry.clone());
            }
            i += 1;
        }
        let ghost closed = records_view(ret@);
        let ghost segment = curr@;
        if curr.len() > 0 {
            ret.push(curr);
            assert(records_view(ret@) =~= closed.push(segment));
        }
        ret
    }

    /// True when an epoch comes `duration` or more after the last epoch
    /// of a segment.
    fn opens_gap(segment: &Record, key: &RecordKey, duration: Duration) -> (r: bool)
        ensures
            r == (segment@.len() > 0 && key.epoch.tai_nanos - segment@.last().0.epoch.tai_nanos
                >= duration.nanos),
    {
        if segment.len() > 0 {
            let last = segment.key_at(segment.len() - 1);
            match key.epoch.tai_nanos.checked_sub(last.epoch.tai_nanos) {
                Some(d) => d >= duration.nanos,
                None => key.epoch.tai_nanos > last.epoch.tai_nanos,
            }
        } else {
            false
        }
    }

    /// Splits the record at its gaps: an epoch that comes `duration` or
    /// more after the one before it starts a new segment. Every epoch is
    /// in one segment, the first one included, and the segment that is
    /// open when the record ends is returned with the others.
    pub fn split_dt(&self, duration: Duration) -> (r: Result<Vec<Record>, SplitError>)
        requires
            self.wf(),
        ensures
            r matches Ok(v) && records_view(v@) == split_by_gap(self@, duration) && (forall|
                i: int,
            |
                0 <= i < v@.len() ==> (#[trigger] v@[i]).wf() && v@[i]@.len() > 0)
                && joined_segments(records_view(v@), v@.len() as nat) == self@ && (self@.len() > 0
                ==> v@.len() >= 1) && (self@.len() > 0 && no_gap(self@, duration)
                ==> records_view(v@) == seq![self@]),
    {
        let ret = self.segments(duration);
        proof {
            lemma_split_partition(self@, duration);
            if self@.len() > 0 && no_gap(self@, duration) {
                lemma_split_no_gap(self@, duration);
            }
            assert forall|k: int| 0 <= k < ret@.len() implies (#[trigger] ret@[k]).wf()
                && ret@[k]@.len() > 0 by {
                assert(records_view(ret@)[k] == ret@[k]@);
            }
        }
        Ok(ret)
    }
}

} // verus!
