//! Reading the body of a file: the lines are gathered epoch by epoch,
//! and the epochs go into the record.

use crate::assoc::put;
use crate::epoch::TimeScale;
use crate::header::Header;
use crate::header::HeaderView;
use crate::observation::parsing::epoch_of_lines;
use crate::observation::parsing::is_new_epoch_bytes;
use crate::observation::parsing::new_epoch;
use crate::observation::parsing::parse_epoch_lines;
use crate::observation::record::Error;
use crate::observation::record::Record;
use crate::observation::record::RecordView;
use crate::text::lines_of;
use crate::text::slices_view;
use crate::text::split_lines;
use vstd::prelude::*;
use vstd::slice::slice_subrange;
use vstd::string::StringSliceAdditionalSpecFns;

verus! {

/// Where the reader of a body stands between two lines.
pub struct ReadState {
    /// Epochs read so far.
    pub record: RecordView,
    /// Line at which the epoch that is being gathered starts.
    pub start: int,
}

/// The state of the reader after the line `i`. A line that opens an
/// epoch closes the one that was being gathered, which is read and goes
/// into the record in place of what the record held for its key.
pub open spec fn read_step(
    h: HeaderView,
    ts: TimeScale,
    lines: Seq<Seq<u8>>,
    st: ReadState,
    i: int,
) -> Result<ReadState, Error> {
    if i > st.start && new_epoch(lines[i], h.major) {
        match with_block(h, ts, st.record, lines.subrange(st.start, i)) {
            Err(e) => Err(e),
            Ok(record) => Ok(ReadState { record, start: i }),
        }
    } else {
        Ok(st)
    }
}

/// The state of the reader after the first `n` lines of a body.
pub open spec fn read_run(h: HeaderView, ts: TimeScale, lines: Seq<Seq<u8>>, n: nat) -> Result<
    ReadState,
    Error,
>
    decreases n,
{
    if n == 0 {
        Ok(ReadState { record: Seq::empty(), start: 0 })
    } else {
        match read_run(h, ts, lines, (n - 1) as nat) {
            Err(e) => Err(e),
            Ok(st) => read_step(h, ts, lines, st, n - 1),
        }
    }
}

/// The record that the lines of a body hold: every line that opens an
/// epoch starts a block, the first line starts one whatever it holds,
/// and each block is read as an epoch.
pub open spec fn record_of_lines(h: HeaderView, ts: TimeScale, lines: Seq<Seq<u8>>) -> Result<
    RecordView,
    Error,
> {
    match read_run(h, ts, lines, lines.len()) {
        Err(e) => Err(e),
        Ok(st) => if st.start < lines.len() {
            with_block(h, ts, st.record, lines.subrange(st.start, lines.len() as int))
        } else {
            Ok(st.record)
        },
    }
}

/// An error met on a line is the outcome, whatever lines follow.
pub proof fn lemma_read_error(h: HeaderView, ts: TimeScale, lines: Seq<Seq<u8>>, n: nat, m: nat)
    requires
        n <= m,
        read_run(h, ts, lines, n) is Err,
    ensures
        read_run(h, ts, lines, m) == read_run(h, ts, lines, n),
    decreases m - n,
{
    if n < m {
        lemma_read_error(h, ts, lines, n, (m - 1) as nat);
    }
}

/// The record with the epoch that a block of lines holds.
#[verifier::opaque]
pub open spec fn with_block(
    h: HeaderView,
    ts: TimeScale,
    record: RecordView,
    block: Seq<Seq<u8>>,
) -> Result<RecordView, Error> {
    match epoch_of_lines(h, block, ts) {
        Err(e) => Err(e),
        Ok(kv) => Ok(put(record, kv.0, kv.1)),
    }
}

/// Reads the epoch of a block of lines into the record.
fn read_block(header: &Header, ts: TimeScale, record: &mut Record, block: &[&[u8]]) -> (r: Result<
    (),
    Error,
>)
    requires
        old(record).wf(),
    ensures
        final(record).wf(),
        match r {
            Ok(_) => with_block(header@, ts, old(record)@, slices_view(block@)) == Ok::<
                RecordView,
                Error,
            >(final(record)@),
            Err(e) => with_block(header@, ts, old(record)@, slices_view(block@)) == Err::<
                RecordView,
                Error,
            >(e) && final(record)@ == old(record)@,
        },
{
    reveal(with_block);
    match parse_epoch_lines(header, block, ts) {
        Ok((key, entry)) => {
            record.insert(key, entry);
            Ok(())
        },
        Err(e) => Err(e),
    }
}

impl Record {
    /// Reads the record of a body from its lines.
    pub fn parse_lines(header: &Header, lines: &[&[u8]], ts: TimeScale) -> (r: Result<Record, Error>)
        ensures
            match r {
                Ok(record) => record_of_lines(header@, ts, slices_view(lines@)) == Ok::<
                    RecordView,
                    Error,
                >(record@) && record.wf(),
                Err(e) => record_of_lines(header@, ts, slices_view(lines@)) == Err::<
                    RecordView,
                    Error,
                >(e),
            },
    {
        let ghost h = header@;
        let ghost all = slices_view(lines@);
        let mut record = Record::new();
        let mut start: usize = 0;
        let mut i: usize = 0;
        while i < lines.len()
            invariant
                i <= lines.len(),
                start <= i,
                h == header@,
                all == slices_view(lines@),
                record.wf(),
                read_run(h, ts, all, i as nat) == Ok::<ReadState, Error>(
                    ReadState { record: record@, start: start as int },
                ),
            decreases lines.len() - i,
        {
            assert(all[i as int] == lines@[i as int]@);
            if i > start && is_new_epoch_bytes(lines[i], header.version) {
                let block = slice_subrange(lines, start, i);
                assert(slices_view(block@) =~= all.subrange(start as int, i as int));
                match read_block(header, ts, &mut record, block) {
                    Ok(_) => {},
                    Err(e) => {
                        proof {
                            lemma_read_error(h, ts, all, (i + 1) as nat, all.len());
                        }
                        return Err(e);
                    },
                }
                start = i;
            }
            i += 1;
        }
        if start < lines.len() {
            let block = slice_subrange(lines, start, lines.len());
            assert(slices_view(block@) =~= all.subrange(start as int, all.len() as int));
            match read_block(header, ts, &mut record, block) {
                Ok(_) => {},
                Err(e) => {
                    return Err(e);
                },
            }
        }
        Ok(record)
    }

    /// Reads the record of a body from its text.
    pub fn parse(header: &Header, content: &str, ts: TimeScale) -> (r: Result<Record, Error>)
        ensures
            match r {
                Ok(record) => record_of_lines(header@, ts, lines_of(content.spec_bytes())) == Ok::<
                    RecordView,
                    Error,
                >(record@) && record.wf(),
                Err(e) => record_of_lines(header@, ts, lines_of(content.spec_bytes())) == Err::<
                    RecordView,
                    Error,
                >(e),
            },
    {
        let lines = split_lines(content.as_bytes());
        Record::parse_lines(header, lines.as_slice(), ts)
    }
}

} // verus!
