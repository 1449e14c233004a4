//! RINEX observation records: parsing, formatting and filtering of the
//! column-positioned observation blocks of revisions 2 and 3, with the
//! record model and the mask, merge and split operators that work on it.

pub mod assoc;
pub mod checksum;
pub mod constellation;
pub mod epoch;
pub mod header;
pub mod observable;
pub mod observation;
pub mod processing;
pub mod sampling;
pub mod signals;
pub mod sinex;
pub mod text;

use crate::epoch::Duration;
use crate::epoch::Epoch;
use crate::epoch::TimeScale;
use crate::header::Crinex;
use crate::header::Header;
use crate::header::RinexType;
use crate::header::Version;
use crate::header::comments_view;
use crate::observation::masking::mask_record;
use crate::observation::merging::MergeError;
use crate::observation::merging::merge_records;
use crate::observation::record::Record;
use crate::observation::splitting::SplitError;
use crate::observation::splitting::records_view;
use crate::observation::splitting::split_by_gap;
use crate::observation::splitting::before_instant;
use crate::observation::splitting::from_instant;
use crate::processing::masking::MaskFilter;
use crate::text::all_ascii;
use crate::text::ascii_chars;
use crate::text::ceil_div;
use crate::text::clip;
use crate::text::clip_slice;
use crate::text::div_ceil;
use crate::text::pad_right;
use crate::text::push_all;
use crate::text::push_byte;
use crate::text::push_padded_right;
use crate::text::same_bytes;
use crate::text::string_from_ascii;
use crate::text::trim_end;
use crate::text::trim_end_in_place;
use vstd::prelude::*;
use vstd::string::StringSliceAdditionalSpecFns;

verus! {

/// Column at which the label of a header line or of a comment starts.
pub const LABEL_COLUMN: usize = 60;

/// `COMMENT`
pub open spec fn comment_label() -> Seq<u8> {
    seq![67u8, 79, 77, 77, 69, 78, 84]
}

/// `FILE MERGE`
pub open spec fn merge_label() -> Seq<u8> {
    seq![70u8, 73, 76, 69, 32, 77, 69, 82, 71, 69]
}

/// True when `part` stands somewhere in `s`.
pub open spec fn has_part(s: Seq<u8>, part: Seq<u8>) -> bool {
    exists|i: int| 0 <= i <= s.len() - part.len() && #[trigger] s.subrange(i, i + part.len()) == part
}

/// True when `part` stands somewhere in `s`.
pub fn contains_bytes(s: &[u8], part: &[u8]) -> (r: bool)
    ensures
        r == has_part(s@, part@),
{
    if part.len() > s.len() {
        return false;
    }
    let last: usize = s.len() - part.len();
    let mut i: usize = 0;
    loop
        invariant
            i <= last,
            part@.len() <= s@.len(),
            last == s@.len() - part@.len(),
            forall|j: int| 0 <= j < i ==> #[trigger] s@.subrange(j, j + part@.len()) != part@,
        decreases last - i,
    {
        let width = part.len();
        let total = s.len();
        let window = clip_slice(s, i, i + width);
        assert(window@ =~= s@.subrange(i as int, i + part@.len()));
        if same_bytes(window, part) {
            return true;
        }
        if i == last {
            return false;
        }
        i += 1;
    }
}

/// True when a line is a comment: more than 60 columns, and `COMMENT`
/// at the end, blanks after it set aside.
pub open spec fn rinex_comment(line: Seq<u8>) -> bool {
    line.len() > 60 && trim_end(line).len() >= 7 && trim_end(line).skip(trim_end(line).len() - 7)
        == comment_label()
}

/// True when a line is a comment.
pub fn is_rinex_comment(content: &str) -> (r: bool)
    ensures
        r == rinex_comment(content.spec_bytes()),
{
    let line = content.as_bytes();
    if line.len() <= LABEL_COLUMN {
        return false;
    }
    let mut copy: Vec<u8> = Vec::new();
    push_all(&mut copy, line);
    trim_end_in_place(&mut copy);
    let n = copy.len();
    if n < 7 {
        return false;
    }
    let label: [u8; 7] = [67, 79, 77, 77, 69, 78, 84];
    assert(label@ =~= comment_label());
    let tail = clip_slice(copy.as_slice(), n - 7, n);
    assert(tail@ =~= copy@.skip(n - 7));
    same_bytes(tail, label.as_slice())
}

/// The first `n` lines of a text laid out as header lines: 60 columns
/// of the text filled with blanks, then the label; a line feed between
/// two lines.
pub open spec fn labelled_lines(content: Seq<u8>, label: Seq<u8>, n: nat) -> Seq<u8>
    decreases n,
{
    if n == 0 {
        Seq::empty()
    } else {
        labelled_lines(content, label, (n - 1) as nat) + (if n > 1 {
            seq![10u8]
        } else {
            Seq::empty()
        }) + pad_right(clip(content, 60 * (n - 1), 60 * (n as int)), 60, 32) + label
    }
}

/// A text laid out as header lines with a label from column 60 on. A
/// text of fewer than 60 columns gives one line; a longer one is cut
/// every 60 columns.
pub open spec fn labelled(content: Seq<u8>, label: Seq<u8>) -> Seq<u8> {
    if content.len() < 60 {
        pad_right(content, 60, 32) + label
    } else {
        labelled_lines(content, label, ceil_div(content.len(), 60))
    }
}

/// Lays a text out as header lines with a label from column 60 on.
pub fn fmt_rinex(content: &str, marker: &str) -> (r: String)
    requires
        all_ascii(content.spec_bytes()),
        all_ascii(marker.spec_bytes()),
    ensures
        r@ == ascii_chars(labelled(content.spec_bytes(), marker.spec_bytes())),
{
    let text = content.as_bytes();
    let label = marker.as_bytes();
    let mut out: Vec<u8> = Vec::new();
    if text.len() < LABEL_COLUMN {
        push_padded_right(&mut out, text, LABEL_COLUMN, 32);
        push_all(&mut out, label);
        assert(out@ =~= labelled(text@, label@));
        return string_from_ascii(out);
    }
    let lines = div_ceil(text.len(), LABEL_COLUMN);
    let mut i: usize = 0;
    assert(out@ =~= labelled_lines(text@, label@, 0));
    while i < lines
        invariant
            i <= lines,
            lines == ceil_div(text@.len(), 60),
            all_ascii(text@),
            all_ascii(label@),
            all_ascii(out@),
            out@ == labelled_lines(text@, label@, i as nat),
        decreases lines - i,
    {
        let ghost before = out@;
        if i > 0 {
            push_byte(&mut out, 10);
        }
        let ghost a = out@;
        let width = text.len();
        assert(60 * i < width);
        let start: usize = i * LABEL_COLUMN;
        let end: usize = if text.len() - start >= LABEL_COLUMN {
            start + LABEL_COLUMN
        } else {
            text.len()
        };
        let chunk = clip_slice(text, start, end);
        assert(chunk@ =~= clip(text@, 60 * i, 60 * (i + 1)));
        proof {
            crate::processing::token::lemma_ascii_part(text@, start as int, end as int);
        }
        push_padded_right(&mut out, chunk, LABEL_COLUMN, 32);
        push_all(&mut out, label);
        i += 1;
        assert(out@ =~= before + (if i > 1 {
            seq![10u8]
        } else {
            Seq::<u8>::empty()
        }) + pad_right(clip(text@, 60 * (i - 1), 60 * i), 60, 32) + label@);
    }
    string_from_ascii(out)
}

/// Lays a text out as comment lines.
pub fn fmt_comment(content: &str) -> (r: String)
    requires
        all_ascii(content.spec_bytes()),
    ensures
        r@ == ascii_chars(labelled(content.spec_bytes(), comment_label())),
{
    let text = content.as_bytes();
    let label: [u8; 7] = [67, 79, 77, 77, 69, 78, 84];
    assert(label@ =~= comment_label());
    fmt_labelled(text, label.as_slice())
}

/// Lays a text out as header lines with a label from column 60 on.
pub fn fmt_labelled(text: &[u8], label: &[u8]) -> (r: String)
    requires
        all_ascii(text@),
        all_ascii(label@),
    ensures
        r@ == ascii_chars(labelled(text@, label@)),
{
    let mut out: Vec<u8> = Vec::new();
    if text.len() < LABEL_COLUMN {
        push_padded_right(&mut out, text, LABEL_COLUMN, 32);
        push_all(&mut out, label);
        assert(out@ =~= labelled(text@, label@));
        return string_from_ascii(out);
    }
    let lines = div_ceil(text.len(), LABEL_COLUMN);
    let mut i: usize = 0;
    assert(out@ =~= labelled_lines(text@, label@, 0));
    while i < lines
        invariant
            i <= lines,
            lines == ceil_div(text@.len(), 60),
            all_ascii(text@),
            all_ascii(label@),
            all_ascii(out@),
            out@ == labelled_lines(text@, label@, i as nat),
        decreases lines - i,
    {
        let ghost before = out@;
        if i > 0 {
            push_byte(&mut out, 10);
        }
        let width = text.len();
        assert(60 * i < width);
        let start: usize = i * LABEL_COLUMN;
        let end: usize = if text.len() - start >= LABEL_COLUMN {
            start + LABEL_COLUMN
        } else {
            text.len()
        };
        let chunk = clip_slice(text, start, end);
        assert(chunk@ =~= clip(text@, 60 * i, 60 * (i + 1)));
        proof {
            crate::processing::token::lemma_ascii_part(text@, start as int, end as int);
        }
        push_padded_right(&mut out, chunk, LABEL_COLUMN, 32);
        push_all(&mut out, label);
        i += 1;
        assert(out@ =~= before + (if i > 1 {
            seq![10u8]
        } else {
            Seq::<u8>::empty()
        }) + pad_right(clip(text@, 60 * (i - 1), 60 * i), 60, 32) + label@);
    }
    string_from_ascii(out)
}

/// The comments of a file body: for each instant, the comments that
/// were met there.
pub type Comments = Vec<(Epoch, Vec<String>)>;

/// The comments of a file body as contracts see them.
pub open spec fn body_comments_view(c: Seq<(Epoch, Vec<String>)>) -> Seq<(Epoch, Seq<Seq<char>>)> {
    Seq::new(c.len(), |i: int| (c[i].0, comments_view(c[i].1@)))
}

/// Copies the comments of a file body.
pub fn clone_comments(c: &Comments) -> (r: Comments)
    ensures
        body_comments_view(r@) == body_comments_view(c@),
{
    let mut out: Vec<(Epoch, Vec<String>)> = Vec::new();
    let mut i: usize = 0;
    while i < c.len()
        invariant
            i <= c.len(),
            out@.len() == i,
            forall|j: int|
                0 <= j < i ==> (#[trigger] out@[j]).0 == c@[j].0 && comments_view(out@[j].1@)
                    == comments_view(c@[j].1@),
        decreases c.len() - i,
    {
        let mut texts: Vec<String> = Vec::new();
        let mut k: usize = 0;
        while k < c[i].1.len()
            invariant
                i < c.len(),
                k <= c@[i as int].1@.len(),
                texts@.len() == k,
                forall|j: int| 0 <= j < k ==> (#[trigger] texts@[j])@ == c@[i as int].1@[j]@,
            decreases c@[i as int].1@.len() - k,
        {
            texts.push(c[i].1[k].clone());
            k += 1;
        }
        assert(comments_view(texts@) =~= comments_view(c@[i as int].1@));
        out.push((c[i].0, texts));
        i += 1;
    }
    assert(body_comments_view(out@) =~= body_comments_view(c@));
    out
}

/// A file: its header, the comments of its body and its record.
#[derive(Debug, PartialEq, Eq)]
pub struct Rinex {
    /// Header of the file.
    pub header: Header,
    /// Comments met in the body of the file.
    pub comments: Comments,
    /// Body of the file.
    pub record: Record,
}

impl Clone for Rinex {
    fn clone(&self) -> (r: Self)
        ensures
            r.same_file(self),
    {
        Rinex {
            header: self.header.clone(),
            comments: clone_comments(&self.comments),
            record: self.record.clone(),
        }
    }
}

impl Default for Rinex {
    fn default() -> (r: Self)
        ensures
            r.record@ == Seq::<(crate::observation::record::RecordKey,
            crate::observation::record::RecordEntryView)>::empty(),
            r.record.wf(),
            r.header.rinex_type == RinexType::ObservationData,
            r.comments@.len() == 0,
    {
        Rinex { header: Header::default(), comments: Vec::new(), record: Record::new() }
    }
}

impl Rinex {
    /// The record keeps its order.
    pub open spec fn wf(&self) -> bool {
        self.record.wf()
    }

    /// The two files hold the same header, comments and record.
    pub open spec fn same_file(&self, other: &Rinex) -> bool {
        &&& self.same_header(other)
        &&& body_comments_view(self.comments@) == body_comments_view(other.comments@)
        &&& self.record@ == other.record@
    }

    /// The two files hold the same header: the same frame and the same
    /// observation fields, mark of compression included.
    pub open spec fn same_header(&self, other: &Rinex) -> bool {
        self.header.same(&other.header)
    }

    /// The header of the file is that of `other` but for the mark of
    /// compression: the same frame, and observation fields that tell the
    /// same tables, clock offset and first and last observation. A
    /// header without observation fields gets empty ones when it is
    /// marked, and stays without when the mark goes.
    pub open spec fn same_header_but_mark(&self, other: &Rinex, marked: bool) -> bool {
        &&& self.header.same_frame(&other.header)
        &&& match other.header.obs {
            Some(p) => self.header.obs matches Some(q) && q.same_but_mark(&p),
            None => if marked {
                self.header.obs matches Some(q) && q.tables().len() == 0
                    && !q.clock_offset_applied && q.time_of_first_obs is None
                    && q.time_of_last_obs is None
            } else {
                self.header.obs is None
            },
        }
    }

    /// Builds a file from a header and a record.
    pub fn new(header: Header, record: Record) -> (r: Rinex)
        ensures
            r.header == header,
            r.record == record,
            r.comments@.len() == 0,
    {
        Rinex { header, record, comments: Vec::new() }
    }

    /// A copy of the file with another header.
    pub fn with_header(&self, header: Header) -> (r: Self)
        ensures
            r.header == header,
            r.record@ == self.record@,
            body_comments_view(r.comments@) == body_comments_view(self.comments@),
    {
        Rinex { header, record: self.record.clone(), comments: clone_comments(&self.comments) }
    }

    /// Replaces the header.
    pub fn replace_header(&mut self, header: Header)
        ensures
            final(self).header == header,
            final(self).record == old(self).record,
            final(self).comments == old(self).comments,
    {
        self.header = header;
    }

    /// A copy of the file with another record.
    pub fn with_record(&self, record: Record) -> (r: Self)
        ensures
            r.record == record,
            r.same_header(self),
            body_comments_view(r.comments@) == body_comments_view(self.comments@),
    {
        Rinex { record, header: self.header.clone(), comments: clone_comments(&self.comments) }
    }

    /// Replaces the record.
    pub fn replace_record(&mut self, record: Record)
        ensures
            final(self).record == record,
            final(self).header == old(self).header,
            final(self).comments == old(self).comments,
    {
        self.record = record;
    }

    /// True for a file of antenna data.
    pub fn is_antex(&self) -> (r: bool)
        ensures
            r == (self.header.rinex_type == RinexType::AntennaData),
    {
        matches!(self.header.rinex_type, RinexType::AntennaData)
    }

    /// True for a file of clock data.
    pub fn is_clock_rinex(&self) -> (r: bool)
        ensures
            r == (self.header.rinex_type == RinexType::ClockData),
    {
        matches!(self.header.rinex_type, RinexType::ClockData)
    }

    /// True for a file of ionosphere maps.
    pub fn is_ionex(&self) -> (r: bool)
        ensures
            r == (self.header.rinex_type == RinexType::IonosphereMaps),
    {
        matches!(self.header.rinex_type, RinexType::IonosphereMaps)
    }

    /// True when the header tells maps of three dimensions.
    pub fn is_ionex_3d(&self) -> (r: bool)
        ensures
            r == (self.header.ionex matches Some(f) && f.map_dimension == 3),
    {
        match self.header.ionex {
            Some(f) => f.map_dimension == 3,
            None => false,
        }
    }

    /// True when the header tells maps of two dimensions.
    pub fn is_ionex_2d(&self) -> (r: bool)
        ensures
            r == (self.header.ionex matches Some(f) && f.map_dimension == 2),
    {
        match self.header.ionex {
            Some(f) => f.map_dimension == 2,
            None => false,
        }
    }

    /// True for a file of meteorological data.
    pub fn is_meteo_rinex(&self) -> (r: bool)
        ensures
            r == (self.header.rinex_type == RinexType::MeteoData),
    {
        matches!(self.header.rinex_type, RinexType::MeteoData)
    }

    /// True for a file of navigation data.
    pub fn is_navigation_rinex(&self) -> (r: bool)
        ensures
            r == (self.header.rinex_type == RinexType::NavigationData),
    {
        matches!(self.header.rinex_type, RinexType::NavigationData)
    }

    /// True for a file of observation data.
    pub open spec fn spec_is_observation_rinex(&self) -> bool {
        self.header.rinex_type == RinexType::ObservationData
    }

    /// True for a file of observation data.
    #[verifier::when_used_as_spec(spec_is_observation_rinex)]
    pub fn is_observation_rinex(&self) -> (r: bool)
        ensures
            r == self.spec_is_observation_rinex(),
    {
        matches!(self.header.rinex_type, RinexType::ObservationData)
    }

    /// True when a comment of the header tells that the file was merged
    /// from two: the comment holds `FILE MERGE`.
    pub fn is_merged(&self) -> (r: bool)
        ensures
            r == exists|i: int|
                0 <= i < self.header.comments@.len() && has_part(
                    vstd::utf8::encode_utf8((#[trigger] self.header.comments@[i])@),
                    merge_label(),
                ),
    {
        let label: [u8; 10] = [70, 73, 76, 69, 32, 77, 69, 82, 71, 69];
        assert(label@ =~= merge_label());
        let mut i: usize = 0;
        while i < self.header.comments.len()
            invariant
                i <= self.header.comments.len(),
                label@ == merge_label(),
                forall|j: int|
                    0 <= j < i ==> !has_part(
                        vstd::utf8::encode_utf8((#[trigger] self.header.comments@[j])@),
                        merge_label(),
                    ),
            decreases self.header.comments.len() - i,
        {
            if contains_bytes(self.header.comments[i].as_str().as_bytes(), label.as_slice()) {
                return true;
            }
            i += 1;
        }
        false
    }

    /// Marks an observation file as compressed: in revision 1 of the
    /// compression for the revisions 1 and 2 of the format, in revision 3
    /// for the others. Files of another kind stay as they are.
    pub fn rnx2crnx_mut(&mut self)
        ensures
            final(self).record == old(self).record,
            final(self).comments == old(self).comments,
            final(self).header.rinex_type == old(self).header.rinex_type,
            final(self).header.tables() == old(self).header.tables(),
            if old(self).spec_is_observation_rinex() {
                final(self).same_header_but_mark(old(self), true) && (final(self).header.obs
                    matches Some(f) && f.crinex matches Some(c) && c.version.major == if old(
                    self,
                ).header.version.major == 1 || old(self).header.version.major == 2 {
                    1u8
                } else {
                    3u8
                })
            } else {
                final(self).header == old(self).header
            },
    {
        if self.is_observation_rinex() {
            let mut crinex = Crinex::default();
            crinex.version.major = if self.header.version.major == 1 || self.header.version.major
                == 2 {
                1
            } else {
                3
            };
            self.set_crinex(crinex);
        }
    }

    /// A copy of the file marked as compressed.
    pub fn rnx2crnx(&self) -> (r: Self)
        ensures
            body_comments_view(r.comments@) == body_comments_view(self.comments@),
            if self.spec_is_observation_rinex() {
                r.same_header_but_mark(self, true)
            } else {
                r.same_header(self)
            },
            r.record@ == self.record@,
            r.header.rinex_type == self.header.rinex_type,
            r.header.tables() == self.header.tables(),
            self.spec_is_observation_rinex() ==> r.header.spec_is_crinex(),
            !self.spec_is_observation_rinex() ==> r.header.spec_is_crinex()
                == self.header.spec_is_crinex(),
    {
        let mut s = self.clone();
        s.rnx2crnx_mut();
        s
    }

    /// Marks an observation file as compressed in revision 1 of the
    /// compression, dated by the system's clock. Files of another kind
    /// stay as they are.
    pub fn rnx2crnx1_mut(&mut self)
        ensures
            final(self).record == old(self).record,
            final(self).comments == old(self).comments,
            final(self).header.rinex_type == old(self).header.rinex_type,
            final(self).header.tables() == old(self).header.tables(),
            if old(self).spec_is_observation_rinex() {
                final(self).same_header_but_mark(old(self), true) && (final(self).header.obs
                    matches Some(f) && f.crinex matches Some(c) && c.version == (Version {
                    major: 1,
                    minor: 0,
                }) && c.date.time_scale == TimeScale::UTC)
            } else {
                final(self).header == old(self).header
            },
    {
        if self.is_observation_rinex() {
            self.set_crinex(
                Crinex {
                    version: Version { major: 1, minor: 0 },
                    date: Rinex::today(),
                    prog: "rust-rinex-0.1.0".to_owned(),
                },
            );
        }
    }

    /// A copy of the file marked as compressed in revision 1.
    pub fn rnx2crnx1(&self) -> (r: Self)
        ensures
            body_comments_view(r.comments@) == body_comments_view(self.comments@),
            if self.spec_is_observation_rinex() {
                r.same_header_but_mark(self, true)
            } else {
                r.same_header(self)
            },
            r.record@ == self.record@,
            r.header.rinex_type == self.header.rinex_type,
            r.header.tables() == self.header.tables(),
            self.spec_is_observation_rinex() ==> (r.header.obs matches Some(f)
                && f.crinex matches Some(c) && c.version == (Version { major: 1, minor: 0 })
                && c.date.time_scale == TimeScale::UTC),
    {
        let mut s = self.clone();
        s.rnx2crnx1_mut();
        s
    }

    /// Marks an observation file as compressed in revision 3 of the
    /// compression, dated by the system's clock. Files of another kind
    /// stay as they are.
    pub fn rnx2crnx3_mut(&mut self)
        ensures
            final(self).record == old(self).record,
            final(self).comments == old(self).comments,
            final(self).header.rinex_type == old(self).header.rinex_type,
            final(self).header.tables() == old(self).header.tables(),
            if old(self).spec_is_observation_rinex() {
                final(self).same_header_but_mark(old(self), true) && (final(self).header.obs
                    matches Some(f) && f.crinex matches Some(c) && c.version == (Version {
                    major: 3,
                    minor: 0,
                }) && c.date.time_scale == TimeScale::UTC)
            } else {
                final(self).header == old(self).header
            },
    {
        if self.is_observation_rinex() {
            self.set_crinex(
                Crinex {
                    version: Version { major: 3, minor: 0 },
                    date: Rinex::today(),
                    prog: "rust-crinex".to_owned(),
                },
            );
        }
    }

    /// A copy of the file marked as compressed in revision 3.
    pub fn rnx2crnx3(&self) -> (r: Self)
        ensures
            body_comments_view(r.comments@) == body_comments_view(self.comments@),
            if self.spec_is_observation_rinex() {
                r.same_header_but_mark(self, true)
            } else {
                r.same_header(self)
            },
            r.record@ == self.record@,
            r.header.rinex_type == self.header.rinex_type,
            r.header.tables() == self.header.tables(),
            self.spec_is_observation_rinex() ==> (r.header.obs matches Some(f)
                && f.crinex matches Some(c) && c.version == (Version { major: 3, minor: 0 })
                && c.date.time_scale == TimeScale::UTC),
    {
        let mut s = self.clone();
        s.rnx2crnx3_mut();
        s
    }

    /// Removes the mark of compression from an observation file. Files
    /// of another kind stay as they are.
    pub fn crnx2rnx_mut(&mut self)
        ensures
            final(self).record == old(self).record,
            final(self).comments == old(self).comments,
            final(self).header.rinex_type == old(self).header.rinex_type,
            final(self).header.tables() == old(self).header.tables(),
            if old(self).spec_is_observation_rinex() {
                !final(self).header.spec_is_crinex() && final(self).same_header_but_mark(
                    old(self),
                    false,
                )
            } else {
                final(self).header == old(self).header
            },
    {
        if self.is_observation_rinex() {
            match self.header.obs.take() {
                Some(fields) => {
                    self.header.obs = Some(fields.with_crinex(None));
                },
                None => {},
            }
        }
    }

    /// A copy of the file without the mark of compression.
    pub fn crnx2rnx(&self) -> (r: Self)
        ensures
            body_comments_view(r.comments@) == body_comments_view(self.comments@),
            if self.spec_is_observation_rinex() {
                r.same_header_but_mark(self, false)
            } else {
                r.same_header(self)
            },
            r.record@ == self.record@,
            r.header.rinex_type == self.header.rinex_type,
            r.header.tables() == self.header.tables(),
            self.spec_is_observation_rinex() ==> !r.header.spec_is_crinex(),
    {
        let mut s = self.clone();
        s.crnx2rnx_mut();
        s
    }

    /// Sets the mark of compression of the header.
    fn set_crinex(&mut self, crinex: Crinex)
        ensures
            final(self).record == old(self).record,
            final(self).comments == old(self).comments,
            final(self).header.same_frame(&old(self).header),
            final(self).header.tables() == old(self).header.tables(),
            final(self).header.obs matches Some(f) && f.crinex == Some(crinex),
            final(self).same_header_but_mark(old(self), true),
    {
        let mut header = Header::default();
        std::mem::swap(&mut header, &mut self.header);
        self.header = header.with_crinex(crinex);
    }

    /// The date that a reading of the clock gives: the instant read, or
    /// the origin of time, in UTC, where the clock could not be read.
    pub open spec fn date_of_reading(reading: Option<Epoch>) -> Epoch {
        match reading {
            Some(e) => e,
            None => Epoch { tai_nanos: 0, time_scale: TimeScale::UTC },
        }
    }

    /// The date that a reading of the clock gives.
    pub fn date_of(reading: Option<Epoch>) -> (r: Epoch)
        ensures
            r == Rinex::date_of_reading(reading),
    {
        match reading {
            Some(e) => e,
            None => Epoch { tai_nanos: 0, time_scale: TimeScale::UTC },
        }
    }

    /// The date that the system's clock gives, which shows UTC: the
    /// date of whatever reading the clock gives.
    fn today() -> (r: Epoch)
        ensures
            r.time_scale == TimeScale::UTC,
    {
        Rinex::date_of(Epoch::now())
    }

    /// The record of the observations.
    pub fn observation(&self) -> (r: &Record)
        ensures
            *r == self.record,
    {
        &self.record
    }

    /// Applies a mask to the file.
    pub fn mask_mut(&mut self, mask: &MaskFilter)
        requires
            old(self).wf(),
        ensures
            final(self).wf(),
            final(self).record@ == mask_record(mask@, old(self).record@),
            final(self).header == old(self).header,
            final(self).comments == old(self).comments,
    {
        self.record.mask_mut(mask);
    }

    /// The file that a mask leaves.
    pub fn mask(&self, mask: &MaskFilter) -> (r: Self)
        requires
            self.wf(),
        ensures
            r.wf(),
            r.record@ == mask_record(mask@, self.record@),
            r.same_header(self),
    {
        let mut s = self.clone();
        s.mask_mut(mask);
        s
    }

    /// Merges `rhs` into the file. The two files must be of one kind.
    /// A file without epochs takes the record of `rhs`; any other file
    /// merges the two records.
    pub fn merge_mut(&mut self, rhs: &Rinex) -> (r: Result<(), MergeError>)
        requires
            old(self).wf(),
            rhs.wf(),
        ensures
            final(self).wf(),
            final(self).header == old(self).header,
            final(self).comments == old(self).comments,
            match r {
                Ok(_) => old(self).header.rinex_type == rhs.header.rinex_type
                    && final(self).record@ == merge_records(
                    old(self).record@,
                    rhs.record@,
                    rhs.record@.len(),
                ),
                Err(e) => e == MergeError::FileTypeMismatch && old(self).header.rinex_type
                    != rhs.header.rinex_type && final(self).record == old(self).record,
            },
    {
        if !(self.header.rinex_type == rhs.header.rinex_type) {
            return Err(MergeError::FileTypeMismatch);
        }
        self.record.merge_mut(&rhs.record)
    }

    /// The file with `rhs` merged in.
    pub fn merge(&self, rhs: &Rinex) -> (r: Result<Rinex, MergeError>)
        requires
            self.wf(),
            rhs.wf(),
        ensures
            match r {
                Ok(m) => self.header.rinex_type == rhs.header.rinex_type && m.wf() && m.record@
                    == merge_records(self.record@, rhs.record@, rhs.record@.len())
                    && m.same_header(self),
                Err(e) => e == MergeError::FileTypeMismatch && self.header.rinex_type
                    != rhs.header.rinex_type,
            },
    {
        let mut lhs = self.clone();
        match lhs.merge_mut(rhs) {
            Ok(()) => Ok(lhs),
            Err(e) => Err(e),
        }
    }

    /// Splits the file at an instant: each part has the header and the
    /// comments of the file, and the epochs that come before the instant
    /// or the others.
    pub fn split(&self, epoch: Epoch) -> (r: Result<(Rinex, Rinex), SplitError>)
        requires
            self.wf(),
        ensures
            r matches Ok(p) && p.0.wf() && p.1.wf() && p.0.record@ == crate::assoc::retain(
                self.record@,
                before_instant(epoch),
            ) && p.1.record@ == crate::assoc::retain(self.record@, from_instant(epoch))
                && p.0.same_header(self) && p.1.same_header(self),
    {
        match self.record.split(epoch) {
            Ok((r0, r1)) => Ok((self.with_record(r0), self.with_record(r1))),
            Err(e) => Err(e),
        }
    }

    /// Splits the file at its gaps: one file for each segment of the
    /// record, in order, each with the header and the comments of the
    /// file.
    pub fn split_dt(&self, duration: Duration) -> (r: Result<Vec<Rinex>, SplitError>)
        requires
            self.wf(),
        ensures
            r matches Ok(v) && v@.len() == split_by_gap(self.record@, duration).len() && forall|
                i: int,
            |
                0 <= i < v@.len() ==> (#[trigger] v@[i]).record@ == split_by_gap(
                    self.record@,
                    duration,
                )[i] && v@[i].wf() && v@[i].same_header(self) && body_comments_view(
                    v@[i].comments@,
                ) == body_comments_view(self.comments@),
    {
        let segments = match self.record.split_dt(duration) {
            Ok(v) => v,
            Err(e) => {
                return Err(e);
            },
        };
        let ghost parts = split_by_gap(self.record@, duration);
        let mut out: Vec<Rinex> = Vec::new();
        let mut i: usize = 0;
        while i < segments.len()
            invariant
                i <= segments@.len(),
                out@.len() == i,
                records_view(segments@) == parts,
                forall|j: int| 0 <= j < segments@.len() ==> (#[trigger] segments@[j]).wf(),
                forall|j: int|
                    0 <= j < i ==> (#[trigger] out@[j]).record@ == parts[j] && out@[j].wf()
                        && out@[j].same_header(self) && body_comments_view(out@[j].comments@)
                        == body_comments_view(self.comments@),
            decreases segments@.len() - i,
        {
            assert(records_view(segments@)[i as int] == segments@[i as int]@);
            let record = segments[i].clone();
            out.push(self.with_record(record));
            i += 1;
        }
        Ok(out)
    }
}

} // verus!
