//! What the header of a file tells the observation record: the revision
//! of the format, the kind of file, the constellation and, for each
//! constellation, the observables in the order of their columns.

use crate::constellation::Constellation;
use crate::epoch::Duration;
use crate::epoch::Epoch;
use crate::epoch::TimeScale;
use crate::observable::Observable;
use crate::observable::ObservableView;
use crate::observable::observable_views;
use vstd::prelude::*;

verus! {

/// Revision of the format.
#[derive(Clone, Copy, Debug, PartialEq, Eq, Structural, Hash, PartialOrd, Ord)]
pub struct Version {
    pub major: u8,
    pub minor: u8,
}

impl Version {
    pub fn new(major: u8, minor: u8) -> (r: Self)
        ensures
            r.major == major,
            r.minor == minor,
    {
        Version { major, minor }
    }
}

impl Default for Version {
    /// Revision 3.0.
    fn default() -> (r: Self)
        ensures
            r.major == 3,
            r.minor == 0,
    {
        Version { major: 3, minor: 0 }
    }
}

/// Kind of file.
#[derive(Clone, Copy, Debug, PartialEq, Eq, Structural, Hash)]
pub enum RinexType {
    ObservationData,
    NavigationData,
    MeteoData,
    ClockData,
    IonosphereMaps,
    AntennaData,
    DORIS,
}

/// Marks a file as compressed, and says by what.
#[derive(Debug, PartialEq, Eq)]
pub struct Crinex {
    /// Revision of the compression.
    pub version: Version,
    /// Program that compressed the file.
    pub prog: String,
    /// Date of the compression.
    pub date: Epoch,
}

impl Crinex {
    /// The two marks tell the same revision, program and date.
    pub open spec fn same(&self, other: &Crinex) -> bool {
        &&& self.version == other.version
        &&& self.prog@ == other.prog@
        &&& self.date == other.date
    }
}

/// Two files are marked as compressed alike, or neither is.
pub open spec fn same_mark(a: Option<Crinex>, b: Option<Crinex>) -> bool {
    match (a, b) {
        (Some(x), Some(y)) => x.same(&y),
        (None, None) => true,
        _ => false,
    }
}

impl Clone for Crinex {
    fn clone(&self) -> (r: Self)
        ensures
            r.same(self),
    {
        Crinex { version: self.version, prog: self.prog.clone(), date: self.date }
    }
}

impl Default for Crinex {
    /// Compression of revision 3.0.
    fn default() -> (r: Self)
        ensures
            r.version.major == 3,
            r.version.minor == 0,
    {
        Crinex {
            version: Version { major: 3, minor: 0 },
            prog: "rust-crinex".to_owned(),
            date: Epoch { tai_nanos: 0, time_scale: TimeScale::TAI },
        }
    }
}

/// The observables of each constellation, as contracts see them.
pub type Tables = Seq<(Constellation, Seq<ObservableView>)>;

/// The observables of a constellation: those of the first table that
/// bears its name.
pub open spec fn table_of(tables: Tables, c: Constellation) -> Option<Seq<ObservableView>>
    decreases tables.len(),
{
    if tables.len() == 0 {
        None
    } else if tables[0].0 == c {
        Some(tables[0].1)
    } else {
        table_of(tables.drop_first(), c)
    }
}

/// The views of a list of tables.
pub open spec fn tables_view(codes: Seq<(Constellation, Vec<Observable>)>) -> Tables {
    Seq::new(codes.len(), |i: int| (codes[i].0, observable_views(codes[i].1@)))
}

/// Copies a list of observables.
pub fn clone_observables(v: &Vec<Observable>) -> (r: Vec<Observable>)
    ensures
        observable_views(r@) == observable_views(v@),
{
    let mut out: Vec<Observable> = Vec::new();
    let mut i: usize = 0;
    while i < v.len()
        invariant
            i <= v.len(),
            out@.len() == i,
            forall|j: int| 0 <= j < i ==> (#[trigger] out@[j])@ == v@[j]@,
        decreases v.len() - i,
    {
        out.push(v[i].clone());
        i += 1;
    }
    assert(observable_views(out@) =~= observable_views(v@));
    out
}

/// The part of a header that belongs to observation files.
#[derive(Debug, PartialEq, Eq)]
pub struct HeaderFields {
    /// Set when the file is compressed.
    pub crinex: Option<Crinex>,
    /// Observables of each constellation, in the order of their columns.
    pub codes: Vec<(Constellation, Vec<Observable>)>,
    /// True when the clock offset is applied to the observations.
    pub clock_offset_applied: bool,
    /// Instant of the first observation.
    pub time_of_first_obs: Option<Epoch>,
    /// Instant of the last observation.
    pub time_of_last_obs: Option<Epoch>,
}

impl HeaderFields {
    /// The tables of observables.
    pub open spec fn tables(&self) -> Tables {
        tables_view(self.codes@)
    }

    /// The two hold the same mark of compression, tables, and what they
    /// tell of the clock offset and of the first and last observation.
    pub open spec fn same(&self, other: &HeaderFields) -> bool {
        &&& same_mark(self.crinex, other.crinex)
        &&& self.tables() == other.tables()
        &&& self.clock_offset_applied == other.clock_offset_applied
        &&& self.time_of_first_obs == other.time_of_first_obs
        &&& self.time_of_last_obs == other.time_of_last_obs
    }

    /// The two hold all but the mark of compression alike.
    pub open spec fn same_but_mark(&self, other: &HeaderFields) -> bool {
        &&& self.tables() == other.tables()
        &&& self.clock_offset_applied == other.clock_offset_applied
        &&& self.time_of_first_obs == other.time_of_first_obs
        &&& self.time_of_last_obs == other.time_of_last_obs
    }

    /// The observables of a constellation, if the header names any.
    pub fn observables(&self, c: Constellation) -> (r: Option<&Vec<Observable>>)
        ensures
            match r {
                Some(v) => table_of(self.tables(), c) == Some(observable_views(v@)),
                None => table_of(self.tables(), c) is None,
            },
    {
        let mut i: usize = 0;
        assert(self.tables().skip(0) =~= self.tables());
        while i < self.codes.len()
            invariant
                i <= self.codes.len(),
                table_of(self.tables(), c) == table_of(self.tables().skip(i as int), c),
            decreases self.codes.len() - i,
        {
            let ghost rest = self.tables().skip(i as int);
            assert(rest[0] == self.tables()[i as int]);
            if self.codes[i].0 == c {
                return Some(&self.codes[i].1);
            }
            assert(rest.drop_first() =~= self.tables().skip(i as int + 1));
            i += 1;
        }
        None
    }

    /// Adds an observable at the end of the table of a constellation,
    /// which is created when the header has none.
    pub fn push_code(&mut self, c: Constellation, observable: Observable)
        ensures
            final(self).crinex == old(self).crinex,
            final(self).clock_offset_applied == old(self).clock_offset_applied,
            final(self).time_of_first_obs == old(self).time_of_first_obs,
            final(self).time_of_last_obs == old(self).time_of_last_obs,
            table_of(final(self).tables(), c) == Some(
                match table_of(old(self).tables(), c) {
                    Some(t) => t.push(observable@),
                    None => seq![observable@],
                },
            ),
            forall|d: Constellation|
                d != c ==> table_of(final(self).tables(), d) == table_of(old(self).tables(), d),
    {
        let ghost before = self.tables();
        let ghost obsv = observable@;
        let mut i: usize = 0;
        while i < self.codes.len()
            invariant
                i <= self.codes.len(),
                *self == *old(self),
                before == self.tables(),
                obsv == observable@,
                forall|j: int| 0 <= j < i ==> (#[trigger] before[j]).0 != c,
            decreases self.codes.len() - i,
        {
            if self.codes[i].0 == c {
                let mut table = clone_observables(&self.codes[i].1);
                let ghost copied = table@;
                let ghost t = before[i as int].1.push(obsv);
                table.push(observable);
                assert(before[i as int] == (
                    self.codes@[i as int].0,
                    observable_views(self.codes@[i as int].1@),
                ));
                assert(observable_views(copied) == before[i as int].1);
                assert(table@ == copied.push(observable));
                assert(observable_views(table@).len() == t.len());
                assert forall|j: int| 0 <= j < t.len() implies observable_views(table@)[j]
                    == t[j] by {
                    if j < copied.len() {
                        assert(table@[j] == copied[j]);
                        assert(observable_views(copied)[j] == copied[j]@);
                        assert(t[j] == before[i as int].1[j]);
                    } else {
                        assert(table@[j] == observable);
                    }
                }
                assert(observable_views(table@) =~= t);
                self.codes.set(i, (c, table));
                proof {
                    assert(self.tables() =~= before.update(i as int, (c, t)));
                    assert(before.update(i as int, (c, before[i as int].1)) =~= before);
                    lemma_table_of_update(before, i as int, before[i as int].1, c);
                    lemma_table_of_update(before, i as int, t, c);
                    assert forall|d: Constellation| d != c implies table_of(self.tables(), d)
                        == table_of(before, d) by {
                        lemma_table_of_update(before, i as int, t, d);
                    }
                }
                return ;
            }
            i += 1;
        }
        let mut table: Vec<Observable> = Vec::new();
        table.push(observable);
        assert(observable_views(table@) =~= seq![obsv]);
        self.codes.push((c, table));
        proof {
            assert(self.tables() =~= before.push((c, seq![obsv])));
            lemma_table_of_push(before, c, seq![obsv], c);
            assert forall|d: Constellation| d != c implies table_of(self.tables(), d)
                == table_of(before, d) by {
                lemma_table_of_push(before, c, seq![obsv], d);
            }
        }
    }

    /// Sets the instant of the first observation.
    pub fn with_time_of_first_obs(self, epoch: Epoch) -> (r: Self)
        ensures
            r.time_of_first_obs == Some(epoch),
            r.tables() == self.tables(),
            r.crinex == self.crinex,
            r.clock_offset_applied == self.clock_offset_applied,
            r.time_of_last_obs == self.time_of_last_obs,
    {
        let mut s = self;
        s.time_of_first_obs = Some(epoch);
        s
    }

    /// Sets or removes the mark of compression.
    pub fn with_crinex(self, crinex: Option<Crinex>) -> (r: Self)
        ensures
            r.crinex == crinex,
            r.tables() == self.tables(),
            r.clock_offset_applied == self.clock_offset_applied,
            r.time_of_first_obs == self.time_of_first_obs,
            r.time_of_last_obs == self.time_of_last_obs,
    {
        let mut s = self;
        s.crinex = crinex;
        s
    }
}

/// Replacing the table at `i` changes the observables of its
/// constellation only, when no earlier table bears the same name.
pub proof fn lemma_table_of_update(tables: Tables, i: int, t: Seq<ObservableView>, d: Constellation)
    requires
        0 <= i < tables.len(),
        forall|j: int| 0 <= j < i ==> (#[trigger] tables[j]).0 != tables[i].0,
    ensures
        table_of(tables.update(i, (tables[i].0, t)), d) == if d == tables[i].0 {
            Some(t)
        } else {
            table_of(tables, d)
        },
    decreases i,
{
    let c = tables[i].0;
    let u = tables.update(i, (c, t));
    if i > 0 {
        let rest = tables.drop_first();
        assert forall|j: int| 0 <= j < i - 1 implies (#[trigger] rest[j]).0 != rest[i - 1].0 by {
            assert(rest[j] == tables[j + 1]);
        }
        lemma_table_of_update(rest, i - 1, t, d);
        assert(u.drop_first() =~= rest.update(i - 1, (c, t)));
        assert(tables[0].0 != c);
        assert(u[0] == tables[0]);
    } else {
        assert(u.drop_first() =~= tables.drop_first());
    }
}

/// A table added at the end serves its constellation when no other table
/// does, and changes nothing for the other constellations.
pub proof fn lemma_table_of_push(
    tables: Tables,
    c: Constellation,
    t: Seq<ObservableView>,
    d: Constellation,
)
    requires
        forall|j: int| 0 <= j < tables.len() ==> (#[trigger] tables[j]).0 != c,
    ensures
        table_of(tables, c) is None,
        table_of(tables.push((c, t)), d) == if d == c {
            Some(t)
        } else {
            table_of(tables, d)
        },
    decreases tables.len(),
{
    let u = tables.push((c, t));
    if tables.len() > 0 {
        let rest = tables.drop_first();
        assert forall|j: int| 0 <= j < rest.len() implies (#[trigger] rest[j]).0 != c by {
            assert(rest[j] == tables[j + 1]);
        }
        lemma_table_of_push(rest, c, t, d);
        assert(u.drop_first() =~= rest.push((c, t)));
        assert(tables[0].0 != c);
        assert(u[0] == tables[0]);
    } else {
        assert(u.drop_first() =~= tables);
        assert(u[0] == (c, t));
    }
}

impl Default for HeaderFields {
    fn default() -> (r: Self)
        ensures
            r.crinex is None,
            r.tables() == Seq::<(Constellation, Seq<ObservableView>)>::empty(),
            !r.clock_offset_applied,
            r.time_of_first_obs is None,
            r.time_of_last_obs is None,
    {
        let r = HeaderFields {
            crinex: None,
            codes: Vec::new(),
            clock_offset_applied: false,
            time_of_first_obs: None,
            time_of_last_obs: None,
        };
        assert(r.tables() =~= Seq::<(Constellation, Seq<ObservableView>)>::empty());
        r
    }
}

/// Two headers hold the same observation fields, or neither has any.
pub open spec fn same_fields(a: Option<HeaderFields>, b: Option<HeaderFields>) -> bool {
    match (a, b) {
        (Some(x), Some(y)) => x.same(&y),
        (None, None) => true,
        _ => false,
    }
}

impl Clone for HeaderFields {
    fn clone(&self) -> (r: Self)
        ensures
            r.same(self),
    {
        let mut codes: Vec<(Constellation, Vec<Observable>)> = Vec::new();
        let mut i: usize = 0;
        while i < self.codes.len()
            invariant
                i <= self.codes.len(),
                codes@.len() == i,
                forall|j: int|
                    0 <= j < i ==> (#[trigger] codes@[j]).0 == self.codes@[j].0 && observable_views(
                        codes@[j].1@,
                    ) == observable_views(self.codes@[j].1@),
            decreases self.codes.len() - i,
        {
            codes.push((self.codes[i].0, clone_observables(&self.codes[i].1)));
            i += 1;
        }
        assert(tables_view(codes@) =~= tables_view(self.codes@));
        HeaderFields {
            crinex: match &self.crinex {
                Some(c) => Some(c.clone()),
                None => None,
            },
            codes,
            clock_offset_applied: self.clock_offset_applied,
            time_of_first_obs: self.time_of_first_obs,
            time_of_last_obs: self.time_of_last_obs,
        }
    }
}

/// The part of a header that belongs to ionosphere maps.
#[derive(Clone, Copy, Debug, PartialEq, Eq, Structural)]
pub struct IonexFields {
    /// Dimension of the maps: 2 or 3.
    pub map_dimension: u8,
}

/// Header of a file.
#[derive(Debug, PartialEq, Eq)]
pub struct Header {
    /// Revision of the format.
    pub version: Version,
    /// Kind of file.
    pub rinex_type: RinexType,
    /// Constellation that the file declares.
    pub constellation: Option<Constellation>,
    /// Comments found in the header.
    pub comments: Vec<String>,
    /// Sampling interval that the header declares.
    pub sampling_interval: Option<Duration>,
    /// Fields of an observation file.
    pub obs: Option<HeaderFields>,
    /// Fields of a file of ionosphere maps.
    pub ionex: Option<IonexFields>,
}

/// What the parsers and the writers read in a header.
pub struct HeaderView {
    /// Major revision of the format.
    pub major: u8,
    /// Constellation that the file declares.
    pub constellation: Option<Constellation>,
    /// Observables of each constellation.
    pub tables: Tables,
}

impl View for Header {
    type V = HeaderView;

    open spec fn view(&self) -> HeaderView {
        HeaderView {
            major: self.version.major,
            constellation: self.constellation,
            tables: self.tables(),
        }
    }
}

/// The texts of a list of comments.
pub open spec fn comments_view(s: Seq<String>) -> Seq<Seq<char>> {
    Seq::new(s.len(), |i: int| s[i]@)
}

impl Header {
    /// The tables of observables; none where the header has no
    /// observation fields.
    pub open spec fn tables(&self) -> Tables {
        match self.obs {
            Some(f) => f.tables(),
            None => Seq::empty(),
        }
    }

    /// True when the header marks the file as compressed.
    pub open spec fn spec_is_crinex(&self) -> bool {
        self.obs matches Some(f) && f.crinex is Some
    }

    #[verifier::when_used_as_spec(spec_is_crinex)]
    pub fn is_crinex(&self) -> (r: bool)
        ensures
            r == self.spec_is_crinex(),
    {
        match &self.obs {
            Some(f) => f.crinex.is_some(),
            None => false,
        }
    }

    /// The two headers tell the same: the same frame and the same
    /// observation fields.
    pub open spec fn same(&self, other: &Header) -> bool {
        &&& self.same_frame(other)
        &&& same_fields(self.obs, other.obs)
    }

    /// What the header has apart from its observation fields.
    pub open spec fn same_frame(&self, other: &Header) -> bool {
        &&& self.version == other.version
        &&& self.rinex_type == other.rinex_type
        &&& self.constellation == other.constellation
        &&& comments_view(self.comments@) == comments_view(other.comments@)
        &&& self.sampling_interval == other.sampling_interval
        &&& self.ionex == other.ionex
    }

    /// The observables of a constellation, with the table of the generic
    /// `SBAS` serving every augmentation system.
    pub fn observables(&self, c: Constellation) -> (r: Option<&Vec<Observable>>)
        ensures
            match r {
                Some(v) => table_of(self.tables(), c.spec_table_key()) == Some(
                    observable_views(v@),
                ),
                None => table_of(self.tables(), c.spec_table_key()) is None,
            },
    {
        match &self.obs {
            Some(f) => f.observables(c.table_key()),
            None => None,
        }
    }

    /// Header of an observation file of revision 3.0 with no table yet.
    pub fn basic_obs() -> (r: Self)
        ensures
            r.rinex_type == RinexType::ObservationData,
            r.version == (Version { major: 3, minor: 0 }),
            r.constellation is None,
            r.obs is Some,
            r.tables() == Seq::<(Constellation, Seq<ObservableView>)>::empty(),
            !r.spec_is_crinex(),
    {
        let mut r = Header::default();
        r.obs = Some(HeaderFields::default());
        r
    }

    pub fn with_version(self, version: Version) -> (r: Self)
        ensures
            r.version == version,
            r.rinex_type == self.rinex_type,
            r.constellation == self.constellation,
            r.tables() == self.tables(),
            r.obs == self.obs,
    {
        let mut s = self;
        s.version = version;
        s
    }

    pub fn with_type(self, rinex_type: RinexType) -> (r: Self)
        ensures
            r.rinex_type == rinex_type,
            r.version == self.version,
            r.constellation == self.constellation,
            r.tables() == self.tables(),
            r.obs == self.obs,
    {
        let mut s = self;
        s.rinex_type = rinex_type;
        s
    }

    pub fn with_constellation(self, constellation: Constellation) -> (r: Self)
        ensures
            r.constellation == Some(constellation),
            r.version == self.version,
            r.rinex_type == self.rinex_type,
            r.tables() == self.tables(),
            r.obs == self.obs,
    {
        let mut s = self;
        s.constellation = Some(constellation);
        s
    }

    pub fn with_observation_fields(self, fields: HeaderFields) -> (r: Self)
        ensures
            r.obs == Some(fields),
            r.tables() == fields.tables(),
            r.version == self.version,
            r.rinex_type == self.rinex_type,
            r.constellation == self.constellation,
    {
        let mut s = self;
        s.obs = Some(fields);
        s
    }

    /// Adds a comment at the end of the header's comments.
    pub fn with_comment(self, comment: &str) -> (r: Self)
        ensures
            comments_view(r.comments@) == comments_view(self.comments@).push(comment@),
            r.version == self.version,
            r.rinex_type == self.rinex_type,
            r.constellation == self.constellation,
            r.obs == self.obs,
    {
        let mut s = self;
        s.comments.push(comment.to_owned());
        assert(comments_view(s.comments@) =~= comments_view(self.comments@).push(comment@));
        s
    }

    /// Marks the file as compressed. A header without observation fields
    /// gets empty ones to bear the mark.
    pub fn with_crinex(self, crinex: Crinex) -> (r: Self)
        ensures
            r.spec_is_crinex(),
            r.obs matches Some(f) && f.crinex == Some(crinex) && match self.obs {
                Some(p) => f.same_but_mark(&p),
                None => f.tables().len() == 0 && !f.clock_offset_applied && f.time_of_first_obs
                    is None && f.time_of_last_obs is None,
            },
            r.tables() == self.tables(),
            r.same_frame(&self),
    {
        let mut s = self;
        let fields = match s.obs.take() {
            Some(f) => f,
            None => HeaderFields::default(),
        };
        s.obs = Some(fields.with_crinex(Some(crinex)));
        s
    }
}

impl Default for Header {
    /// Header of an observation file of revision 3.0 without observation
    /// fields.
    fn default() -> (r: Self)
        ensures
            r.version == (Version { major: 3, minor: 0 }),
            r.rinex_type == RinexType::ObservationData,
            r.constellation is None,
            r.comments@.len() == 0,
            r.sampling_interval is None,
            r.obs is None,
            r.ionex is None,
    {
        Header {
            version: Version { major: 3, minor: 0 },
            rinex_type: RinexType::ObservationData,
            constellation: None,
            comments: Vec::new(),
            sampling_interval: None,
            obs: None,
            ionex: None,
        }
    }
}

impl Clone for Header {
    fn clone(&self) -> (r: Self)
        ensures
            r.same(self),
    {
        let mut comments: Vec<String> = Vec::new();
        let mut i: usize = 0;
        while i < self.comments.len()
            invariant
                i <= self.comments.len(),
                comments@.len() == i,
                forall|j: int| 0 <= j < i ==> (#[trigger] comments@[j])@ == self.comments@[j]@,
            decreases self.comments.len() - i,
        {
            comments.push(self.comments[i].clone());
            i += 1;
        }
        assert(comments_view(comments@) =~= comments_view(self.comments@));
        Header {
            version: self.version,
            rinex_type: self.rinex_type,
            constellation: self.constellation,
            comments,
            sampling_interval: self.sampling_interval,
            obs: match &self.obs {
                Some(f) => Some(f.clone()),
                None => None,
            },
            ionex: self.ionex,
        }
    }
}

} // verus!
