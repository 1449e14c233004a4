//! Observables: the codes that say what an observation measures.

use crate::text::all_ascii;
use crate::text::ascii_chars;
use crate::text::string_from_ascii;
use crate::text::to_uppercase;
use crate::text::trim;
use crate::text::trimmed;
use crate::text::uppercase;
use vstd::prelude::*;
use vstd::string::StringSliceAdditionalSpecFns;

verus! {

/// How two values stand to each other in an order.
#[derive(Clone, Copy, Debug, PartialEq, Eq, Structural)]
pub enum Precedence {
    Before,
    Same,
    After,
}

/// Strict lexicographic order of two texts, character by character.
pub open spec fn text_before(a: Seq<char>, b: Seq<char>) -> bool
    decreases a.len(),
{
    if b.len() == 0 {
        false
    } else if a.len() == 0 {
        true
    } else if a[0] != b[0] {
        (a[0] as int) < (b[0] as int)
    } else {
        text_before(a.drop_first(), b.drop_first())
    }
}

pub proof fn lemma_text_before_irreflexive(a: Seq<char>)
    ensures
        !text_before(a, a),
    decreases a.len(),
{
    if a.len() > 0 {
        lemma_text_before_irreflexive(a.drop_first());
    }
}

pub proof fn lemma_text_before_transitive(a: Seq<char>, b: Seq<char>, c: Seq<char>)
    requires
        text_before(a, b),
        text_before(b, c),
    ensures
        text_before(a, c),
    decreases a.len(),
{
    if a.len() > 0 && b.len() > 0 && c.len() > 0 {
        if a[0] == b[0] && b[0] == c[0] {
            lemma_text_before_transitive(a.drop_first(), b.drop_first(), c.drop_first());
        }
    }
}

/// Two texts are the same, or one stands before the other.
pub proof fn lemma_text_before_total(a: Seq<char>, b: Seq<char>)
    ensures
        a == b || text_before(a, b) || text_before(b, a),
        !(text_before(a, b) && text_before(b, a)),
    decreases a.len(),
{
    if a.len() == 0 || b.len() == 0 {
        if a.len() == 0 && b.len() == 0 {
            assert(a =~= b);
        }
    } else if a[0] == b[0] {
        lemma_text_before_total(a.drop_first(), b.drop_first());
        if a.drop_first() == b.drop_first() {
            assert(a =~= seq![a[0]] + a.drop_first());
            assert(b =~= seq![b[0]] + b.drop_first());
            assert(a =~= b);
        }
    } else {
        assert((a[0] as int) != (b[0] as int));
    }
}

/// Texts that agree on their first `n` characters compare as what follows.
pub proof fn lemma_text_before_skip(a: Seq<char>, b: Seq<char>, n: int)
    requires
        0 <= n <= a.len(),
        n <= b.len(),
        a.take(n) == b.take(n),
    ensures
        text_before(a, b) == text_before(a.skip(n), b.skip(n)),
    decreases n,
{
    if n > 0 {
        assert(a[0] == a.take(n)[0]);
        assert(b[0] == b.take(n)[0]);
        let a1 = a.drop_first();
        let b1 = b.drop_first();
        assert(a1.take(n - 1) =~= a.take(n).drop_first());
        assert(b1.take(n - 1) =~= b.take(n).drop_first());
        lemma_text_before_skip(a1, b1, n - 1);
        assert(a1.skip(n - 1) =~= a.skip(n));
        assert(b1.skip(n - 1) =~= b.skip(n));
    } else {
        assert(a.skip(0) =~= a);
        assert(b.skip(0) =~= b);
    }
}

/// Compares two texts in lexicographic order.
pub fn compare_text(a: &str, b: &str) -> (r: Precedence)
    ensures
        r == Precedence::Before <==> text_before(a@, b@),
        r == Precedence::Same <==> a@ == b@,
        r == Precedence::After <==> text_before(b@, a@),
{
    let la = a.unicode_len();
    let lb = b.unicode_len();
    let mut i: usize = 0;
    while i < la && i < lb
        invariant
            i <= la,
            i <= lb,
            la == a@.len(),
            lb == b@.len(),
            a@.take(i as int) == b@.take(i as int),
        decreases la - i,
    {
        let ca = a.get_char(i);
        let cb = b.get_char(i);
        if ca != cb {
            proof {
                lemma_text_before_skip(a@, b@, i as int);
                lemma_text_before_skip(b@, a@, i as int);
                assert(a@.skip(i as int)[0] == ca);
                assert(b@.skip(i as int)[0] == cb);
                assert(a@[i as int] != b@[i as int]);
            }
            if (ca as u32) < (cb as u32) {
                return Precedence::Before;
            } else {
                return Precedence::After;
            }
        }
        i += 1;
        assert(a@.take(i as int) =~= b@.take(i as int)) by {
            assert(a@.take(i as int) =~= a@.take(i as int - 1).push(ca));
            assert(b@.take(i as int) =~= b@.take(i as int - 1).push(cb));
        }
    }
    proof {
        lemma_text_before_skip(a@, b@, i as int);
        lemma_text_before_skip(b@, a@, i as int);
        if la == lb {
            assert(a@.take(i as int) =~= a@);
            assert(b@.take(i as int) =~= b@);
            lemma_text_before_irreflexive(a@);
        } else {
            assert(a@.len() != b@.len());
        }
    }
    if la == lb {
        Precedence::Same
    } else if la < lb {
        Precedence::Before
    } else {
        Precedence::After
    }
}

/// What an observation measures.
#[derive(Debug, PartialEq, Eq, Hash, PartialOrd, Ord)]
pub enum Observable {
    /// Carrier phase, with its code.
    Phase(String),
    /// Doppler shift, with its code.
    Doppler(String),
    /// Signal strength, with its code.
    SSI(String),
    /// Pseudo range, with its code.
    PseudoRange(String),
    /// Channel number, with its code.
    ChannelNumber(String),
    /// Pressure, in hPa.
    Pressure,
    /// Dry temperature, in degrees Celsius.
    Temperature,
    /// Relative humidity, in percent.
    HumidityRate,
    /// Wet zenith path delay, in mm.
    ZenithWetDelay,
    /// Dry component of the zenith path delay, in mm.
    ZenithDryDelay,
    /// Total zenith path delay, in mm.
    ZenithTotalDelay,
    /// Direction from which the wind blows, in degrees.
    WindDirection,
    /// Wind speed, in m/s.
    WindSpeed,
    /// Rain accumulated since the last measurement, in tenths of mm.
    RainIncrement,
    /// Hail indicator.
    HailIndicator,
    /// Received power, with its code.
    Power(String),
    /// Ratio of two frequencies.
    FrequencyRatio,
}

/// Why a text is no observable.
#[derive(Clone, Copy, Debug, PartialEq, Eq, Structural)]
pub enum ObservableError {
    /// The code starts with no known letter.
    Unknown,
    /// The code has fewer than two or more than three characters.
    Malformed,
}

/// An observable as contracts see it: the position of its kind in the
/// order of declaration, and its code (empty where the kind has none).
pub struct ObservableView {
    pub kind: int,
    pub code: Seq<char>,
}

impl ObservableView {
    /// Observables are ordered by kind, then by code.
    pub open spec fn before(self, other: ObservableView) -> bool {
        self.kind < other.kind || (self.kind == other.kind && text_before(self.code, other.code))
    }
}

impl View for Observable {
    type V = ObservableView;

    open spec fn view(&self) -> ObservableView {
        match self {
            Observable::Phase(c) => ObservableView { kind: 0, code: c@ },
            Observable::Doppler(c) => ObservableView { kind: 1, code: c@ },
            Observable::SSI(c) => ObservableView { kind: 2, code: c@ },
            Observable::PseudoRange(c) => ObservableView { kind: 3, code: c@ },
            Observable::ChannelNumber(c) => ObservableView { kind: 4, code: c@ },
            Observable::Pressure => ObservableView { kind: 5, code: Seq::empty() },
            Observable::Temperature => ObservableView { kind: 6, code: Seq::empty() },
            Observable::HumidityRate => ObservableView { kind: 7, code: Seq::empty() },
            Observable::ZenithWetDelay => ObservableView { kind: 8, code: Seq::empty() },
            Observable::ZenithDryDelay => ObservableView { kind: 9, code: Seq::empty() },
            Observable::ZenithTotalDelay => ObservableView { kind: 10, code: Seq::empty() },
            Observable::WindDirection => ObservableView { kind: 11, code: Seq::empty() },
            Observable::WindSpeed => ObservableView { kind: 12, code: Seq::empty() },
            Observable::RainIncrement => ObservableView { kind: 13, code: Seq::empty() },
            Observable::HailIndicator => ObservableView { kind: 14, code: Seq::empty() },
            Observable::Power(c) => ObservableView { kind: 15, code: c@ },
            Observable::FrequencyRatio => ObservableView { kind: 16, code: Seq::empty() },
        }
    }
}

/// The views of a list of observables.
pub open spec fn observable_views(s: Seq<Observable>) -> Seq<ObservableView> {
    Seq::new(s.len(), |i: int| s[i]@)
}

/// The observable that a code stands for. The code is taken without the
/// blanks around it and in upper case. The two-letter codes of the
/// meteorological observables come first; any other code of two or three
/// characters goes by its first letter.
pub open spec fn observable_of_text(text: Seq<u8>) -> Result<ObservableView, ObservableError> {
    let code = uppercase(trimmed(text));
    if code == seq![80u8, 82u8] {
        Ok(ObservableView { kind: 5, code: Seq::empty() })
    } else if code == seq![84u8, 68u8] {
        Ok(ObservableView { kind: 6, code: Seq::empty() })
    } else if code == seq![72u8, 82u8] {
        Ok(ObservableView { kind: 7, code: Seq::empty() })
    } else if code == seq![90u8, 87u8] {
        Ok(ObservableView { kind: 8, code: Seq::empty() })
    } else if code == seq![90u8, 68u8] {
        Ok(ObservableView { kind: 9, code: Seq::empty() })
    } else if code == seq![90u8, 84u8] {
        Ok(ObservableView { kind: 10, code: Seq::empty() })
    } else if code == seq![87u8, 68u8] {
        Ok(ObservableView { kind: 11, code: Seq::empty() })
    } else if code == seq![87u8, 83u8] {
        Ok(ObservableView { kind: 12, code: Seq::empty() })
    } else if code == seq![82u8, 73u8] {
        Ok(ObservableView { kind: 13, code: Seq::empty() })
    } else if code == seq![72u8, 73u8] {
        Ok(ObservableView { kind: 14, code: Seq::empty() })
    } else if code.len() < 2 || code.len() > 3 || !all_ascii(code) {
        Err(ObservableError::Malformed)
    } else if code[0] == 76 {
        Ok(ObservableView { kind: 0, code: ascii_chars(code) })
    } else if code[0] == 67 || code[0] == 80 {
        Ok(ObservableView { kind: 3, code: ascii_chars(code) })
    } else if code[0] == 83 {
        Ok(ObservableView { kind: 2, code: ascii_chars(code) })
    } else if code[0] == 87 {
        Ok(ObservableView { kind: 15, code: ascii_chars(code) })
    } else if code[0] == 68 {
        Ok(ObservableView { kind: 1, code: ascii_chars(code) })
    } else {
        Err(ObservableError::Unknown)
    }
}

impl Clone for Observable {
    fn clone(&self) -> (r: Self)
        ensures
            r@ == self@,
    {
        match self {
            Observable::Phase(c) => Observable::Phase(c.clone()),
            Observable::Doppler(c) => Observable::Doppler(c.clone()),
            Observable::SSI(c) => Observable::SSI(c.clone()),
            Observable::PseudoRange(c) => Observable::PseudoRange(c.clone()),
            Observable::ChannelNumber(c) => Observable::ChannelNumber(c.clone()),
            Observable::Pressure => Observable::Pressure,
            Observable::Temperature => Observable::Temperature,
            Observable::HumidityRate => Observable::HumidityRate,
            Observable::ZenithWetDelay => Observable::ZenithWetDelay,
            Observable::ZenithDryDelay => Observable::ZenithDryDelay,
            Observable::ZenithTotalDelay => Observable::ZenithTotalDelay,
            Observable::WindDirection => Observable::WindDirection,
            Observable::WindSpeed => Observable::WindSpeed,
            Observable::RainIncrement => Observable::RainIncrement,
            Observable::HailIndicator => Observable::HailIndicator,
            Observable::Power(c) => Observable::Power(c.clone()),
            Observable::FrequencyRatio => Observable::FrequencyRatio,
        }
    }
}

impl Default for Observable {
    /// The phase observable `L1C`.
    fn default() -> (r: Self)
        ensures
            r@ == (ObservableView { kind: 0, code: seq!['L', '1', 'C'] }),
    {
        let code = "L1C".to_owned();
        proof {
            reveal_strlit("L1C");
            assert(code@ =~= seq!['L', '1', 'C']);
        }
        Observable::Phase(code)
    }
}

impl Observable {
    /// Position of the kind in the order of declaration.
    pub fn kind(&self) -> (r: u8)
        ensures
            r == self@.kind,
            r <= 16,
    {
        match self {
            Observable::Phase(_) => 0,
            Observable::Doppler(_) => 1,
            Observable::SSI(_) => 2,
            Observable::PseudoRange(_) => 3,
            Observable::ChannelNumber(_) => 4,
            Observable::Pressure => 5,
            Observable::Temperature => 6,
            Observable::HumidityRate => 7,
            Observable::ZenithWetDelay => 8,
            Observable::ZenithDryDelay => 9,
            Observable::ZenithTotalDelay => 10,
            Observable::WindDirection => 11,
            Observable::WindSpeed => 12,
            Observable::RainIncrement => 13,
            Observable::HailIndicator => 14,
            Observable::Power(_) => 15,
            Observable::FrequencyRatio => 16,
        }
    }

    /// The code of the observable; empty where the kind has none.
    pub fn code(&self) -> (r: &str)
        ensures
            r@ == self@.code,
    {
        match self {
            Observable::Phase(c) => c.as_str(),
            Observable::Doppler(c) => c.as_str(),
            Observable::SSI(c) => c.as_str(),
            Observable::PseudoRange(c) => c.as_str(),
            Observable::ChannelNumber(c) => c.as_str(),
            Observable::Power(c) => c.as_str(),
            _ => {
                let e = "";
                proof {
                    reveal_strlit("");
                    assert(e@ =~= Seq::<char>::empty());
                }
                e
            },
        }
    }

    pub fn is_phase_observable(&self) -> (r: bool)
        ensures
            r == (self@.kind == 0),
    {
        self.kind() == 0
    }

    pub fn is_pseudorange_observable(&self) -> (r: bool)
        ensures
            r == (self@.kind == 3),
    {
        self.kind() == 3
    }

    pub fn is_doppler_observable(&self) -> (r: bool)
        ensures
            r == (self@.kind == 1),
    {
        self.kind() == 1
    }

    pub fn is_ssi_observable(&self) -> (r: bool)
        ensures
            r == (self@.kind == 2),
    {
        self.kind() == 2
    }

    /// Compares two observables: by kind, then by code.
    pub fn compare(&self, other: &Observable) -> (r: Precedence)
        ensures
            r == Precedence::Before <==> self@.before(other@),
            r == Precedence::Same <==> self@ == other@,
            r == Precedence::After <==> other@.before(self@),
    {
        let a = self.kind();
        let b = other.kind();
        if a < b {
            Precedence::Before
        } else if a > b {
            Precedence::After
        } else {
            proof {
                lemma_text_before_total(self@.code, other@.code);
            }
            compare_text(self.code(), other.code())
        }
    }

    /// True when the two observables are the same.
    pub fn same(&self, other: &Observable) -> (r: bool)
        ensures
            r == (self@ == other@),
    {
        self.compare(other) == Precedence::Same
    }

    /// Reads an observable from its code.
    pub fn from_bytes(text: &[u8]) -> (r: Result<Self, ObservableError>)
        ensures
            match r {
                Ok(o) => observable_of_text(text@) == Ok::<ObservableView, ObservableError>(o@),
                Err(e) => observable_of_text(text@) == Err::<ObservableView, ObservableError>(e),
            },
    {
        let code = to_uppercase(trim(text));
        let n = code.len();
        if n == 2 {
            let a = code[0];
            let b = code[1];
            assert(code@ =~= seq![a, b]);
            if a == 80 && b == 82 {
                return Ok(Observable::Pressure);
            } else if a == 84 && b == 68 {
                return Ok(Observable::Temperature);
            } else if a == 72 && b == 82 {
                return Ok(Observable::HumidityRate);
            } else if a == 90 && b == 87 {
                return Ok(Observable::ZenithWetDelay);
            } else if a == 90 && b == 68 {
                return Ok(Observable::ZenithDryDelay);
            } else if a == 90 && b == 84 {
                return Ok(Observable::ZenithTotalDelay);
            } else if a == 87 && b == 68 {
                return Ok(Observable::WindDirection);
            } else if a == 87 && b == 83 {
                return Ok(Observable::WindSpeed);
            } else if a == 82 && b == 73 {
                return Ok(Observable::RainIncrement);
            } else if a == 72 && b == 73 {
                return Ok(Observable::HailIndicator);
            }
        }
        if n < 2 || n > 3 || !crate::text::is_ascii_bytes(code.as_slice()) {
            return Err(ObservableError::Malformed);
        }
        let first = code[0];
        if first == 76 {
            Ok(Observable::Phase(string_from_ascii(code)))
        } else if first == 67 || first == 80 {
            Ok(Observable::PseudoRange(string_from_ascii(code)))
        } else if first == 83 {
            Ok(Observable::SSI(string_from_ascii(code)))
        } else if first == 87 {
            Ok(Observable::Power(string_from_ascii(code)))
        } else if first == 68 {
            Ok(Observable::Doppler(string_from_ascii(code)))
        } else {
            Err(ObservableError::Unknown)
        }
    }

    /// Reads an observable from its code.
    pub fn from_str(text: &str) -> (r: Result<Self, ObservableError>)
        ensures
            match r {
                Ok(o) => observable_of_text(text.spec_bytes()) == Ok::<
                    ObservableView,
                    ObservableError,
                >(o@),
                Err(e) => observable_of_text(text.spec_bytes()) == Err::<
                    ObservableView,
                    ObservableError,
                >(e),
            },
    {
        Observable::from_bytes(text.as_bytes())
    }
}

} // verus!
