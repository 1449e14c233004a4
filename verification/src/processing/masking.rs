//! Masks: a token, and the operand that compares the data with it.

use crate::processing::Error;
use crate::processing::token::MaskToken;
use crate::processing::token::MaskTokenView;
use crate::processing::token::azimuth_token;
use crate::processing::token::constellations_token;
use crate::processing::token::domes_token;
use crate::processing::token::duration_token;
use crate::processing::token::elevation_token;
use crate::processing::token::epoch_token;
use crate::processing::token::frequencies_token;
use crate::processing::token::observables_token;
use crate::processing::token::stations_token;
use crate::text::all_ascii;
use crate::text::ascii_chars;
use crate::text::clip;
use crate::text::clip_slice;
use crate::text::is_ascii_bytes;
use crate::text::string_from_ascii;
use vstd::prelude::*;
use vstd::string::StringSliceAdditionalSpecFns;

verus! {

/// How the data are compared with the token of a mask.
#[derive(Clone, Copy, Debug, PartialEq, Eq, Structural)]
pub enum MaskOperand {
    /// `=`
    Equals,
    /// `!=`
    NotEquals,
    /// `>`
    GreaterThan,
    /// `>=`
    GreaterEquals,
    /// `<`
    LowerThan,
    /// `<=`
    LowerEquals,
}

/// The operand that a text starts with.
pub open spec fn operand_of_text(text: Seq<u8>) -> Option<MaskOperand> {
    if text.len() >= 1 && text[0] == 61 {
        Some(MaskOperand::Equals)
    } else if text.len() >= 2 && text[0] == 62 && text[1] == 61 {
        Some(MaskOperand::GreaterEquals)
    } else if text.len() >= 2 && text[0] == 60 && text[1] == 61 {
        Some(MaskOperand::LowerEquals)
    } else if text.len() >= 2 && text[0] == 33 && text[1] == 61 {
        Some(MaskOperand::NotEquals)
    } else if text.len() >= 1 && text[0] == 62 {
        Some(MaskOperand::GreaterThan)
    } else if text.len() >= 1 && text[0] == 60 {
        Some(MaskOperand::LowerThan)
    } else {
        None
    }
}

impl MaskOperand {
    /// The text of the operand.
    pub open spec fn text(self) -> Seq<u8> {
        match self {
            MaskOperand::Equals => seq![61u8],
            MaskOperand::NotEquals => seq![33u8, 61u8],
            MaskOperand::GreaterThan => seq![62u8],
            MaskOperand::GreaterEquals => seq![62u8, 61u8],
            MaskOperand::LowerThan => seq![60u8],
            MaskOperand::LowerEquals => seq![60u8, 61u8],
        }
    }

    /// The operand that holds exactly where this one does not.
    pub open spec fn negated(self) -> MaskOperand {
        match self {
            MaskOperand::Equals => MaskOperand::NotEquals,
            MaskOperand::NotEquals => MaskOperand::Equals,
            MaskOperand::GreaterThan => MaskOperand::LowerEquals,
            MaskOperand::GreaterEquals => MaskOperand::LowerThan,
            MaskOperand::LowerThan => MaskOperand::GreaterEquals,
            MaskOperand::LowerEquals => MaskOperand::GreaterThan,
        }
    }

    /// True when `a` stands to `b` as the operand says.
    pub open spec fn holds(self, a: int, b: int) -> bool {
        match self {
            MaskOperand::Equals => a == b,
            MaskOperand::NotEquals => a != b,
            MaskOperand::GreaterThan => a > b,
            MaskOperand::GreaterEquals => a >= b,
            MaskOperand::LowerThan => a < b,
            MaskOperand::LowerEquals => a <= b,
        }
    }

    /// Compares two numbers as the operand says.
    pub fn test(self, a: i128, b: i128) -> (r: bool)
        ensures
            r == self.holds(a as int, b as int),
    {
        match self {
            MaskOperand::Equals => a == b,
            MaskOperand::NotEquals => a != b,
            MaskOperand::GreaterThan => a > b,
            MaskOperand::GreaterEquals => a >= b,
            MaskOperand::LowerThan => a < b,
            MaskOperand::LowerEquals => a <= b,
        }
    }

    /// Reads the operand that a text starts with.
    pub fn from_bytes(text: &[u8]) -> (r: Result<Self, Error>)
        ensures
            match r {
                Ok(op) => operand_of_text(text@) == Some(op),
                Err(e) => operand_of_text(text@) is None && e == Error::InvalidOperand,
            },
    {
        let n = text.len();
        if n >= 1 && text[0] == 61 {
            Ok(MaskOperand::Equals)
        } else if n >= 2 && text[0] == 62 && text[1] == 61 {
            Ok(MaskOperand::GreaterEquals)
        } else if n >= 2 && text[0] == 60 && text[1] == 61 {
            Ok(MaskOperand::LowerEquals)
        } else if n >= 2 && text[0] == 33 && text[1] == 61 {
            Ok(MaskOperand::NotEquals)
        } else if n >= 1 && text[0] == 62 {
            Ok(MaskOperand::GreaterThan)
        } else if n >= 1 && text[0] == 60 {
            Ok(MaskOperand::LowerThan)
        } else {
            Err(Error::InvalidOperand)
        }
    }

    /// Reads the operand that a text starts with.
    pub fn from_str(text: &str) -> (r: Result<Self, Error>)
        ensures
            match r {
                Ok(op) => operand_of_text(text.spec_bytes()) == Some(op),
                Err(e) => operand_of_text(text.spec_bytes()) is None && e == Error::InvalidOperand,
            },
    {
        MaskOperand::from_bytes(text.as_bytes())
    }

    /// Number of characters of the text of the operand.
    pub fn formatted_len(&self) -> (r: usize)
        ensures
            r == self.text().len(),
    {
        match self {
            MaskOperand::Equals | MaskOperand::GreaterThan | MaskOperand::LowerThan => 1,
            MaskOperand::NotEquals | MaskOperand::LowerEquals | MaskOperand::GreaterEquals => 2,
        }
    }

    /// The text of the operand.
    pub fn to_string(&self) -> (r: String)
        ensures
            r@ == ascii_chars(self.text()),
    {
        let mut out: Vec<u8> = Vec::new();
        match self {
            MaskOperand::Equals => {
                out.push(61);
            },
            MaskOperand::NotEquals => {
                out.push(33);
                out.push(61);
            },
            MaskOperand::GreaterThan => {
                out.push(62);
            },
            MaskOperand::GreaterEquals => {
                out.push(62);
                out.push(61);
            },
            MaskOperand::LowerThan => {
                out.push(60);
            },
            MaskOperand::LowerEquals => {
                out.push(60);
                out.push(61);
            },
        }
        assert(out@ =~= self.text());
        string_from_ascii(out)
    }
}

impl Default for MaskOperand {
    fn default() -> (r: Self)
        ensures
            r == MaskOperand::Equals,
    {
        MaskOperand::Equals
    }
}

impl vstd::std_specs::ops::NotSpecImpl for MaskOperand {
    open spec fn obeys_not_spec() -> bool {
        true
    }

    open spec fn not_req(self) -> bool {
        true
    }

    open spec fn not_spec(self) -> MaskOperand {
        self.negated()
    }
}

impl std::ops::Not for MaskOperand {
    type Output = MaskOperand;

    /// The operand that holds exactly where this one does not.
    fn not(self) -> (r: MaskOperand) {
        match self {
            MaskOperand::Equals => MaskOperand::NotEquals,
            MaskOperand::NotEquals => MaskOperand::Equals,
            MaskOperand::GreaterThan => MaskOperand::LowerEquals,
            MaskOperand::GreaterEquals => MaskOperand::LowerThan,
            MaskOperand::LowerThan => MaskOperand::GreaterEquals,
            MaskOperand::LowerEquals => MaskOperand::GreaterThan,
        }
    }
}

/// Negating an operand twice gives it back, the negation holds exactly
/// where the operand does not, and the text of an operand reads back as
/// the operand.
pub proof fn lemma_operand_reciprocity(op: MaskOperand, a: int, b: int)
    ensures
        op.negated().negated() == op,
        op.negated() != op,
        op.negated().holds(a, b) == !op.holds(a, b),
        operand_of_text(op.text()) == Some(op),
{
}

/// A mask: what it aims at, and how the data are compared with it.
#[derive(Debug, PartialEq)]
pub struct MaskFilter {
    /// What the mask aims at.
    pub token: MaskToken,
    /// How the data are compared with the token.
    pub operand: MaskOperand,
}

/// A mask as contracts see it.
pub struct MaskFilterView {
    pub token: MaskTokenView,
    pub operand: MaskOperand,
}

impl View for MaskFilter {
    type V = MaskFilterView;

    open spec fn view(&self) -> MaskFilterView {
        MaskFilterView { token: self.token@, operand: self.operand }
    }
}

/// The kinds of token that a description may name, by the letters that
/// open it. The longer names come first.
pub open spec fn token_prefix(text: Seq<u8>) -> Option<(int, int)> {
    if text.len() >= 2 && text[0] == 100 && text[1] == 116 {
        Some((0, 2))
    } else if text.len() >= 3 && text[0] == 115 && text[1] == 116 && text[2] == 97 {
        Some((1, 3))
    } else if text.len() >= 3 && text[0] == 100 && text[1] == 111 && text[2] == 109 {
        Some((2, 3))
    } else if text.len() >= 1 && text[0] == 116 {
        Some((3, 1))
    } else if text.len() >= 1 && text[0] == 101 {
        Some((4, 1))
    } else if text.len() >= 2 && text[0] == 97 && text[1] == 122 {
        Some((5, 2))
    } else if text.len() >= 1 && text[0] == 99 {
        Some((6, 1))
    } else if text.len() >= 1 && text[0] == 102 {
        Some((7, 1))
    } else if text.len() >= 1 && text[0] == 111 {
        Some((8, 1))
    } else {
        None
    }
}

/// The token of a kind that a text describes.
pub open spec fn token_of_kind(kind: int, text: Seq<u8>) -> Result<MaskTokenView, Error> {
    if kind == 0 {
        duration_token(text)
    } else if kind == 1 {
        stations_token(text)
    } else if kind == 2 {
        domes_token(text)
    } else if kind == 3 {
        epoch_token(text)
    } else if kind == 4 {
        elevation_token(text)
    } else if kind == 5 {
        azimuth_token(text)
    } else if kind == 6 {
        constellations_token(text)
    } else if kind == 7 {
        frequencies_token(text)
    } else {
        observables_token(text)
    }
}

/// The mask that a description stands for: the name of a kind of token
/// (`dt`, `sta`, `dom`, `t`, `e`, `az`, `c`, `f` or `o`), an operand,
/// and the token. The description is ASCII.
pub open spec fn mask_of_text(text: Seq<u8>) -> Result<MaskFilterView, Error> {
    if !all_ascii(text) {
        Err(Error::InvalidMask)
    } else {
        match token_prefix(text) {
            None => Err(Error::InvalidMask),
            Some(p) => match operand_of_text(clip(text, p.1, text.len() as int)) {
                None => Err(Error::InvalidOperand),
                Some(op) => match token_of_kind(
                    p.0,
                    clip(text, p.1 + op.text().len(), text.len() as int),
                ) {
                    Err(e) => Err(e),
                    Ok(token) => Ok(MaskFilterView { token, operand: op }),
                },
            },
        }
    }
}

/// Finds the kind of token that a description names.
pub fn parse_prefix(text: &[u8]) -> (r: Option<(u8, usize)>)
    ensures
        match r {
            Some(p) => token_prefix(text@) == Some((p.0 as int, p.1 as int)) && p.1 <= 3 && p.0
                <= 8,
            None => token_prefix(text@) is None,
        },
{
    let n = text.len();
    if n >= 2 && text[0] == 100 && text[1] == 116 {
        Some((0, 2))
    } else if n >= 3 && text[0] == 115 && text[1] == 116 && text[2] == 97 {
        Some((1, 3))
    } else if n >= 3 && text[0] == 100 && text[1] == 111 && text[2] == 109 {
        Some((2, 3))
    } else if n >= 1 && text[0] == 116 {
        Some((3, 1))
    } else if n >= 1 && text[0] == 101 {
        Some((4, 1))
    } else if n >= 2 && text[0] == 97 && text[1] == 122 {
        Some((5, 2))
    } else if n >= 1 && text[0] == 99 {
        Some((6, 1))
    } else if n >= 1 && text[0] == 102 {
        Some((7, 1))
    } else if n >= 1 && text[0] == 111 {
        Some((8, 1))
    } else {
        None
    }
}

impl MaskFilter {
    /// Reads a mask from its description.
    pub fn from_bytes(text: &[u8]) -> (r: Result<Self, Error>)
        ensures
            match r {
                Ok(m) => mask_of_text(text@) == Ok::<MaskFilterView, Error>(m@),
                Err(e) => mask_of_text(text@) == Err::<MaskFilterView, Error>(e),
            },
    {
        if !is_ascii_bytes(text) {
            return Err(Error::InvalidMask);
        }
        let (kind, width) = match parse_prefix(text) {
            Some(p) => p,
            None => {
                return Err(Error::InvalidMask);
            },
        };
        let operand = match MaskOperand::from_bytes(clip_slice(text, width, text.len())) {
            Ok(op) => op,
            Err(e) => {
                return Err(e);
            },
        };
        let rest = clip_slice(text, width + operand.formatted_len(), text.len());
        let token = if kind == 0 {
            MaskToken::parse_duration(rest)
        } else if kind == 1 {
            MaskToken::parse_stations(rest)
        } else if kind == 2 {
            MaskToken::parse_domes_sites(rest)
        } else if kind == 3 {
            MaskToken::parse_epoch(rest)
        } else if kind == 4 {
            MaskToken::parse_elevation(rest)
        } else if kind == 5 {
            MaskToken::parse_azimuth(rest)
        } else if kind == 6 {
            MaskToken::parse_constellations(rest)
        } else if kind == 7 {
            MaskToken::parse_frequencies(rest)
        } else {
            MaskToken::parse_observables(rest)
        };
        match token {
            Ok(token) => Ok(MaskFilter { token, operand }),
            Err(e) => Err(e),
        }
    }

    /// Reads a mask from its description.
    pub fn from_str(text: &str) -> (r: Result<Self, Error>)
        ensures
            match r {
                Ok(m) => mask_of_text(text.spec_bytes()) == Ok::<MaskFilterView, Error>(m@),
                Err(e) => mask_of_text(text.spec_bytes()) == Err::<MaskFilterView, Error>(e),
            },
    {
        MaskFilter::from_bytes(text.as_bytes())
    }
}

} // verus!
