//! Filters that resample the data.

use crate::processing::Error;
use crate::processing::masking::MaskFilter;
use crate::processing::masking::MaskFilterView;
use crate::processing::masking::mask_of_text;
use crate::text::clip_slice;
use crate::text::find_from;
use crate::text::first_index;
use crate::text::lemma_first_index_bounds;
use crate::text::parse_unsigned;
use crate::text::trim;
use crate::text::trimmed;
use crate::text::unsigned_value;
use vstd::prelude::*;

verus! {

/// Ways to decimate.
#[derive(Clone, Copy, Debug, PartialEq, Eq, Structural)]
pub enum DecimationFilter {
    /// Keeps one sample out of so many.
    ByRatio(u32),
}

impl Default for DecimationFilter {
    fn default() -> (r: Self)
        ensures
            r == DecimationFilter::ByRatio(0),
    {
        DecimationFilter::ByRatio(0)
    }
}

/// The decimation that a text spells: a ratio, blanks around it set aside.
pub open spec fn ratio_of_text(text: Seq<u8>) -> Result<DecimationFilter, Error> {
    match unsigned_value(trimmed(text)) {
        Some(r) => if r <= 0xffff_ffff {
            Ok(DecimationFilter::ByRatio(r as u32))
        } else {
            Err(Error::InvalidDecimationRatio)
        },
        None => Err(Error::InvalidDecimationRatio),
    }
}

impl DecimationFilter {
    /// Reads a decimation from its ratio.
    pub fn from_bytes(text: &[u8]) -> (r: Result<Self, Error>)
        ensures
            r == ratio_of_text(text@),
    {
        match parse_unsigned(trim(text), 0xffff_ffff) {
            Some(r) => Ok(DecimationFilter::ByRatio(r as u32)),
            None => Err(Error::InvalidDecimationRatio),
        }
    }
}

/// Ways to resample.
#[derive(Clone, Copy, Debug, PartialEq, Eq, Structural)]
pub enum ResamplingOps {
    /// Lowers the rate of the data.
    Decimation(DecimationFilter),
}

/// A filter that resamples the data, or the part of it that a mask
/// selects.
#[derive(Debug, PartialEq)]
pub struct ResamplingFilter {
    /// The part of the data to resample; all of it when there is none.
    pub mask: Option<MaskFilter>,
    /// How to resample.
    pub ops: ResamplingOps,
}

/// A resampling filter as contracts see it.
pub struct ResamplingFilterView {
    pub mask: Option<MaskFilterView>,
    pub ops: ResamplingOps,
}

impl View for ResamplingFilter {
    type V = ResamplingFilterView;

    open spec fn view(&self) -> ResamplingFilterView {
        ResamplingFilterView {
            mask: match self.mask {
                Some(m) => Some(m@),
                None => None,
            },
            ops: self.ops,
        }
    }
}

/// The decimation that a description stands for: a ratio, which a mask
/// and a `*` may precede.
pub open spec fn decimation_of_text(text: Seq<u8>) -> Result<ResamplingFilterView, Error> {
    let star = first_index(text, 42);
    if 0 <= star < text.len() {
        match mask_of_text(trimmed(text.take(star))) {
            Err(e) => Err(e),
            Ok(m) => match ratio_of_text(text.skip(star + 1)) {
                Err(e) => Err(e),
                Ok(d) => Ok(
                    ResamplingFilterView { mask: Some(m), ops: ResamplingOps::Decimation(d) },
                ),
            },
        }
    } else {
        match ratio_of_text(text) {
            Err(e) => Err(e),
            Ok(d) => Ok(ResamplingFilterView { mask: None, ops: ResamplingOps::Decimation(d) }),
        }
    }
}

impl ResamplingFilter {
    /// Reads a decimation from its description.
    pub fn parse_decimation(text: &[u8]) -> (r: Result<Self, Error>)
        ensures
            match r {
                Ok(f) => decimation_of_text(text@) == Ok::<ResamplingFilterView, Error>(f@),
                Err(e) => decimation_of_text(text@) == Err::<ResamplingFilterView, Error>(e),
            },
    {
        let star = find_from(text, 0, 42);
        proof {
            assert(text@.skip(0) =~= text@);
            lemma_first_index_bounds(text@, 42);
        }
        if star < text.len() {
            let head = clip_slice(text, 0, star);
            let tail = clip_slice(text, star + 1, text.len());
            assert(head@ =~= text@.take(star as int));
            assert(tail@ =~= text@.skip(star as int + 1));
            let mask = match MaskFilter::from_bytes(trim(head)) {
                Ok(m) => m,
                Err(e) => {
                    return Err(e);
                },
            };
            match DecimationFilter::from_bytes(tail) {
                Ok(d) => Ok(ResamplingFilter { mask: Some(mask), ops: ResamplingOps::Decimation(d) }),
                Err(e) => Err(e),
            }
        } else {
            match DecimationFilter::from_bytes(text) {
                Ok(d) => Ok(ResamplingFilter { mask: None, ops: ResamplingOps::Decimation(d) }),
                Err(e) => Err(e),
            }
        }
    }
}

} // verus!
