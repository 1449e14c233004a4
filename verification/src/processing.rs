//! Filters that retain or discard subsets of the data of a file.

pub mod masking;
pub mod resampling;
pub mod token;

use crate::processing::masking::MaskFilter;
use crate::processing::masking::MaskFilterView;
use crate::processing::resampling::ResamplingFilter;
use crate::processing::resampling::ResamplingFilterView;
use crate::text::clip;
use crate::text::clip_slice;
use vstd::prelude::*;
use vstd::string::StringSliceAdditionalSpecFns;

verus! {

/// Why a description is no filter.
#[derive(Clone, Copy, Debug, PartialEq, Eq, Structural)]
pub enum Error {
    /// No operand where one is due.
    InvalidOperand,
    /// The description names no kind of mask.
    InvalidMask,
    /// The description of an instant cannot be read.
    InvalidEpoch,
    /// The description of a span of time cannot be read.
    InvalidDuration,
    /// The elevation is no angle between 0 and 90 degrees.
    InvalidElevation,
    /// The azimuth is no angle between 0 and 360 degrees.
    InvalidAzimuth,
    /// The description names no constellation.
    InvalidConstellation,
    /// The description names no site.
    InvalidDOMES,
    /// The description names no frequency.
    InvalidFrequency,
    /// The description names no kind of filter.
    InvalidFilter,
    /// The description names nothing that a filter can aim at.
    InvalidToken,
    /// The ratio of a decimation is no number.
    InvalidDecimationRatio,
}

/// A filter.
#[derive(Debug, PartialEq)]
pub enum Filter {
    /// Retains or discards subsets of the data.
    Mask(MaskFilter),
    /// Resamples the data.
    Resampling(ResamplingFilter),
}

/// A filter as contracts see it.
pub enum FilterView {
    Mask(MaskFilterView),
    Resampling(ResamplingFilterView),
}

impl View for Filter {
    type V = FilterView;

    open spec fn view(&self) -> FilterView {
        match self {
            Filter::Mask(m) => FilterView::Mask(m@),
            Filter::Resampling(r) => FilterView::Resampling(r@),
        }
    }
}

/// The filter that a description stands for: a decimation after `d:`, a
/// mask after any other two characters.
pub open spec fn filter_of_text(text: Seq<u8>) -> Result<FilterView, Error> {
    if text.len() >= 2 && text[0] == 100 && text[1] == 58 {
        match crate::processing::resampling::decimation_of_text(clip(text, 2, text.len() as int)) {
            Ok(r) => Ok(FilterView::Resampling(r)),
            Err(e) => Err(e),
        }
    } else {
        match crate::processing::masking::mask_of_text(clip(text, 2, text.len() as int)) {
            Ok(m) => Ok(FilterView::Mask(m)),
            Err(e) => Err(e),
        }
    }
}

impl Filter {
    /// Reads a filter from its description.
    pub fn from_bytes(text: &[u8]) -> (r: Result<Self, Error>)
        ensures
            match r {
                Ok(f) => filter_of_text(text@) == Ok::<FilterView, Error>(f@),
                Err(e) => filter_of_text(text@) == Err::<FilterView, Error>(e),
            },
    {
        let rest = clip_slice(text, 2, text.len());
        if text.len() >= 2 && text[0] == 100 && text[1] == 58 {
            match ResamplingFilter::parse_decimation(rest) {
                Ok(r) => Ok(Filter::Resampling(r)),
                Err(e) => Err(e),
            }
        } else {
            match MaskFilter::from_bytes(rest) {
                Ok(m) => Ok(Filter::Mask(m)),
                Err(e) => Err(e),
            }
        }
    }

    /// Reads a filter from its description.
    pub fn from_str(text: &str) -> (r: Result<Self, Error>)
        ensures
            match r {
                Ok(f) => filter_of_text(text.spec_bytes()) == Ok::<FilterView, Error>(f@),
                Err(e) => filter_of_text(text.spec_bytes()) == Err::<FilterView, Error>(e),
            },
    {
        Filter::from_bytes(text.as_bytes())
    }
}

} // verus!
