use vstd::prelude::*;
use crate::error::AnalyzerError;
use crate::types::{decimal, push_decimal};

verus! {

/// How densely an image is sampled.
#[derive(Debug, Clone, Copy, PartialEq, Eq, Structural)]
pub enum Quality {
    /// A quarter of the pixels of each grid cell, at most 128 pixels a side.
    Draft,
    /// Half of the pixels of each grid cell, at most 256 pixels a side.
    Balanced,
    /// Every pixel of each grid cell, at most 512 pixels a side.
    Precise,
}

/// The fraction of a grid cell's pixels that a quality keeps, as
/// (numerator, denominator).
pub open spec fn fraction_of(q: Quality) -> (int, int) {
    match q {
        Quality::Draft => (1, 4),
        Quality::Balanced => (1, 2),
        Quality::Precise => (1, 1),
    }
}

/// The longest side, in pixels, that an image keeps before sampling.
pub open spec fn max_dimension_of(q: Quality) -> int {
    match q {
        Quality::Draft => 128,
        Quality::Balanced => 256,
        Quality::Precise => 512,
    }
}

impl Default for Quality {
    /// `Balanced`.
    fn default() -> (q: Quality)
        ensures
            q == Quality::Balanced,
    {
        Quality::Balanced
    }
}

impl Quality {
    /// The fraction of each grid cell's pixels that is sampled, as
    /// (numerator, denominator): 1/4, 1/2 and 1/1.
    pub fn sample_fraction(self) -> (f: (u32, u32))
        ensures
            (f.0 as int, f.1 as int) == fraction_of(self),
    {
        match self {
            Quality::Draft => (1, 4),
            Quality::Balanced => (1, 2),
            Quality::Precise => (1, 1),
        }
    }

    /// The longest side, in pixels, that an image is scaled down to before
    /// sampling: 128, 256 and 512.
    pub fn max_dimension(self) -> (d: u32)
        ensures
            d as int == max_dimension_of(self),
    {
        match self {
            Quality::Draft => 128,
            Quality::Balanced => 256,
            Quality::Precise => 512,
        }
    }
}

/// The fewest clusters an analysis may ask for.
pub const MIN_COLORS: u8 = 2;

/// The most clusters an analysis may ask for.
pub const MAX_COLORS: u8 = 16;

/// Refuses a cluster count outside 2..=16 with `InvalidConfig`, naming the
/// count.
pub fn check_max_colors(max_colors: u8) -> (r: Result<(), AnalyzerError>)
    ensures
        r is Ok <==> MIN_COLORS <= max_colors <= MAX_COLORS,
        r is Err ==> (r matches Err(AnalyzerError::InvalidConfig(m)) && m@
            == "max_colors must be in the range [2, 16], got "@ + decimal(max_colors as nat)),
{
    if !(MIN_COLORS <= max_colors && max_colors <= MAX_COLORS) {
        let mut message = String::from_str("max_colors must be in the range [2, 16], got ");
        push_decimal(&mut message, max_colors as usize);
        return Err(AnalyzerError::InvalidConfig(message));
    }
    Ok(())
}

/// Refuses a zero iteration limit with `InvalidConfig`.
pub fn check_max_iterations(max_iterations: u32) -> (r: Result<(), AnalyzerError>)
    ensures
        r is Ok <==> max_iterations >= 1,
        r is Err ==> (r matches Err(AnalyzerError::InvalidConfig(m)) && m@
            == "max_iterations must be \u{2265} 1"@),
{
    if max_iterations == 0 {
        return Err(AnalyzerError::InvalidConfig(String::from_str("max_iterations must be \u{2265} 1")));
    }
    Ok(())
}

} // verus!
