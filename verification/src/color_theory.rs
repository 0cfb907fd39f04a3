use vstd::prelude::*;

verus! {

/// Colour harmonies of a base colour, each as `#RRGGBB`: its hue turned by
/// 180 degrees, by 120 and 240, and by -30 and +30, lightness and chroma
/// kept.
pub struct ColorTheory {
    /// The hue turned by 180 degrees.
    pub complementary: String,
    /// The hue turned by 120 and by 240 degrees.
    pub triadic: [String; 2],
    /// The hue turned by -30 and by +30 degrees.
    pub analogous: [String; 2],
}

} // verus!
