//! Colours and the strategy that picks the colour of each drawn cell.

use rand::Rng;
use vstd::prelude::*;

verus! {

/// A colour with red, green and blue components.
#[derive(Clone, Copy, Debug, PartialEq, Eq, Structural)]
pub struct Rgb(pub u8, pub u8, pub u8);

/// How the colour of a living cell is chosen.
#[derive(Clone, Copy, Debug, PartialEq, Eq, Structural)]
pub enum ColorMode {
    /// Every cell is drawn in plain white.
    Monochrome,
    /// Every cell is drawn in a colour drawn afresh for it.
    Random,
}

/// The thread-local generator of `rand`, carried as an opaque value.
#[verifier::external_type_specification]
#[verifier::external_body]
pub struct ExThreadRng(rand::rngs::ThreadRng);

/// Calls `rand::thread_rng`, which hands out the generator of the current
/// thread. Nothing is claimed of the generator.
#[verifier::external_body]
fn thread_generator() -> (rng: rand::rngs::ThreadRng) {
    rand::thread_rng()
}

/// Calls `rand::Rng::gen_range` on the inclusive range from `low` to `high`.
/// The range must hold a value, since `gen_range` panics on an empty one; the
/// only claim is that the sample lies in the range.
#[verifier::external_body]
fn sample_channel(rng: &mut rand::rngs::ThreadRng, low: u8, high: u8) -> (sample: u8)
    requires
        low <= high,
    ensures
        low <= sample <= high,
{
    rng.gen_range(low..=high)
}

impl Rgb {
    /// Plain black.
    pub open spec fn spec_black() -> Rgb {
        Rgb(0, 0, 0)
    }

    /// Plain white.
    pub open spec fn spec_white() -> Rgb {
        Rgb(255, 255, 255)
    }

    /// Plain black.
    #[verifier::when_used_as_spec(spec_black)]
    pub fn black() -> (c: Rgb)
        ensures
            c == Rgb::spec_black(),
    {
        Rgb(0, 0, 0)
    }

    /// Plain white.
    #[verifier::when_used_as_spec(spec_white)]
    pub fn white() -> (c: Rgb)
        ensures
            c == Rgb::spec_white(),
    {
        Rgb(255, 255, 255)
    }

    /// The channel of this colour that is stored at position `k` of a pixel:
    /// red, green, blue, and then full opacity.
    pub open spec fn channel(self, k: int) -> u8 {
        if k == 0 {
            self.0
        } else if k == 1 {
            self.1
        } else if k == 2 {
            self.2
        } else {
            255
        }
    }

    /// A colour whose three channels are sampled independently over the whole
    /// range of a byte. Every colour is a possible outcome, so nothing is
    /// promised of the result.
    pub fn random() -> Rgb {
        let mut rng = thread_generator();
        let r: u8 = sample_channel(&mut rng, 0, 255);
        let g: u8 = sample_channel(&mut rng, 0, 255);
        let b: u8 = sample_channel(&mut rng, 0, 255);
        Rgb::from_channels(r, g, b)
    }

    /// The colour with the given red, green and blue channels. This is what
    /// `random` makes of the three samples it has drawn.
    pub fn from_channels(r: u8, g: u8, b: u8) -> (c: Rgb)
        ensures
            c == Rgb(r, g, b),
    {
        Rgb(r, g, b)
    }
}

impl ColorMode {
    /// The colour for the next cell to draw: white in monochrome mode, a
    /// fresh sample in random mode.
    pub fn next_color(&self) -> (c: Rgb)
        ensures
            *self == ColorMode::Monochrome ==> c == Rgb::white(),
    {
        match self {
            ColorMode::Monochrome => Rgb::white(),
            ColorMode::Random => Rgb::random(),
        }
    }
}

} // verus!
