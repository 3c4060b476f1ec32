//! Colour records.

use vstd::prelude::*;

verus! {

/// The three colour channels.
pub enum Channel {
    Red,
    Green,
    Blue,
}

/// One source pixel: red, green, blue and alpha, eight bits each.
#[derive(Clone, Copy, Debug, PartialEq, Eq)]
pub struct Pixel {
    pub r: u8,
    pub g: u8,
    pub b: u8,
    pub a: u8,
}

/// An averaged colour. Alpha has been consumed by the averaging and is not
/// carried along.
#[derive(Clone, Copy, Debug, PartialEq, Eq)]
pub struct Color {
    pub r: u8,
    pub g: u8,
    pub b: u8,
}

impl Pixel {
    /// The value of one colour channel.
    pub open spec fn channel(self, c: Channel) -> u8 {
        match c {
            Channel::Red => self.r,
            Channel::Green => self.g,
            Channel::Blue => self.b,
        }
    }

    /// The pixel's colour, without its alpha.
    pub open spec fn color(self) -> Color {
        Color { r: self.r, g: self.g, b: self.b }
    }

    /// What the pixel adds to a channel's sum: the channel's value times
    /// alpha. The weight of a pixel is `alpha / 255`, so this is 255 times
    /// its weighted value; the factor is divided out once, at the end.
    pub open spec fn weighted(self, c: Channel) -> nat {
        (self.a as nat) * (self.channel(c) as nat)
    }
}

} // verus!
