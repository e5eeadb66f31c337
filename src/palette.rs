//! Color resolution: an explicit color wins, otherwise one is drawn at random.

use vstd::prelude::*;
use raster::Color;
use rand::Rng;

verus! {

/// Relies on raster::Color::rgb: the three channels as given, fully opaque.
#[verifier::external_body]
fn rgb(r: u8, g: u8, b: u8) -> (c: Color)
    ensures
        c.r == r,
        c.g == g,
        c.b == b,
        c.a == 255,
{
    Color::rgb(r, g, b)
}

/// Relies on rand's thread-local generator sampling `Uniform::new_inclusive(0, 255)`:
/// any channel value may come back.
#[verifier::external_body]
pub(crate) fn random_channel() -> (r: u8) {
    rand::thread_rng().sample(rand::distributions::Uniform::new_inclusive(0u8, 255u8))
}

/// Relies on rand's thread-local generator sampling `Uniform::from(0..bound)`,
/// which yields a value of the half-open range and panics on an empty one.
#[verifier::external_body]
pub(crate) fn random_below(bound: i32) -> (r: i32)
    requires
        bound > 0,
    ensures
        0 <= r < bound,
{
    rand::thread_rng().sample(rand::distributions::Uniform::from(0..bound))
}

/// An opaque color with each channel drawn independently at random.
pub fn random_color() -> (c: Color)
    ensures
        c.a == 255,
{
    let r = random_channel();
    let g = random_channel();
    let b = random_channel();
    rgb(r, g, b)
}

/// The fully opaque color with channels `r`, `g` and `b`.
pub open spec fn opaque(r: u8, g: u8, b: u8) -> Color {
    Color { r: r, g: g, b: b, a: 255 }
}

/// The fully opaque color of three given channels.
pub fn opaque_color(r: u8, g: u8, b: u8) -> (c: Color)
    ensures
        c == opaque(r, g, b),
{
    rgb(r, g, b)
}

/// The explicit color when there is one; otherwise a color drawn at random,
/// the random source being used only then.
pub fn resolve_or_draw(explicit: &Option<Color>) -> (c: Color)
    ensures
        explicit is Some ==> c == explicit->0,
        explicit is None ==> c.a == 255,
{
    match explicit {
        Some(c) => copy_color(c),
        None => random_color(),
    }
}

pub open spec fn resolved(explicit: Option<Color>, fallback: Color) -> Color {
    match explicit {
        Some(c) => c,
        None => fallback,
    }
}

/// The color policy: the explicit color when there is one, else `fallback`.
pub fn resolve(explicit: Option<Color>, fallback: Color) -> (c: Color)
    ensures
        c == resolved(explicit, fallback),
{
    match explicit {
        Some(c) => c,
        None => fallback,
    }
}

/// A copy of `c`, channel for channel.
pub fn copy_color(c: &Color) -> (r: Color)
    ensures
        r == *c,
{
    Color { r: c.r, g: c.g, b: c.b, a: c.a }
}

} // verus!
