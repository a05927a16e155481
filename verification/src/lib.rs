//! Stamps a small part-labelled glyph at random, flatness-weighted places of
//! an RGBA image, painting each instance with colours sampled from the
//! pixels underneath it.
//!
//! - [`pattern`]: the glyph, its mirror image and its enlargements;
//! - [`canvas`]: the image, as dimensions and raw bytes;
//! - [`color`]: colours, their distance, and how the parts are pushed apart;
//! - [`score`]: how flat the image is under a window;
//! - [`stamp`]: one stamp of the glyph;
//! - [`driver`]: the run over every place, and the whole effect on raw bytes;
//! - [`random`]: where the draws come from;
//! - [`sums`], [`wide`]: sums over windows and 256-bit products, which the
//!   contracts and the acceptance test rest on.
//!
//! Chance enters through [`stamp::amogus_write`], [`driver::do_it`] and
//! [`driver::apply`]. Each has a twin that takes the draws as arguments and
//! whose result is a function of them.

pub mod canvas;
pub mod color;
pub mod driver;
pub mod pattern;
pub mod random;
pub mod score;
pub mod stamp;
pub mod sums;
pub mod wide;
