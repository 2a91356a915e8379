//! A grid-based first-person ray-casting renderer core.
//!
//! The world is a sparse set of occupied unit grid cells. One ray is cast
//! per screen column against that set with a digital-differential-analyzer
//! (DDA) walk over cell boundaries, and the hit distance is projected into
//! a shaded vertical wall slice.
//!
//! All geometry is carried out in exact rational arithmetic ([`ratio::Rat`]),
//! so every contract states the result of a computation exactly. The only
//! quantities that cannot be exact rationals — the sine, cosine and tangent
//! values derived from the player's facing angle and the field of view — are
//! supplied by the caller as rational approximations, and every contract is
//! exact over the supplied values.

pub mod ratio;
pub mod grid;
pub mod pose;
pub mod cast;
pub mod project;
