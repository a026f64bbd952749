//! An exact two-dimensional segment-intersection toolkit.
//!
//! Coordinates live on a fixed integer grid (`geom::MAX_COORD` bounds their
//! magnitude), so every geometric predicate is computed exactly in integer
//! arithmetic and intersection points are exact rationals.  The crate offers
//! an orientation predicate, a segment intersection classifier, a brute-force
//! all-pairs intersector, a Bentley–Ottmann style plane sweep, and a polygon
//! subsystem (area, orientation, point containment, composite regions).

pub mod geom;
pub mod frac;
pub mod line;
pub mod intersection;
pub mod classify;
pub mod events;
pub mod sweep_line;
pub mod handler;
pub mod brute_force;
pub mod polygon;
pub mod region;
pub mod laws;
pub mod bench;
pub mod naive;
pub mod dat;
