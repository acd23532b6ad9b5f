//! The core of a two-dimensional gravity toy: a software rasteriser for
//! lines, rectangles and circles on a pixel grid, and the bookkeeping of an
//! N-body simulation (body store, selection, tick schedule, pair
//! enumeration, trails).
//!
//! Everything here works on integers. World coordinates, forces and the
//! camera transform are real-valued and belong to the caller, which hands
//! this crate grid points and yes/no answers.

pub mod graphics;
pub mod simulation;
