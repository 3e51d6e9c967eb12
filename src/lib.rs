//! Terrain rendering for ASCII elevation grids.
//!
//! Elevations are held as fixed-point integers: one unit of elevation is
//! `grid::SCALE` steps. Every renderer here works on that representation;
//! what needs floating point (a colour ramp, trigonometric shading) is handed
//! in by the caller as plain values or as a function.
pub mod composite;
pub mod grid;
pub mod parse;
pub mod stats;
pub mod gray;
pub mod color;
pub mod hillshade;
pub mod render;
