//! An image-effects engine: per-pixel and per-neighborhood filters over an
//! in-memory pixel buffer, together with a dispatcher that resolves a filter
//! name and a loosely typed parameter map into a validated filter call.

pub mod arith;
pub mod buffer;
pub mod color_utils;
pub mod colorfx;
pub mod dispatch;
pub mod edgesfx;
pub mod errors;
pub mod fx;
pub mod glitchfx;
pub mod hsv;
pub mod params;
pub mod rng;
pub mod text;
