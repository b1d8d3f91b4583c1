//! A symmetric hard-knee limiter with output gain: the parameter bank that a
//! host drives and the clipping stage of the per-sample transform.
//!
//! Every sample and every parameter value is held as the bit pattern of an
//! IEEE-754 single-precision number, so that comparing, clamping and storing
//! are integer work whose meaning is stated over exact values.

pub mod binary32;
pub mod params;
pub mod processor;
