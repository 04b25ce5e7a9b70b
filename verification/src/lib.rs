//! Core of an animated line chart: a reveal scheduler that turns elapsed
//! wall-clock time into a count of visible samples, and a rasterizer that
//! draws the visible prefix of the series into an RGBA pixel buffer.
//!
//! Both components are pure: the host owns the clock, the data loader and
//! the presentation surface, and passes plain values in. Real-valued data
//! is carried in fixed-point thousandths so that every computation here is
//! exact integer arithmetic.

pub mod error;
pub mod raster;
pub mod scheduler;
pub mod series;
