//! Sliding spectrum engine: real-time short-time spectrum estimation over a
//! continuously arriving sample stream.
//!
//! Samples are real values in signed Q30 fixed point (an `i32` sample unit is
//! `complex::FRAC_ONE`), addressed by an ever-increasing logical index. The
//! crate provides:
//!
//! - [`ring_buffer::RingBuffer`]: a fixed-capacity circular sample queue,
//!   lossy on overflow, with explicit growth and zero-copy read access;
//! - [`latency::LatencyInfo`]: bookkeeping of (sample count, instant) pairs
//!   recorded at each delivery, from which the inter-delivery latency is
//!   derived;
//! - [`source::SrcInfo`]: the shared producer-side state (buffer plus latency
//!   records) filled by a hardware callback;
//! - [`fft::FFTransformer`]: a from-scratch power-of-two FFT over fixed-point
//!   complex values, proved equal to a recursive specification;
//! - [`spectrum::RealSpectrumPlanner`]: the half-spectrum adapter for
//!   real-valued windows;
//! - [`engine::SlidingDft`]: the orchestrator that aligns wall-clock time to
//!   a sample window, discards stale samples and recomputes the spectrum.
//!
//! All clock instants are carried as nanosecond counts (`u64`), so the
//! window-alignment arithmetic is exact and fully specified.

pub mod complex;
pub mod engine;
pub mod fft;
pub mod latency;
pub mod ring_buffer;
pub mod source;
pub mod spectrum;
