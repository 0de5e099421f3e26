//! A dlog-based polynomial commitment engine over the Vesta curve: a
//! structured reference string (ordered commitment bases plus one
//! auxiliary point), a committer that turns coefficient or evaluation
//! vectors into commitments by multiscalar multiplication, Lagrange-basis
//! commitments, the b-polynomial expansion of folding challenges, and a
//! batched accumulator check.
//!
//! Field and curve arithmetic, FFT interpolation and point encoding are
//! delegated to the arkworks crates behind trusted wrappers; everything
//! that combines them is verified.

pub mod batch;
pub mod bpoly;
pub mod codec;
pub mod commit;
pub mod field;
pub mod lagrange;
pub mod point;
pub mod srs;
