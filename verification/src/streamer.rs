//! Stream relays.
pub mod hls;
pub mod seqmap;
