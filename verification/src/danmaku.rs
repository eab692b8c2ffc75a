//! Danmaku (live comment) clients.
pub mod cc;
