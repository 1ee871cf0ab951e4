//! Core state machine of a terminal typing test.
//!
//! A session owns an ordered list of target words. It consumes one
//! classified keystroke at a time, keeps a replay log of the raw input
//! actions per word, mirrors the in-progress text of the active word,
//! and judges each word on commit. Reconstruction of entered text is a
//! pure fold over the per-word event log.

pub mod key;
pub mod session;
mod shims;
