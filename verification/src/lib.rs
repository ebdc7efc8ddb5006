//! A rhythm-game chart runtime: the normalized chart timeline model and the
//! judgment engine that scores player input against it.
//!
//! The library is pure, deterministic computation over in-memory data: the
//! host loop supplies clock readings and touch events and consumes updated
//! combo, counts, score and transient feedback entities. Rendering, audio
//! and asset loading are outside collaborators and live outside this crate.

pub mod chart;
pub mod judge;
pub mod laws;
pub mod parse;
pub mod score;
pub mod time;
