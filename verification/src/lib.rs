//! Line-oriented before/after diffing.
//!
//! The core is a verified sequence-diff engine: given two ordered sequences
//! of text lines, it computes a minimal edit script that classifies each line
//! as removed-only, common, or added-only while preserving the relative order
//! of every line. Around it, a snapshot tracer renders a value before and
//! after an arbitrary computation runs, diffs the two renderings, and hands
//! the resulting script to a reporting sink, returning the computation's own
//! result untouched.

pub mod engine;
pub mod laws;
pub mod script;
pub mod tracer;
