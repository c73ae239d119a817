//! Core of a particle-effect editor: the effect data model, the editable-value
//! binding layer, keyframe gradients, the asset-path safety rules, and the
//! text form effects are saved in.
//!
//! The surrounding application owns the window, the widget toolkit and all
//! file I/O; it calls into this crate for every decision: how an interaction
//! changes a gradient, how edits clamp a ranged value, whether a save path is
//! acceptable, what bytes a save writes, and how an effect definition becomes
//! a runtime pipeline.

pub mod asset;
pub mod change;
pub mod codec;
pub mod gradient;
pub mod reffect;
pub mod value;
