//! Reaction votes for chat messages: a fixed catalog of emoji reaction
//! kinds, a codec that stores per-user votes inside the text of an
//! already-sent message (as a hidden link annotation), a toggle engine,
//! a keyboard renderer, and the decision logic of the command,
//! control-press and inline flows. The host platform's messages are the
//! only durable store: every event decodes the target message afresh,
//! mutates the mapping, and re-encodes it.

pub mod catalog;
pub mod codec;
pub mod decimal;
pub mod orchestrate;
pub mod render;
pub mod state;
pub mod text;
