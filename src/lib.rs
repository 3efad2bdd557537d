//! Adaptive typing-practice engine: a scored word store, sentence assembly,
//! the keystroke state machine that updates scores, and typing-rate metrics.
pub mod store;
pub mod sentence;
pub mod session;
pub mod metrics;
pub mod laws;
