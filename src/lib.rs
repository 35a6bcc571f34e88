//! A bridge that carries values between a host runtime's dynamic terms and an
//! embedded script engine's values, with the per-call lifecycle of an
//! evaluation.
pub mod number;
pub mod term;
pub mod encode;
pub mod decode;
pub mod laws;
pub mod context;
