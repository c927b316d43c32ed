//! What the library promises, stated of bytes, texts, bits and the fields of rules.
//!
//! The models in the other modules say how a result is put together. The laws here
//! say what a result must satisfy: each is written out on the inputs and the result
//! of an operation, for every input.

pub mod addresses;
pub mod connections;
pub mod rules;
pub mod service;
pub mod startup;
pub mod texts;
pub mod words;
