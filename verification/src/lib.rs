//! A join-calculus coordination core: identities, message inventory,
//! pattern registry and the coordinator that decides which pattern fires.

pub mod bag;
pub mod channels;
pub mod controller;
pub mod counter;
mod entry;
pub mod fairness;
pub mod ids;
pub mod inverted_index;
pub mod junction;
pub mod laws;
pub mod model;
pub mod module;
pub mod patterns;
pub mod preservation;
