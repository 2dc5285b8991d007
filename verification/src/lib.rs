//! Verified core of a desktop shell that supervises one worker process,
//! relays its output as tagged log lines, and derives a stable machine
//! identity through an ordered chain of fallback queries.

pub mod hasher;
pub mod identity;
pub mod name;
pub mod query;
pub mod relay;
pub mod supervisor;
pub mod text;
