//! What each command of the recorder decides and computes.

pub mod clear;
pub mod daemon;
pub mod query;
pub mod recorder;
