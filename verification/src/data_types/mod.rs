use vstd::prelude::*;

pub mod engine;
pub mod number;
pub mod point;
