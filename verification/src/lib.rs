use vstd::prelude::*;

pub mod types;
pub mod text;
pub mod number;
pub mod data;
pub mod index;
pub mod search;
pub mod eval;
pub mod matrix;
pub mod report;
pub mod cli;
pub mod knowledge;
pub mod algorithms;
pub mod features;
