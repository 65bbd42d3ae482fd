//! The proof of partition: a committed vector is split into disjoint subsets
//! with public labels and public sizes that cover the whole domain.

pub mod completeness;
pub mod fast_div;
pub mod kzg_helpers;
pub mod partition_math;
pub mod prover;
pub mod random_votes;
pub mod soundness;
pub mod structs;
pub mod utils;
pub mod verify;
