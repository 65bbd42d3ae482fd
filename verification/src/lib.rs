//! Aggregator-based voting with proofs of partition.

pub mod artifact_laws;
pub mod artifacts;
pub mod benchmark;
pub mod benchmark_engine;
pub mod benchmark_laws;
pub mod benchmark_math;
pub mod benchmark_run;
pub mod bls;
pub mod call_laws;
pub mod calls;
pub mod clock;
pub mod count_laws;
pub mod curve;
pub mod demo;
pub mod demo_election;
pub mod demo_laws;
pub mod demo_state;
pub mod demo_summary;
pub mod demo_tally;
pub mod domain;
pub mod election;
pub mod epa;
pub mod epa_adapter;
pub mod epa_laws;
pub mod eqlog;
pub mod error;
pub mod fft_math;
pub mod field;
pub mod generator;
pub mod hash;
pub mod hexcode;
pub mod jobs;
pub mod labels;
pub mod modular;
pub mod poly;
pub mod poly_math;
pub mod proof_bytes;
pub mod registration;
pub mod registration_laws;
pub mod request_laws;
pub mod roots;
pub mod route_laws;
pub mod routes;
pub mod sorting;
pub mod string_map;
pub mod summary_laws;
pub mod sums;
pub mod tally;
pub mod tally_laws;
pub mod text;

pub use crate::error::{AggiosError, Result};
