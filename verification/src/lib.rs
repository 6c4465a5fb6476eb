//! Polygenic score computation: genotype decoding, marker matching and batch
//! scheduling, with machine-checked contracts.

pub mod args;
pub mod bed_crate;
pub mod betareader;
pub mod bfile;
pub mod bed_error;
pub mod bed_index;
pub mod bit_op;
pub mod block;
pub mod freq;
pub mod geno_reader;
pub mod join;
pub mod meta;
pub mod output;
pub mod post_args;
pub mod predict;
pub mod read_score;
pub mod reader;
pub mod runner;
pub mod score;
pub mod weight;
