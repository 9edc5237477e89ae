//! A log-specialist character-level language model: its tokenizer, its corpora of
//! normal and anomalous service logs, and the bookkeeping of training and scoring.
pub mod apache;
pub mod cli;
pub mod corpus;
pub mod model;
pub mod rng;
pub mod synth;
pub mod text;
pub mod tokenizer;
pub mod training;
