//! aethellib: loaders, corpus builders and a generation engine for aethel datasets.

pub mod text;
pub mod toml_model;
pub mod hashing;
pub mod corpus;
pub mod loader;
pub mod merge;
pub mod merger;
pub mod rng;
pub mod generators;
pub mod generator;
pub mod engine;
pub mod rules;
pub mod prelude;
