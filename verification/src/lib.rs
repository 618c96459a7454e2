//! Modeling core of an adaptive readahead daemon: the stores, the model
//! updater, the prefetch planner and the decisions of the engine cycle.

pub mod config;
pub mod domain;
pub mod engine;
pub mod error;
pub mod observation;
pub mod paths;
pub mod persistence;
pub mod prediction;
pub mod prefetch;
pub mod scan;
pub mod stores;
pub mod text;
pub mod updater;
