//! Mutation testing for Solana Anchor programs: the deterministic mutation
//! engine, the report aggregation and rendering, and the decisions the
//! runner takes on each mutant.

pub mod calendar;
pub mod engine;
pub mod fault;
pub mod init;
pub mod model;
pub mod ops;
pub mod pattern;
pub mod report;
pub mod runner;
pub mod text;

