//! Cranberry: the state and text-processing core of a terminal dashboard for
//! Prometheus metrics and Loki logs.

pub mod config;
pub mod text;
pub mod numbers;
pub mod prometheus;
pub mod targets;
pub mod queries;
pub mod loki;
pub mod wrap;
pub mod app;
pub mod logs;
pub mod laws;
pub mod keys;
pub mod logging;
pub mod cli;
pub mod view;
pub mod schedule;
