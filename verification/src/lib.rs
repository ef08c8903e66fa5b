//! Planning and bookkeeping for benchmark matrices of a llama.cpp server:
//! parsing of the matrix parameters, sampling of test points, case
//! planning and grouping, server command lines, startup-failure
//! bookkeeping, and the small text formats the tool reads and writes.
pub mod text;
pub mod matrix;
pub mod sorted;
pub mod runner;
pub mod gpu;
pub mod utils;
pub mod server;
pub mod report;
pub mod benchmark;
pub mod blackbox;
pub mod hardware;
pub mod progress;
pub mod config;
pub mod group;
