//! A benchmark arena for ZeroMQ engines: the rules of its harness, of the targets
//! that it measures and of the charts that it draws, each with its contract.
//!
//! - The harness: the matrix (`config`), a cell and its targets' command lines and
//!   reports (`cell`), the actions that run a cell (`script`), what a run amounts
//!   to (`record`), repeated measurement (`replication`) and its statistics
//!   (`stats`), and what the machine is asked for and says (`cgroups`, `netns`,
//!   `telemetry`, `host`).
//! - The targets: their command line and sockets (`target`), their loops
//!   (`loops`) and what they report (`report`).
//! - The charts: the archive (`archive`, `model`), the chart set (`charts`), and
//!   how it looks (`theme`, `axis`).
//! - What these stand on: texts, numbers, paths, sorting and a sorted map.
//!
//! What holds of a module as a whole is proved in the functions whose names begin
//! with `law_`, in the module itself or in one beside it whose name ends in
//! `_laws`.
//!
//! Sockets, processes, files and pictures are the caller's. The library takes
//! what they gave as plain values and says what is to be done next.
pub mod archive;
pub mod axis;
pub mod cell;
pub mod cgroups;
pub mod charts;
pub mod charts_laws;
pub mod config;
pub mod host;
pub mod loops;
pub mod loops_laws;
pub mod model;
pub mod netns;
pub mod number;
pub mod paths;
pub mod record;
pub mod replication;
pub mod report;
pub mod script;
pub mod script_laws;
pub mod sort;
pub mod sorted_map;
pub mod stats;
pub mod stats_laws;
pub mod target;
pub mod target_laws;
pub mod telemetry;
pub mod text;
pub mod text_laws;
pub mod theme;
