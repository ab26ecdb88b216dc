//! BitForge: workspace management logic for Yocto / BitBake projects.

pub mod args;
pub mod build_state;
pub mod config;
pub mod dependency;
pub mod graph;
pub mod lock;
pub mod order;
pub mod process;
pub mod records;
pub mod routing;
pub mod run;
pub mod release;
pub mod scaffold;
pub mod server;
pub mod signal;
pub mod sorted_map;
pub mod table;
pub mod tasks;
pub mod text;
pub mod timefmt;
pub mod tracking;
pub mod workspace;
