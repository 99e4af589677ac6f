//! The build pipeline around the library: commands, operations, their
//! graph, the scheduler and what the tasks compute.
pub mod command;
pub mod graph;
pub mod graph_sorter;
pub mod op;
pub mod schedule;
pub mod state;
pub mod task;
pub mod types;
pub mod utils;
