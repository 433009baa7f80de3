pub mod evaluator;
pub mod node_exec;
pub mod table;
pub mod runner;
pub mod runner_laws;
