//! The command line: commands, options and what is printed.

pub mod command;
pub mod node;
pub mod option_laws;
pub mod report;
pub mod report_laws;
pub mod simulate;
pub mod simulate_laws;

pub use self::command::{select_command, Selected};
pub use self::node::{
    config_path, parse_config, parse_node_request, Argument, ConfigEntry, NodeRequest, ParsedNode,
};
pub use self::report::{final_lines, network_line, startup_lines, status_line};
pub use self::simulate::{
    parse_simulation_request, prepare_simulation, simulation_lines, verdict, ParsedSimulation,
};
