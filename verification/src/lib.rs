//! Index of the asset references of a Unity project.
pub mod command;
pub mod command_rules;
pub mod course;
pub mod course_laws;
pub mod course_rules;
pub mod double;
pub mod edge_laws;
pub mod edge_once;
pub mod edge_rules;
pub mod edges;
pub mod entry_rules;
pub mod figure_rules;
pub mod figures;
pub mod files;
pub mod graph;
pub mod ledger;
pub mod lookup;
pub mod numeral_rules;
pub mod paths;
pub mod progress;
pub mod progress_rules;
pub mod rounding;
pub mod rounding_rules;
pub mod row_rules;
pub mod rows;
pub mod runs;
pub mod table_rules;
pub mod tables;
pub mod text;
pub mod vfs;
