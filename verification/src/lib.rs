pub mod catalog;
pub mod cli;
pub mod paths;
pub mod report;
pub mod suggestion;
pub mod system;
pub mod text;
pub mod toml_edit_specs;
pub mod toml_model;
pub mod toml_ops;
pub mod status;
pub mod doctor;
pub mod runner;
pub mod ui;
pub mod wizard;
