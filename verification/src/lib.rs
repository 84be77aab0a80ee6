pub mod capture;
pub mod cli;
pub mod commands;
pub mod config;
pub mod dates;
pub mod files;
pub mod db;
pub mod git;
pub mod graph;
pub mod llm;
pub mod model;
pub mod order;
pub mod project;
pub mod text;
pub mod tui;
pub mod vault;
