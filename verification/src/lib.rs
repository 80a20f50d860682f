//! Verified core of the cargo-rustics code-metrics tool.

pub mod ai_report;
pub mod analyze;
pub mod calendar;
pub mod cli;
pub mod clippy;
pub mod config;
pub mod console;
pub mod constraint;
pub mod coverage;
pub mod cross_file;
pub mod discover;
pub mod expanded;
pub mod explain;
pub mod measured;
pub mod dismissal;
pub mod doc_comments;
pub mod doctor;
pub mod items;
pub mod lsp;
pub mod path;
pub mod regression;
pub mod report;
pub mod rules;
pub mod scan;
pub mod runner;
pub mod sarif;
pub mod since;
pub mod snapshot;
pub mod syntax;
pub mod text;
pub mod unused;
pub mod yaml;
