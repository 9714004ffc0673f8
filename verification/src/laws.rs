//! What the parts of a review promise, said of what goes in and what comes out.

pub mod gathering;
pub mod reading_order;
pub mod symbol_history;
pub mod code_pane;
pub mod rule_files;
pub mod listing;
pub mod filtering;
pub mod dependencies;
pub mod loading;
pub mod moving;
pub mod commanding;
pub mod acting;
pub mod revisions;
pub mod explaining;
pub mod completing;
pub mod symbols;
pub mod starting;
pub mod settings;
pub mod editing;
pub mod consuming;
pub mod drawing;
pub mod commenting;
pub mod remembering;
pub mod running;
pub mod keymaps;
pub mod coloring;
pub mod hovering;
pub mod configuring;
pub mod documenting;
pub mod following;
pub mod reviewing;
pub mod rule_reports;
pub mod auditing;
pub mod searching;
pub mod working_tree;
pub mod steering;
pub mod reaching;
pub mod reordering;
