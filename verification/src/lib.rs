//! The review core of ordo: what a change is read as, in which order, and what
//! each key and command does to the reading.

pub mod cursor;
pub mod editor;
pub mod keyconfig;
pub mod keys;
pub mod paths;
pub mod search;
pub mod text;
pub mod theme;
pub mod textmap;
pub mod model;
pub mod identity;
pub mod filter;
pub mod view;
pub mod items;
pub mod commands;
pub mod rules;
pub mod paint;
pub mod code_view;
pub mod grammar;
pub mod syntax;
pub mod highlight;
pub mod state;
pub mod links;
pub mod why;
pub mod writeback;
pub mod session;
pub mod finder;
pub mod execute;
pub mod reorder;
pub mod events;
pub mod load;
pub mod run;
pub mod draw;
pub mod json;
pub mod git;
pub mod history;
pub mod args;
pub mod stored;
pub mod comments;
pub mod consumers;
pub mod config;
pub mod config_ui;
pub mod config_file;
pub mod config_view;
pub mod docs;
pub mod desk;
pub mod laws;
