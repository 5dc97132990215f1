//! Thunder: search, pick and fix logic for a terminal workflow tool.
pub mod cli;
pub mod config;
pub mod control;
pub mod daemon;
pub mod corpus;
pub mod doctor;
pub mod editor;
pub mod fix;
pub mod fix_rules;
pub mod fuzzy;
pub mod git;
pub mod history;
pub mod index;
pub mod order;
pub mod palette;
pub mod pick;
pub mod router;
pub mod safety;
pub mod scripts;
pub mod search;
pub mod text;
