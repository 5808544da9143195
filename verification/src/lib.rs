//! SECS/GEM simulator core: SECS-II items, message catalog, SML text,
//! flow graphs, rules and session bookkeeping.

pub mod text;
pub mod secs2;
pub mod numbers;
pub mod ids;
pub mod body_tree;
pub mod item_text;
pub mod sml_write;
pub mod body_from_item;
pub mod xml;
pub mod sml_read;
pub mod sml_bridge;
pub mod config;
pub mod catalog;
pub mod smd;
pub mod flow_model;
pub mod flow_eval;
pub mod flow_walk;
pub mod flow_run;
pub mod rules;
pub mod log;
pub mod templates;
pub mod events;
pub mod gem;
pub mod persistence;
pub mod session;
pub mod sml_laws;
pub mod tree_laws;
pub mod commands;
pub mod clock;
