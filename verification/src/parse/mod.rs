//! Parsing of one compilation, done when someone views it.

pub mod bytecode;
pub mod cache;
pub mod compilation;
pub mod graph;
pub mod ids;
pub mod intern;
pub mod links;
pub mod listing;
pub mod maglev;
pub mod prefix;
pub mod turbofan;
