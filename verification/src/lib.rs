//! Reading, navigating and comparing V8 trace output.

pub mod ansi;
pub mod app;
pub mod boundary;
pub mod cli;
pub mod clipboard;
pub mod config;
pub mod diff;
pub mod document;
pub mod event;
pub mod index;
pub mod keys;
pub mod markers;
pub mod model;
pub mod parse;
pub mod partition;
pub mod pattern;
pub mod phases;
pub mod promises;
pub mod source;
pub mod spelling;
pub mod streaming;
pub mod survey;
pub mod text;
pub mod ui;
pub mod view;
