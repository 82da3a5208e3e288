//! What the operations are for, said of raw bytes, numbers and lists.
//!
//! Each module takes one ability of the program and states what its results
//! must satisfy for all inputs.

pub mod acts;
pub mod anchors;
pub mod bytecodes;
pub mod bytes;
pub mod canon;
pub mod changes;
pub mod chords;
pub mod contexts;
pub mod details;
pub mod disassembly;
pub mod events;
pub mod filters;
pub mod frames;
pub mod lenses;
pub mod lines;
pub mod looks;
pub mod marks;
pub mod navigation;
pub mod nodes;
pub mod notes;
pub mod operands;
pub mod outputs;
pub mod paints;
pub mod pairs;
pub mod pipeline;
pub mod refs;
pub mod sections;
pub mod sidebar;
pub mod sources;
pub mod surveys;
pub mod tokens;
pub mod typing;
pub mod words;
