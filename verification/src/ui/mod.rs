//! What is on the screen: the text of every line with the class of each part,
//! its colours, and where things stand. Drawing is left to the terminal.

pub mod bars;
pub mod frame;
pub mod links;
pub mod paint;
pub mod script;
pub mod style;
