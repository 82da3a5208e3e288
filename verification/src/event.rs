//! Everything that can change what is shown.

use vstd::prelude::*;

use crate::keys::{KeyEvent, MouseEvent};

verus! {

/// An event of the terminal.
#[derive(Debug, Clone, Copy, PartialEq, Eq)]
pub enum InputEvent {
    Key(KeyEvent),
    Mouse(MouseEvent),
    /// A resize, or anything else that only asks for a redraw.
    Other,
}

/// Data of a source, or the end of it.
#[derive(Debug)]
pub enum SourceEvent {
    /// A whole file.
    Mapped { source: usize, map: Vec<u8> },
    Chunk { source: usize, bytes: Vec<u8> },
    Eof { source: usize },
    Failed { source: usize, error: String },
}

/// What a source event brings.
pub enum SourceChange {
    Mapped(Seq<u8>),
    Chunk(Seq<u8>),
    Eof,
    Failed(Seq<char>),
}

/// The view of a `SourceEvent`: the source and what it brings.
pub struct SourceEventModel {
    pub source: usize,
    pub change: SourceChange,
}

impl View for SourceEvent {
    type V = SourceEventModel;

    open spec fn view(&self) -> SourceEventModel {
        match self {
            SourceEvent::Mapped { source, map } => SourceEventModel {
                source: *source,
                change: SourceChange::Mapped(map@),
            },
            SourceEvent::Chunk { source, bytes } => SourceEventModel {
                source: *source,
                change: SourceChange::Chunk(bytes@),
            },
            SourceEvent::Eof { source } => SourceEventModel {
                source: *source,
                change: SourceChange::Eof,
            },
            SourceEvent::Failed { source, error } => SourceEventModel {
                source: *source,
                change: SourceChange::Failed(error@),
            },
        }
    }
}

/// An event.
#[derive(Debug)]
pub enum Event {
    Input(InputEvent),
    Source(SourceEvent),
    /// The terminal went away.
    InputClosed,
}

} // verus!
