//! Colours.

use vstd::prelude::*;

use super::bars::Tone;
use super::paint::{Class, Palette};
use crate::diff::RowStatus;

verus! {

/// A colour of the terminal, by name or by number.
#[derive(Debug, Clone, Copy, PartialEq, Eq, Structural)]
pub enum Colour {
    Black,
    Red,
    Green,
    Yellow,
    Blue,
    Magenta,
    Cyan,
    Gray,
    DarkGray,
    Indexed(u8),
}

/// How a part of the screen looks.
#[derive(Debug, Clone, Copy, PartialEq, Eq, Structural)]
pub struct Style {
    pub fg: Option<Colour>,
    pub bg: Option<Colour>,
    pub bold: bool,
    pub dim: bool,
    pub italic: bool,
    pub reversed: bool,
}

/// What is not singled out.
pub const DIM: u8 = 244;

/// The look of the terminal itself.
pub open spec fn plain() -> Style {
    Style { fg: None, bg: None, bold: false, dim: false, italic: false, reversed: false }
}

/// In a colour.
pub open spec fn coloured(fg: Colour) -> Style {
    Style { fg: Some(fg), ..plain() }
}

/// Bold and in a colour.
pub open spec fn strong(fg: Colour) -> Style {
    Style { bold: true, ..coloured(fg) }
}

/// Black and bold on a colour.
pub open spec fn lit(bg: Colour) -> Style {
    Style { bg: Some(bg), ..strong(Colour::Black) }
}

fn make_plain() -> (style: Style)
    ensures
        style == plain(),
{
    Style { fg: None, bg: None, bold: false, dim: false, italic: false, reversed: false }
}

fn make_coloured(fg: Colour) -> (style: Style)
    ensures
        style == coloured(fg),
{
    Style { fg: Some(fg), bg: None, bold: false, dim: false, italic: false, reversed: false }
}

fn make_strong(fg: Colour) -> (style: Style)
    ensures
        style == strong(fg),
{
    Style { fg: Some(fg), bg: None, bold: true, dim: false, italic: false, reversed: false }
}

fn make_lit(bg: Colour) -> (style: Style)
    ensures
        style == lit(bg),
{
    Style {
        fg: Some(Colour::Black),
        bg: Some(bg),
        bold: true,
        dim: false,
        italic: false,
        reversed: false,
    }
}

/// The colour by number where there are such, else the one by name.
pub open spec fn either(palette: Palette, number: u8, name: Colour) -> Colour {
    if palette.indexed {
        Colour::Indexed(number)
    } else {
        name
    }
}

/// The colour of a column of the gutter.
pub open spec fn gutter_colour(column: u8) -> Colour {
    if column == 0 {
        Colour::Cyan
    } else if column == 1 {
        Colour::Magenta
    } else if column == 2 {
        Colour::Yellow
    } else if column == 3 {
        Colour::Green
    } else if column == 4 {
        Colour::Blue
    } else {
        Colour::Red
    }
}

/// How each class looks.
pub open spec fn style_of(palette: Palette, class: Class) -> Style {
    match class {
        Class::Base => plain(),
        Class::Dim => coloured(either(palette, DIM, Colour::DarkGray)),
        Class::Annotation => Style {
            italic: true,
            ..coloured(either(palette, DIM, Colour::DarkGray))
        },
        Class::Banner => Style { bold: true, ..plain() },
        Class::BlockHeader => strong(Colour::Blue),
        Class::BytecodeLine => Style {
            dim: true,
            ..coloured(either(palette, 108, Colour::Green))
        },
        Class::FrameLine => Style { dim: true, ..coloured(either(palette, 131, Colour::Red)) },
        Class::Opcode => Style { bold: true, ..plain() },
        Class::Guard => strong(Colour::Red),
        Class::ControlOp => strong(Colour::Blue),
        Class::ConstantOp => coloured(Colour::Magenta),
        Class::PhiOp => strong(Colour::Yellow),
        Class::CallOp => strong(Colour::Cyan),
        Class::NodeDef => strong(Colour::Green),
        Class::NodeRef => coloured(Colour::Green),
        Class::BlockRef => coloured(Colour::Blue),
        Class::DefHl => lit(Colour::Green),
        Class::InputHl => lit(Colour::Blue),
        Class::ConsumerHl => lit(Colour::Yellow),
        Class::SearchHl => Style { reversed: true, ..plain() },
        Class::Gutter(column) => coloured(gutter_colour(column)),
        Class::Keyword => strong(Colour::Blue),
        Class::Text => coloured(Colour::Green),
        Class::Number => coloured(Colour::Magenta),
        Class::Comment => Style {
            italic: true,
            ..coloured(either(palette, DIM, Colour::DarkGray))
        },
    }
}

impl Palette {
    /// The colour of what is not singled out.
    pub fn dim(&self) -> (colour: Colour)
        ensures
            colour == either(*self, DIM, Colour::DarkGray),
    {
        self.pick(DIM, Colour::DarkGray)
    }

    fn pick(&self, number: u8, name: Colour) -> (colour: Colour)
        ensures
            colour == either(*self, number, name),
    {
        if self.indexed {
            Colour::Indexed(number)
        } else {
            name
        }
    }

    /// How a class looks.
    pub fn style(&self, class: Class) -> (style: Style)
        ensures
            style == style_of(*self, class),
    {
        match class {
            Class::Base => make_plain(),
            Class::Dim => make_coloured(self.dim()),
            Class::Annotation | Class::Comment => Style {
                italic: true,
                ..make_coloured(self.dim())
            },
            Class::Banner | Class::Opcode => Style { bold: true, ..make_plain() },
            Class::BlockHeader | Class::ControlOp | Class::Keyword => make_strong(Colour::Blue),
            Class::BytecodeLine => Style {
                dim: true,
                ..make_coloured(self.pick(108, Colour::Green))
            },
            Class::FrameLine => Style { dim: true, ..make_coloured(self.pick(131, Colour::Red)) },
            Class::Guard => make_strong(Colour::Red),
            Class::ConstantOp | Class::Number => make_coloured(Colour::Magenta),
            Class::PhiOp => make_strong(Colour::Yellow),
            Class::CallOp => make_strong(Colour::Cyan),
            Class::NodeDef => make_strong(Colour::Green),
            Class::NodeRef | Class::Text => make_coloured(Colour::Green),
            Class::BlockRef => make_coloured(Colour::Blue),
            Class::DefHl => make_lit(Colour::Green),
            Class::InputHl => make_lit(Colour::Blue),
            Class::ConsumerHl => make_lit(Colour::Yellow),
            Class::SearchHl => Style { reversed: true, ..make_plain() },
            Class::Gutter(column) => make_coloured(
                if column == 0 {
                    Colour::Cyan
                } else if column == 1 {
                    Colour::Magenta
                } else if column == 2 {
                    Colour::Yellow
                } else if column == 3 {
                    Colour::Green
                } else if column == 4 {
                    Colour::Blue
                } else {
                    Colour::Red
                },
            ),
        }
    }
}

/// How each tone looks.
pub open spec fn tone_of(tone: Tone) -> Style {
    match tone {
        Tone::Plain => plain(),
        Tone::Bold => Style { bold: true, ..plain() },
        Tone::Accent => coloured(Colour::Cyan),
        Tone::Dim => coloured(Colour::Indexed(DIM)),
        Tone::Gray => coloured(Colour::Gray),
        Tone::Yellow => coloured(Colour::Yellow),
        Tone::Green => coloured(Colour::Green),
        Tone::Red => coloured(Colour::Red),
        Tone::RedBold => strong(Colour::Red),
    }
}

impl Tone {
    /// How the tone looks.
    pub fn style(self) -> (style: Style)
        ensures
            style == tone_of(self),
    {
        match self {
            Tone::Plain => make_plain(),
            Tone::Bold => Style { bold: true, ..make_plain() },
            Tone::Accent => make_coloured(Colour::Cyan),
            Tone::Dim => make_coloured(Colour::Indexed(DIM)),
            Tone::Gray => make_coloured(Colour::Gray),
            Tone::Yellow => make_coloured(Colour::Yellow),
            Tone::Green => make_coloured(Colour::Green),
            Tone::Red => make_coloured(Colour::Red),
            Tone::RedBold => make_strong(Colour::Red),
        }
    }
}

/// How the mark of an aligned row looks.
pub open spec fn gutter_style_of(status: RowStatus) -> Style {
    match status {
        RowStatus::Same => coloured(Colour::Indexed(DIM)),
        RowStatus::Added => strong(Colour::Green),
        RowStatus::Deleted => strong(Colour::Red),
        RowStatus::Changed { .. } => strong(Colour::Yellow),
        RowStatus::Replaced { .. } => strong(Colour::Magenta),
        RowStatus::Moved { .. } => coloured(Colour::Cyan),
    }
}

/// How the mark of an aligned row looks.
pub fn diff_gutter_style(status: &RowStatus) -> (style: Style)
    ensures
        style == gutter_style_of(*status),
{
    match status {
        RowStatus::Same => make_coloured(Colour::Indexed(DIM)),
        RowStatus::Added => make_strong(Colour::Green),
        RowStatus::Deleted => make_strong(Colour::Red),
        RowStatus::Changed { .. } => make_strong(Colour::Yellow),
        RowStatus::Replaced { .. } => make_strong(Colour::Magenta),
        RowStatus::Moved { .. } => make_coloured(Colour::Cyan),
    }
}

} // verus!
