use vstd::prelude::*;
use crate::geom::Mm;

verus! {

/// An RGB color.
#[derive(Clone, Copy, Debug, PartialEq, Eq, Structural)]
pub enum Color {
    /// Red, green and blue channels, each from 0 to 255.
    Rgb(u8, u8, u8),
}

impl Color {
    /// Black.
    pub fn black() -> (r: Color)
        ensures
            r == Color::Rgb(0u8, 0u8, 0u8),
    {
        Color::Rgb(0, 0, 0)
    }
}

/// The horizontal alignment of a paragraph.
#[derive(Clone, Copy, Debug, PartialEq, Eq, Structural)]
pub enum Alignment {
    /// Lines start at the left edge of the available width.
    Left,
    /// Lines are centered within the available width.
    Center,
    /// Lines end at the right edge of the available width.
    Right,
    /// Extra inter-word spacing stretches every line but the last one to the
    /// full available width.  The flag tells whether the leading whitespace
    /// of the first word and the trailing whitespace of the last word on a
    /// line are excluded from the width used in that computation.
    Justified(bool),
}

/// A cascading set of optional text attributes.
///
/// A field that is `None` is unset: it inherits the parent's value when
/// styles are merged.  A field that is `Some` is set: it wins over the
/// parent's value.  This is the entire inheritance mechanism.
#[derive(Clone, Copy, Debug, PartialEq, Eq, Structural)]
pub struct Style {
    /// Identifier of the font family, if set.
    pub font_family: Option<u32>,
    /// Font size in points, if set.
    pub font_size: Option<u8>,
    /// Text color, if set.
    pub color: Option<Color>,
    /// Bold flag, if set.
    pub bold: Option<bool>,
    /// Italic flag, if set.
    pub italic: Option<bool>,
    /// Strikethrough flag, if set.
    pub strikethrough: Option<bool>,
}

/// The font size that applies when no style sets one, in points.
pub const DEFAULT_FONT_SIZE: u8 = 12;

/// The merge of a parent and a child style: every field the child sets wins,
/// every field the child leaves unset inherits the parent's value.
pub open spec fn spec_merge(parent: Style, child: Style) -> Style {
    Style {
        font_family: if child.font_family is Some {
            child.font_family
        } else {
            parent.font_family
        },
        font_size: if child.font_size is Some {
            child.font_size
        } else {
            parent.font_size
        },
        color: if child.color is Some {
            child.color
        } else {
            parent.color
        },
        bold: if child.bold is Some {
            child.bold
        } else {
            parent.bold
        },
        italic: if child.italic is Some {
            child.italic
        } else {
            parent.italic
        },
        strikethrough: if child.strikethrough is Some {
            child.strikethrough
        } else {
            parent.strikethrough
        },
    }
}

impl Style {
    /// A style with every field unset.
    pub fn new() -> (r: Style)
        ensures
            r.font_family is None,
            r.font_size is None,
            r.color is None,
            r.bold is None,
            r.italic is None,
            r.strikethrough is None,
    {
        Style {
            font_family: None,
            font_size: None,
            color: None,
            bold: None,
            italic: None,
            strikethrough: None,
        }
    }

    /// Merges the given child style into this one: every field the child
    /// sets overrides this style's value, every field it leaves unset keeps
    /// this style's value.
    pub fn merge(&mut self, child: Style)
        ensures
            *final(self) == spec_merge(*old(self), child),
    {
        if child.font_family.is_some() {
            self.font_family = child.font_family;
        }
        if child.font_size.is_some() {
            self.font_size = child.font_size;
        }
        if child.color.is_some() {
            self.color = child.color;
        }
        if child.bold.is_some() {
            self.bold = child.bold;
        }
        if child.italic.is_some() {
            self.italic = child.italic;
        }
        if child.strikethrough.is_some() {
            self.strikethrough = child.strikethrough;
        }
    }

    /// Returns the merge of this style (as the parent) with the given child
    /// style.
    pub fn and(self, child: Style) -> (r: Style)
        ensures
            r == spec_merge(self, child),
    {
        let mut merged = self;
        merged.merge(child);
        merged
    }

    /// The effective font size in points: the set value, or the default.
    pub fn font_size(&self) -> (r: u8)
        ensures
            r == self.effective_font_size(),
    {
        match self.font_size {
            Some(s) => s,
            None => DEFAULT_FONT_SIZE,
        }
    }

    /// The effective font size in points: the set value, or the default.
    pub open spec fn effective_font_size(self) -> u8 {
        match self.font_size {
            Some(s) => s,
            None => DEFAULT_FONT_SIZE,
        }
    }

    /// The effective color: the set value, or black.
    pub fn color(&self) -> (r: Color)
        ensures
            r == self.effective_color(),
    {
        match self.color {
            Some(c) => c,
            None => Color::Rgb(0, 0, 0),
        }
    }

    /// The effective color: the set value, or black.
    pub open spec fn effective_color(self) -> Color {
        match self.color {
            Some(c) => c,
            None => Color::Rgb(0u8, 0u8, 0u8),
        }
    }

    /// Sets the bold flag.
    pub fn set_bold(&mut self)
        ensures
            *final(self) == (Style { bold: Some(true), ..*old(self) }),
    {
        self.bold = Some(true);
    }

    /// Sets the italic flag.
    pub fn set_italic(&mut self)
        ensures
            *final(self) == (Style { italic: Some(true), ..*old(self) }),
    {
        self.italic = Some(true);
    }

    /// Sets the strikethrough flag.
    pub fn set_strikethrough(&mut self)
        ensures
            *final(self) == (Style { strikethrough: Some(true), ..*old(self) }),
    {
        self.strikethrough = Some(true);
    }

    /// Returns this style with the given color set.
    pub fn with_color(self, color: Color) -> (r: Style)
        ensures
            r == (Style { color: Some(color), ..self }),
    {
        Style { color: Some(color), ..self }
    }

    /// Returns this style with the given font family set.
    pub fn with_font_family(self, font_family: u32) -> (r: Style)
        ensures
            r == (Style { font_family: Some(font_family), ..self }),
    {
        Style { font_family: Some(font_family), ..self }
    }

    /// Returns this style with the given font size, in points, set.
    pub fn with_font_size(self, font_size: u8) -> (r: Style)
        ensures
            r == (Style { font_size: Some(font_size), ..self }),
    {
        Style { font_size: Some(font_size), ..self }
    }

    /// True when the strikethrough flag is set to true.
    pub fn is_strikethrough(&self) -> (r: bool)
        ensures
            r == (self.strikethrough == Some(true)),
    {
        self.strikethrough == Some(true)
    }

    /// True when the bold flag is set to true.
    pub fn is_bold(&self) -> (r: bool)
        ensures
            r == (self.bold == Some(true)),
    {
        self.bold == Some(true)
    }

    /// True when the italic flag is set to true.
    pub fn is_italic(&self) -> (r: bool)
        ensures
            r == (self.italic == Some(true)),
    {
        self.italic == Some(true)
    }
}

/// The inheritance law of style merging: the merge of a parent and a child
/// equals the child's value on every field the child sets and the parent's
/// value on every field the child leaves unset.
pub proof fn lemma_merge_inheritance(parent: Style, child: Style)
    ensures
        child.font_family is Some ==> spec_merge(parent, child).font_family == child.font_family,
        child.font_family is None ==> spec_merge(parent, child).font_family == parent.font_family,
        child.font_size is Some ==> spec_merge(parent, child).font_size == child.font_size,
        child.font_size is None ==> spec_merge(parent, child).font_size == parent.font_size,
        child.color is Some ==> spec_merge(parent, child).color == child.color,
        child.color is None ==> spec_merge(parent, child).color == parent.color,
        child.bold is Some ==> spec_merge(parent, child).bold == child.bold,
        child.bold is None ==> spec_merge(parent, child).bold == parent.bold,
        child.italic is Some ==> spec_merge(parent, child).italic == child.italic,
        child.italic is None ==> spec_merge(parent, child).italic == parent.italic,
        child.strikethrough is Some ==> spec_merge(parent, child).strikethrough
            == child.strikethrough,
        child.strikethrough is None ==> spec_merge(parent, child).strikethrough
            == parent.strikethrough,
{
}

/// A text run: an owned string paired with the style it is drawn in.
#[derive(Clone, Debug)]
pub struct StyledString {
    /// The text of the run.
    pub s: String,
    /// The style of the run.
    pub style: Style,
}

impl StyledString {
    /// Builds a styled string from a string and a style.
    pub fn new(s: String, style: Style) -> (r: StyledString)
        ensures
            r.s == s,
            r.style == style,
    {
        StyledString { s, style }
    }
}

/// The style of a stroked or filled line.
#[derive(Clone, Copy, Debug)]
pub struct LineStyle {
    /// Line thickness; never negative.
    pub thickness: Mm,
    /// Line color.
    pub color: Color,
    /// True when the enclosed shape is filled rather than stroked.
    pub filled: bool,
}

impl LineStyle {
    /// A well-formed line style never has a negative thickness.
    pub open spec fn wf(self) -> bool {
        self.thickness.0 >= 0
    }

    /// The default line style: a thin black stroked line.
    pub fn new() -> (r: LineStyle)
        ensures
            r.wf(),
            r.thickness.0 == 100,
            r.color == Color::Rgb(0u8, 0u8, 0u8),
            !r.filled,
    {
        LineStyle { thickness: Mm(100), color: Color::Rgb(0, 0, 0), filled: false }
    }

    /// Returns this style with the given non-negative thickness.
    pub fn with_thickness(self, thickness: Mm) -> (r: LineStyle)
        requires
            thickness.0 >= 0,
        ensures
            r == (LineStyle { thickness, ..self }),
            r.wf(),
    {
        LineStyle { thickness, ..self }
    }

    /// Returns this style with the given color.
    pub fn with_color(self, color: Color) -> (r: LineStyle)
        ensures
            r == (LineStyle { color, ..self }),
            self.wf() ==> r.wf(),
    {
        LineStyle { color, ..self }
    }

    /// Returns this style with the given filled flag.
    pub fn with_filled(self, filled: bool) -> (r: LineStyle)
        ensures
            r == (LineStyle { filled, ..self }),
            self.wf() ==> r.wf(),
    {
        LineStyle { filled, ..self }
    }

    /// The thickness of the line.
    pub fn thickness(&self) -> (r: Mm)
        ensures
            r == self.thickness,
    {
        self.thickness
    }
}

} // verus!
