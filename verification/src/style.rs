//! Presentation state: the closed set of styles a drawn line can carry, and
//! the highlight state machine of a feed entry.

use vstd::prelude::*;

verus! {

/// How a line is drawn. The engine only distinguishes these cases; mapping
/// them onto real terminal attributes is the caller's concern.
#[derive(Debug, PartialEq, Eq, Structural, Clone, Copy)]
pub enum Style {
    /// No attributes.
    Plain,
    /// Bold text (lead and subtitle blocks).
    Bold,
    /// The title banner: bold on a shaded background.
    Banner,
    /// Dimmed (an entry already read).
    Dim,
    /// Blue foreground (a newly fetched entry).
    Blue,
    /// Red foreground (the selected entry).
    Red,
}

/// One drawable line: its text and the style it is drawn with.
#[derive(Debug)]
pub struct Line {
    pub text: String,
    pub style: Style,
}

impl Line {
    /// A copy of this line.
    pub fn duplicate(&self) -> (r: Line)
        ensures
            r.text@ == self.text@,
            r.style == self.style,
    {
        Line { text: self.text.clone(), style: self.style }
    }
}

/// The texts of a sequence of lines.
pub open spec fn line_texts(s: Seq<Line>) -> Seq<Seq<char>> {
    s.map_values(|l: Line| l.text@)
}

/// The styles of a sequence of lines.
pub open spec fn line_styles(s: Seq<Line>) -> Seq<Style> {
    s.map_values(|l: Line| l.style)
}

/// A highlight transition requested for one feed entry.
#[derive(Debug, PartialEq, Eq, Structural, Clone, Copy)]
pub enum FeedItemColor {
    /// The entry was opened and read.
    Read,
    /// The entry was just fetched.
    New,
    /// The entry is no longer new.
    NotNew,
    /// The entry is the current selection.
    Selected,
    /// The entry is no longer the selection.
    NotSelected,
}

impl FeedItemColor {
    /// The style override a transition leaves on an entry whose stored
    /// override is `prev`. `NotNew` and `NotSelected` reset the style only
    /// when the stored override is the one they remove, so that a `Read`
    /// entry is not reset to plain by a later deselection.
    pub open spec fn to_style_spec(self, prev: Option<Style>) -> Option<Style> {
        match self {
            FeedItemColor::Read => Some(Style::Dim),
            FeedItemColor::New => Some(Style::Blue),
            FeedItemColor::NotNew => if prev == Some(Style::Blue) {
                Some(Style::Plain)
            } else {
                None
            },
            FeedItemColor::Selected => Some(Style::Red),
            FeedItemColor::NotSelected => if prev == Some(Style::Red) {
                Some(Style::Plain)
            } else {
                None
            },
        }
    }

    /// The style this transition gives an entry, or `None` when nothing is to
    /// be changed or redrawn.
    pub fn to_style(&self, prev_style: Option<Style>) -> (r: Option<Style>)
        ensures
            r == self.to_style_spec(prev_style),
    {
        match self {
            FeedItemColor::Read => Some(Style::Dim),
            FeedItemColor::New => Some(Style::Blue),
            FeedItemColor::NotNew => match prev_style {
                Some(Style::Blue) => Some(Style::Plain),
                _ => None,
            },
            FeedItemColor::Selected => Some(Style::Red),
            FeedItemColor::NotSelected => match prev_style {
                Some(Style::Red) => Some(Style::Plain),
                _ => None,
            },
        }
    }
}

} // verus!
