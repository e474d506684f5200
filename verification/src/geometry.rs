//! Screen geometry: the column width and horizontal offset a view renders
//! at, derived from the terminal size and the kind of view shown.

use vstd::prelude::*;
use crate::input::ViewKind;

verus! {

/// The column budget of the feed view.
pub const FEED_VIEW_WIDTH: u16 = 50;

/// The column budget of the article and error views.
pub const ARTICLE_VIEW_WIDTH: u16 = 70;

/// The derived layout: where content starts and how wide it is.
#[derive(Debug, Clone, Copy)]
pub struct Geometry {
    pub term_height: u16,
    pub term_width: u16,
    pub startx: u16,
    pub width: u16,
    pub max_width: u16,
}

/// The width cap of a view kind.
pub open spec fn view_max_width(view: ViewKind) -> u16 {
    match view {
        ViewKind::Feed => FEED_VIEW_WIDTH,
        ViewKind::Article => ARTICLE_VIEW_WIDTH,
        ViewKind::Error => ARTICLE_VIEW_WIDTH,
    }
}

impl Geometry {
    /// The content column fits the terminal and is centered in it.
    pub open spec fn wf(&self) -> bool {
        &&& self.width <= self.term_width
        &&& self.startx == (self.term_width - self.width) as int / 2
    }

    /// Geometry for a fresh feed view on a terminal of the given
    /// `(width, height)`.
    pub fn new(term_dimens: (u16, u16)) -> (r: Geometry)
        ensures
            r.term_width == term_dimens.0,
            r.term_height == term_dimens.1,
            r.max_width == FEED_VIEW_WIDTH,
            r.width == if FEED_VIEW_WIDTH <= term_dimens.0 {
                FEED_VIEW_WIDTH
            } else {
                term_dimens.0
            },
            r.wf(),
    {
        let (term_width, term_height) = term_dimens;
        let width = if FEED_VIEW_WIDTH <= term_width {
            FEED_VIEW_WIDTH
        } else {
            term_width
        };
        let startx = (term_width - width) / 2;
        Geometry { term_height, term_width, startx, width, max_width: FEED_VIEW_WIDTH }
    }

    /// Re-derives the layout for another kind of view on the same terminal.
    pub fn change_view(&mut self, view: ViewKind)
        ensures
            final(self).term_width == old(self).term_width,
            final(self).term_height == old(self).term_height,
            final(self).max_width == view_max_width(view),
            final(self).width == if view_max_width(view) <= old(self).term_width {
                view_max_width(view)
            } else {
                old(self).term_width
            },
            final(self).wf(),
    {
        self.max_width = match view {
            ViewKind::Feed => FEED_VIEW_WIDTH,
            ViewKind::Article => ARTICLE_VIEW_WIDTH,
            ViewKind::Error => ARTICLE_VIEW_WIDTH,
        };
        self.width = if self.max_width <= self.term_width {
            self.max_width
        } else {
            self.term_width
        };
        self.startx = (self.term_width - self.width) / 2;
    }

    /// Re-derives the layout after the terminal was resized to
    /// `(width, height)`: the content column grows back toward its view's
    /// cap, bounded by the new terminal width.
    pub fn resize(&mut self, term_dimens: (u16, u16))
        ensures
            final(self).term_width == term_dimens.0,
            final(self).term_height == term_dimens.1,
            final(self).max_width == old(self).max_width,
            final(self).width == {
                let grown = if old(self).width >= old(self).max_width {
                    old(self).width
                } else {
                    old(self).max_width
                };
                if grown <= term_dimens.0 {
                    grown
                } else {
                    term_dimens.0
                }
            },
            final(self).wf(),
    {
        let (term_width, term_height) = term_dimens;
        self.term_width = term_width;
        self.term_height = term_height;
        let grown = if self.width >= self.max_width {
            self.width
        } else {
            self.max_width
        };
        self.width = if grown <= self.term_width {
            grown
        } else {
            self.term_width
        };
        self.startx = (self.term_width - self.width) / 2;
    }
}

} // verus!
