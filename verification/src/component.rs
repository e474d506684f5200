//! One laid-out content block: its typed text, and — once built at a width —
//! its lines, vertical position and optional highlight override.

use vstd::prelude::*;
use crate::blocks::{
    boxed_interior, boxed_spec, para_spec, rows_fit, title_spec, Boxed, Lead, Paragraph, Subtitle,
    Title,
};
use crate::errors::LayoutError;
use crate::style::{FeedItemColor, Line, Style};
use crate::wrap::{split_on, wrap_spec};

verus! {

/// A typed content block, carrying only its semantic text.
#[derive(Debug)]
pub enum ComponentKind {
    Title(String),
    Subtitle(String),
    Lead(String),
    Paragraph(String),
    Boxed(Vec<String>),
}

/// The sequences of `ps` joined with single occurrences of `sep`.
pub open spec fn join_with(ps: Seq<Seq<char>>, sep: char) -> Seq<char>
    decreases ps.len(),
{
    if ps.len() == 0 {
        Seq::<char>::empty()
    } else if ps.len() == 1 {
        ps[0]
    } else {
        join_with(ps.drop_last(), sep) + seq![sep] + ps.last()
    }
}

/// The text a boxed block is laid out from: its paragraphs joined by
/// newlines.
pub open spec fn boxed_text(paragraphs: Seq<Seq<char>>) -> Seq<char> {
    join_with(paragraphs, '\n')
}

/// Whether a block can be built at `width`: mirrors exactly the error
/// conditions of the block builders.
#[verifier::opaque]
pub open spec fn kind_build_ok(kind: ComponentKind, width: int) -> bool {
    match kind {
        ComponentKind::Paragraph(t) => t@.len() + 5 <= usize::MAX,
        ComponentKind::Lead(t) => t@.len() + 5 <= usize::MAX,
        ComponentKind::Subtitle(t) => t@.len() + 5 <= usize::MAX,
        ComponentKind::Title(t) => t@.len() < usize::MAX && (forall|i: int|
            0 <= i < wrap_spec(t@, width).len() ==> (#[trigger] wrap_spec(t@, width)[i]).len()
                <= width),
        ComponentKind::Boxed(v) => {
            let text = boxed_text(v.deep_view());
            &&& width >= 6
            &&& text.len() < usize::MAX
            &&& forall|j: int|
                0 <= j < split_on(text, '\n').len() ==> rows_fit(
                    #[trigger] split_on(text, '\n')[j],
                    width,
                )
        },
    }
}

/// The lines a block builds into at `width`, when it can be built.
#[verifier::opaque]
pub open spec fn kind_build_lines(kind: ComponentKind, width: int) -> Seq<Seq<char>> {
    match kind {
        ComponentKind::Paragraph(t) => para_spec(t@, width),
        ComponentKind::Lead(t) => para_spec(t@, width),
        ComponentKind::Subtitle(t) => seq![Seq::<char>::empty()] + para_spec(t@, width),
        ComponentKind::Title(t) => title_spec(t@, width),
        ComponentKind::Boxed(v) => boxed_spec(boxed_text(v.deep_view()), width),
    }
}

/// The style a block's lines carry when no override is stored: titles get the
/// banner, leads and subtitles are bold, the rest is plain.
pub open spec fn kind_base_style(kind: ComponentKind) -> Style {
    match kind {
        ComponentKind::Title(t) => Style::Banner,
        ComponentKind::Subtitle(t) => Style::Bold,
        ComponentKind::Lead(t) => Style::Bold,
        ComponentKind::Paragraph(t) => Style::Plain,
        ComponentKind::Boxed(v) => Style::Plain,
    }
}

/// The build state of a component once it has been laid out.
#[derive(Debug)]
pub struct ComponentContent {
    pub lines: Vec<String>,
    pub posy: usize,
    pub style: Option<Style>,
}

/// A component is created unbuilt; building it at a width fills its content.
#[derive(Debug)]
pub enum ComponentState {
    ToBuild,
    Built(ComponentContent),
}

/// One content block together with its build state.
#[derive(Debug)]
pub struct Component {
    pub comp_type: ComponentKind,
    pub content: ComponentState,
}

/// Joins the paragraphs of a boxed block with newlines.
fn join_newlines(v: &Vec<String>) -> (r: String)
    ensures
        r@ == boxed_text(v.deep_view()),
{
    let mut r = String::new();
    let n = v.len();
    let mut i: usize = 0;
    while i < n
        invariant
            i <= n,
            n == v@.len(),
            r@ == join_with(v.deep_view().take(i as int), '\n'),
        decreases n - i,
    {
        if i > 0 {
            crate::wrap::push_char(&mut r, '\n');
        }
        r.append(v[i].as_str());
        proof {
            let ps = v.deep_view();
            assert(ps.take(i + 1).drop_last() =~= ps.take(i as int));
            assert(ps.take(i + 1).last() == ps[i as int]);
            if i == 0 {
                assert(r@ =~= join_with(ps.take(1int), '\n'));
            } else {
                assert(r@ =~= join_with(ps.take(i as int), '\n') + seq!['\n'] + ps[i as int]);
            }
        }
        i = i + 1;
    }
    proof {
        assert(v.deep_view().take(n as int) =~= v.deep_view());
    }
    r
}

impl Component {
    /// True when the component has been built.
    pub open spec fn is_built_spec(&self) -> bool {
        self.content is Built
    }

    /// The built lines (meaningful only when built).
    pub open spec fn spec_lines(&self) -> Seq<Seq<char>> {
        match self.content {
            ComponentState::Built(c) => c.lines.deep_view(),
            ComponentState::ToBuild => Seq::<Seq<char>>::empty(),
        }
    }

    /// The built vertical position (meaningful only when built).
    pub open spec fn spec_posy(&self) -> int {
        match self.content {
            ComponentState::Built(c) => c.posy as int,
            ComponentState::ToBuild => 0,
        }
    }

    /// The stored style override (meaningful only when built).
    pub open spec fn spec_style(&self) -> Option<Style> {
        match self.content {
            ComponentState::Built(c) => c.style,
            ComponentState::ToBuild => None,
        }
    }

    /// The number of lines the component occupies.
    pub open spec fn spec_height(&self) -> int {
        self.spec_lines().len() as int
    }

    /// The style its lines are drawn with when no per-call override is given.
    pub open spec fn effective_style(&self) -> Style {
        match self.spec_style() {
            Some(s) => s,
            None => kind_base_style(self.comp_type),
        }
    }

    /// A fresh, unbuilt component for a block.
    pub fn new(comp_type: ComponentKind) -> (r: Component)
        ensures
            r.comp_type == comp_type,
            !r.is_built_spec(),
    {
        Component { comp_type, content: ComponentState::ToBuild }
    }

    /// Lays the block out at `width`, to sit at row `posy`. Succeeds exactly
    /// when the block fits (see [`kind_build_ok`]); any stored style override
    /// is discarded. On failure the component is left as it was.
    pub fn build(&mut self, width: usize, posy: usize) -> (r: Result<(), LayoutError>)
        ensures
            r is Ok <==> kind_build_ok(old(self).comp_type, width as int),
            final(self).comp_type == old(self).comp_type,
            r is Ok ==> {
                &&& final(self).is_built_spec()
                &&& final(self).spec_lines() == kind_build_lines(
                    old(self).comp_type,
                    width as int,
                )
                &&& final(self).spec_posy() == posy as int
                &&& final(self).spec_style() is None
            },
            r is Err ==> *final(self) == *old(self),
    {
        proof {
            reveal(kind_build_ok);
            reveal(kind_build_lines);
        }
        let lines = match &self.comp_type {
            ComponentKind::Title(text) => Title::build(text.as_str(), width),
            ComponentKind::Subtitle(text) => Subtitle::build(text.as_str(), width),
            ComponentKind::Lead(text) => Lead::build(text.as_str(), width),
            ComponentKind::Paragraph(text) => Paragraph::build(text.as_str(), width),
            ComponentKind::Boxed(texts) => {
                let joined = join_newlines(texts);
                Boxed::build(joined.as_str(), width)
            },
        };
        match lines {
            Ok(lines) => {
                self.content = ComponentState::Built(
                    ComponentContent { lines, posy, style: None },
                );
                Ok(())
            },
            Err(e) => Err(e),
        }
    }

    /// True when the component has been built.
    pub fn is_built(&self) -> (r: bool)
        ensures
            r == self.is_built_spec(),
    {
        match &self.content {
            ComponentState::ToBuild => false,
            ComponentState::Built(_) => true,
        }
    }

    /// The row of the component's first line. Asking an unbuilt component is
    /// a programming error, excluded by contract.
    pub fn get_posy(&self) -> (r: usize)
        requires
            self.is_built_spec(),
        ensures
            r as int == self.spec_posy(),
    {
        match &self.content {
            ComponentState::ToBuild => vstd::pervasive::unreached(),
            ComponentState::Built(content) => content.posy,
        }
    }

    /// Moves the component to a new row (it must be built).
    pub fn set_posy(&mut self, new_posy: usize)
        requires
            old(self).is_built_spec(),
        ensures
            final(self).comp_type == old(self).comp_type,
            final(self).is_built_spec(),
            final(self).spec_lines() == old(self).spec_lines(),
            final(self).spec_style() == old(self).spec_style(),
            final(self).spec_posy() == new_posy as int,
    {
        match &mut self.content {
            ComponentState::ToBuild => {},
            ComponentState::Built(content) => {
                content.posy = new_posy;
            },
        }
    }

    /// The number of lines (it must be built).
    pub fn height(&self) -> (r: usize)
        requires
            self.is_built_spec(),
        ensures
            r as int == self.spec_height(),
    {
        match &self.content {
            ComponentState::ToBuild => 0,
            ComponentState::Built(content) => content.lines.len(),
        }
    }

    /// The stored style override (it must be built).
    pub fn get_style(&self) -> (r: Option<Style>)
        requires
            self.is_built_spec(),
        ensures
            r == self.spec_style(),
    {
        match &self.content {
            ComponentState::ToBuild => None,
            ComponentState::Built(content) => content.style,
        }
    }

    /// Stores a style override (it must be built).
    pub fn set_style(&mut self, new_style: Style)
        requires
            old(self).is_built_spec(),
        ensures
            final(self).comp_type == old(self).comp_type,
            final(self).is_built_spec(),
            final(self).spec_lines() == old(self).spec_lines(),
            final(self).spec_posy() == old(self).spec_posy(),
            final(self).spec_style() == Some(new_style),
    {
        match &mut self.content {
            ComponentState::ToBuild => {},
            ComponentState::Built(content) => {
                content.style = Some(new_style);
            },
        }
    }

    /// The component's drawable lines, every one styled with `style` when
    /// given, else with the stored override, else with the block's base
    /// style (it must be built).
    pub fn content(&self, style: Option<Style>) -> (r: Vec<Line>)
        requires
            self.is_built_spec(),
        ensures
            crate::style::line_texts(r@) == self.spec_lines(),
            forall|i: int|
                0 <= i < r@.len() ==> (#[trigger] r@[i]).style == (match style {
                    Some(s) => s,
                    None => self.effective_style(),
                }),
    {
        let effective = match style {
            Some(s) => s,
            None => {
                match self.get_style() {
                    Some(s) => s,
                    None => {
                        match &self.comp_type {
                            ComponentKind::Title(_) => Style::Banner,
                            ComponentKind::Subtitle(_) => Style::Bold,
                            ComponentKind::Lead(_) => Style::Bold,
                            ComponentKind::Paragraph(_) => Style::Plain,
                            ComponentKind::Boxed(_) => Style::Plain,
                        }
                    },
                }
            },
        };
        let lines = match &self.content {
            ComponentState::ToBuild => vstd::pervasive::unreached(),
            ComponentState::Built(content) => &content.lines,
        };
        let n = lines.len();
        let mut r: Vec<Line> = Vec::new();
        let mut i: usize = 0;
        while i < n
            invariant
                i <= n,
                n == lines@.len(),
                r@.len() == i,
                forall|j: int|
                    0 <= j < i ==> (#[trigger] r@[j]).text@ == lines@[j]@ && r@[j].style
                        == effective,
            decreases n - i,
        {
            r.push(Line { text: lines[i].clone(), style: effective });
            i = i + 1;
        }
        proof {
            assert(crate::style::line_texts(r@) =~= lines.deep_view());
        }
        r
    }
}

impl FeedItemColor {
    /// Applies the highlight transition to a built component; returns whether
    /// anything changed (and so needs a redraw).
    pub fn set_style(comp: &mut Component, color: FeedItemColor) -> (r: Option<()>)
        requires
            old(comp).is_built_spec(),
        ensures
            final(comp).comp_type == old(comp).comp_type,
            final(comp).is_built_spec(),
            final(comp).spec_lines() == old(comp).spec_lines(),
            final(comp).spec_posy() == old(comp).spec_posy(),
            match color.to_style_spec(old(comp).spec_style()) {
                Some(s) => r is Some && final(comp).spec_style() == Some(s),
                None => r is None && final(comp).spec_style() == old(comp).spec_style(),
            },
    {
        let prev_style = comp.get_style();
        if let Some(new_style) = color.to_style(prev_style) {
            comp.set_style(new_style);
            return Some(());
        }
        None
    }

    /// The component's lines as the transition would color them, without
    /// storing anything.
    pub fn get_styled(comp: &Component, color: FeedItemColor) -> (r: Vec<Line>)
        requires
            comp.is_built_spec(),
        ensures
            crate::style::line_texts(r@) == comp.spec_lines(),
            forall|i: int|
                0 <= i < r@.len() ==> (#[trigger] r@[i]).style == (match color.to_style_spec(
                    comp.spec_style(),
                ) {
                    Some(s) => s,
                    None => comp.effective_style(),
                }),
    {
        let prev_style = comp.get_style();
        let new_style = color.to_style(prev_style);
        comp.content(new_style)
    }
}

} // verus!
