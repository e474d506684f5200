//! The view controllers: the article pane, the feed with its selection
//! cursor, and the error window.

use vstd::prelude::*;
use crate::blocks::{boxed_spec, rows_fit};
use crate::component::{boxed_text, kind_build_lines, kind_build_ok, Component, ComponentKind};
use crate::doc::{count_ended, total_kind_height};
use crate::geometry::{view_max_width, ARTICLE_VIEW_WIDTH};
use crate::textpad::{fv_index, lv_index, scroll_ops_spec, scroll_down_amount, first_in_range};
use crate::wrap::split_on;
use crate::errors::LayoutError;
use crate::feed::{take_while_newer, Feed, FeedItem};
use crate::geometry::Geometry;
use crate::input::{Direction, InputBuffer, ViewKind};
use crate::style::{FeedItemColor, Line, Style};
use crate::textpad::{SurfaceOp, TextPad};

verus! {

/// Scrolls an article pad line by line and jumps back to the top.
#[derive(Debug)]
pub struct ArticleControler {
    pub textpad: TextPad,
    pub geo: Geometry,
    pub input: InputBuffer,
}

/// A feed component shows exactly its entry: a box of the entry's title and
/// publish time.
pub open spec fn entry_kind_matches(c: ComponentKind, it: FeedItem) -> bool {
    c matches ComponentKind::Boxed(v) && v.deep_view() == seq![it.title@, it.published_text@]
}

/// Every entry's component shows that entry.
#[verifier::opaque]
pub open spec fn pad_matches_feed(comps: Seq<Component>, entries: Seq<FeedItem>) -> bool {
    forall|i: int|
        0 <= i < entries.len() ==> entry_kind_matches((#[trigger] comps[i]).comp_type, entries[i])
}

/// Whether an entry's box fits at `width` (the box builder's exact success
/// condition, over the entry's fields).
#[verifier::opaque]
pub open spec fn entry_box_ok(it: FeedItem, width: int) -> bool {
    let text = boxed_text(seq![it.title@, it.published_text@]);
    &&& width >= 6
    &&& text.len() < usize::MAX
    &&& forall|j: int|
        0 <= j < split_on(text, '\n').len() ==> rows_fit(#[trigger] split_on(text, '\n')[j], width)
}

/// The number of rows an entry's box occupies at `width`.
#[verifier::opaque]
pub open spec fn entry_box_height(it: FeedItem, width: int) -> int {
    boxed_spec(boxed_text(seq![it.title@, it.published_text@]), width).len() as int
}

/// The rows all the entries' boxes occupy together at `width`.
pub open spec fn entries_box_height(items: Seq<FeedItem>, width: int) -> int
    decreases items.len(),
{
    if items.len() == 0 {
        0
    } else {
        entries_box_height(items.drop_last(), width) + entry_box_height(items.last(), width)
    }
}

/// A matching box kind builds exactly when the entry's box fits, to exactly
/// the box's rows.
proof fn lemma_entry_kind(c: ComponentKind, it: FeedItem, width: int)
    requires
        entry_kind_matches(c, it),
    ensures
        kind_build_ok(c, width) == entry_box_ok(it, width),
        kind_build_lines(c, width).len() == entry_box_height(it, width),
{
    reveal(kind_build_ok);
    reveal(kind_build_lines);
    reveal(entry_box_ok);
    reveal(entry_box_height);
}

/// Matching kinds stack to the entries' box heights.
proof fn lemma_entry_heights(kinds: Seq<ComponentKind>, items: Seq<FeedItem>, width: int)
    requires
        kinds.len() == items.len(),
        forall|i: int| 0 <= i < kinds.len() ==> entry_kind_matches(#[trigger] kinds[i], items[i]),
    ensures
        total_kind_height(kinds, width) == entries_box_height(items, width),
    decreases kinds.len(),
{
    if kinds.len() > 0 {
        assert(forall|i: int|
            0 <= i < kinds.drop_last().len() ==> #[trigger] kinds.drop_last()[i] == kinds[i]);
        assert(forall|i: int|
            0 <= i < items.drop_last().len() ==> #[trigger] items.drop_last()[i] == items[i]);
        lemma_entry_heights(kinds.drop_last(), items.drop_last(), width);
        assert(kinds.last() == kinds[kinds.len() - 1]);
        assert(items.last() == items[items.len() - 1]);
        lemma_entry_kind(kinds.last(), items.last(), width);
    }
}

/// A buffer whose components only changed style keeps its shape: positions,
/// lines, kinds and builtness carry over, and so do contiguity and the
/// lines-match-kind property.
proof fn lemma_same_shape(pre: Seq<Component>, cur: Seq<Component>, width: int)
    requires
        pre.len() == cur.len(),
        forall|t: int|
            0 <= t < cur.len() ==> (#[trigger] cur[t]).spec_posy() == pre[t].spec_posy() && cur[
                t
            ].spec_lines() == pre[t].spec_lines() && cur[t].comp_type == pre[t].comp_type && cur[
                t
            ].is_built_spec() == pre[t].is_built_spec(),
        crate::doc::contig_seq(pre),
        forall|t: int| 0 <= t < pre.len() ==> (#[trigger] pre[t]).is_built_spec(),
        forall|t: int|
            0 <= t < pre.len() ==> (#[trigger] pre[t]).spec_lines() == kind_build_lines(
                pre[t].comp_type,
                width,
            ),
    ensures
        crate::doc::contig_seq(cur),
        forall|t: int| 0 <= t < cur.len() ==> (#[trigger] cur[t]).is_built_spec(),
        forall|t: int|
            0 <= t < cur.len() ==> (#[trigger] cur[t]).spec_lines() == kind_build_lines(
                cur[t].comp_type,
                width,
            ),
{
    assert forall|t: int| 0 < t < cur.len() implies (#[trigger] cur[t]).spec_posy() == cur[t
        - 1].spec_posy() + cur[t - 1].spec_height() by {
        assert(pre[t].spec_posy() == pre[t - 1].spec_posy() + pre[t - 1].spec_height());
    }
}

/// The condition for absorbing new entries: every box fits the width, and
/// their stacked rows atop the `base` rows fit the machine.
#[verifier::opaque]
pub open spec fn boxes_fit(entries: Seq<FeedItem>, width: int, base: int) -> bool {
    &&& forall|i: int| 0 <= i < entries.len() ==> entry_box_ok(#[trigger] entries[i], width)
    &&& entries_box_height(entries, width) + base <= usize::MAX
}

/// Matching kinds build exactly when their entries' boxes fit, and stack to
/// the same height.
proof fn lemma_boxes_iff(kinds: Seq<ComponentKind>, entries: Seq<FeedItem>, width: int)
    requires
        kinds.len() == entries.len(),
        forall|i: int| 0 <= i < kinds.len() ==> entry_kind_matches(#[trigger] kinds[i], entries[i]),
    ensures
        (forall|i: int| 0 <= i < kinds.len() ==> kind_build_ok(#[trigger] kinds[i], width))
            <==> (forall|i: int|
            0 <= i < entries.len() ==> entry_box_ok(#[trigger] entries[i], width)),
        total_kind_height(kinds, width) == entries_box_height(entries, width),
{
    assert forall|i: int| 0 <= i < kinds.len() implies (kind_build_ok(#[trigger] kinds[i], width)
        == entry_box_ok(entries[i], width)) by {
        lemma_entry_kind(kinds[i], entries[i], width);
    }
    if forall|i: int| 0 <= i < kinds.len() ==> kind_build_ok(#[trigger] kinds[i], width) {
        assert forall|i: int| 0 <= i < entries.len() implies entry_box_ok(
            #[trigger] entries[i],
            width,
        ) by {
            assert(kind_build_ok(kinds[i], width));
        }
    }
    if forall|i: int| 0 <= i < entries.len() ==> entry_box_ok(#[trigger] entries[i], width) {
        assert forall|i: int| 0 <= i < kinds.len() implies kind_build_ok(
            #[trigger] kinds[i],
            width,
        ) by {
            assert(entry_box_ok(entries[i], width));
        }
    }
    lemma_entry_heights(kinds, entries, width);
}

/// The style one repaint of an entry draws with: what the transition would
/// store, or the entry's current effective style when it stores nothing.
pub open spec fn repaint_style(color: FeedItemColor, comp: Component) -> Style {
    match color.to_style_spec(comp.spec_style()) {
        Some(s) => s,
        None => comp.effective_style(),
    }
}

/// How many commands a repaint of entry `sel` emits: two per row, or none
/// when the entry is scrolled above the window.
pub open spec fn repaint_len(items: Seq<Component>, sel: int, first: int) -> int {
    if items[sel].spec_posy() < first {
        0
    } else {
        2 * items[sel].spec_lines().len() as int
    }
}

/// The repaint commands of entry `sel`: each of its rows printed in `style`
/// at its on-screen position, nothing else; nothing when the entry starts
/// above the window.
pub open spec fn repaint_ops(
    ops: Seq<SurfaceOp>,
    items: Seq<Component>,
    sel: int,
    first: int,
    startx: int,
    style: Style,
) -> bool {
    let posy = items[sel].spec_posy();
    let lines = items[sel].spec_lines();
    &&& ops.len() == repaint_len(items, sel, first)
    &&& posy >= first ==> forall|k: int|
        0 <= k < lines.len() ==> #[trigger] ops[2 * k] == SurfaceOp::MoveTo(
            startx as usize,
            (posy - first + k) as usize,
        )
    &&& posy >= first ==> forall|k: int|
        0 <= k < lines.len() ==> ((#[trigger] ops[2 * k + 1]) matches SurfaceOp::Print(l)
            && l.text@ == lines[k] && l.style == style)
}

impl ArticleControler {
    /// A controller over the given blocks: the geometry switches to the
    /// article view and the pad is built at its width.
    pub fn build(content: Vec<ComponentKind>, geo: Geometry) -> (r: Result<
        ArticleControler,
        LayoutError,
    >)
        ensures
            ({
                let w: int = if ARTICLE_VIEW_WIDTH <= geo.term_width {
                    ARTICLE_VIEW_WIDTH as int
                } else {
                    geo.term_width as int
                };
                r is Ok <==> ((forall|i: int|
                    0 <= i < content@.len() ==> kind_build_ok(#[trigger] content@[i], w))
                    && total_kind_height(content@, w) <= usize::MAX)
            }),
            r matches Ok(c) ==> c.textpad.wf() && c.textpad.first == 0,
    {
        let mut geo = geo;
        geo.change_view(ViewKind::Article);
        let textpad = match TextPad::new(content, &geo) {
            Ok(p) => p,
            Err(e) => {
                return Err(e);
            },
        };
        Ok(ArticleControler { textpad, geo, input: InputBuffer::new() })
    }

    /// The commands that scroll by the given number of lines: exactly what
    /// [`TextPad::scroll_by_lines`] emits at the pane's own geometry.
    pub fn scroll(&mut self, dir: Direction, lines: u16) -> (ops: Vec<SurfaceOp>)
        ensures
            final(self).textpad.components == old(self).textpad.components,
            final(self).textpad.content == old(self).textpad.content,
            final(self).geo == old(self).geo,
            dir is Up ==> final(self).textpad.first == old(self).textpad.first
                - crate::textpad::scroll_up_amount(old(self).textpad.first as int, lines as int),
            dir is Down ==> final(self).textpad.first == old(self).textpad.first
                + scroll_down_amount(
                old(self).textpad.content@.len() as int,
                old(self).textpad.first as int,
                old(self).geo.term_height as int,
                lines as int,
            ),
            first_in_range(
                old(self).textpad.first as int,
                old(self).textpad.content@.len() as int,
                old(self).geo.term_height as int,
            ) ==> first_in_range(
                final(self).textpad.first as int,
                final(self).textpad.content@.len() as int,
                final(self).geo.term_height as int,
            ),
            first_in_range(
                old(self).textpad.first as int,
                old(self).textpad.content@.len() as int,
                old(self).geo.term_height as int,
            ) && dir is Up ==> scroll_ops_spec(
                ops@,
                old(self).textpad.content@,
                old(self).geo.startx as int,
                dir,
                old(self).textpad.first - final(self).textpad.first,
                final(self).textpad.first as int,
                old(self).geo.term_height as int,
            ),
            first_in_range(
                old(self).textpad.first as int,
                old(self).textpad.content@.len() as int,
                old(self).geo.term_height as int,
            ) && dir is Down ==> scroll_ops_spec(
                ops@,
                old(self).textpad.content@,
                old(self).geo.startx as int,
                dir,
                final(self).textpad.first - old(self).textpad.first,
                final(self).textpad.first as int,
                old(self).geo.term_height as int,
            ),
    {
        let geo = self.geo;
        self.textpad.scroll_by_lines(&geo, dir, lines as usize)
    }

    /// Jumps back to the top of the article.
    pub fn goto_top(&mut self)
        ensures
            final(self).textpad.components == old(self).textpad.components,
            final(self).textpad.content == old(self).textpad.content,
            final(self).textpad.first == 0,
            final(self).geo == old(self).geo,
    {
        self.textpad.first = 0;
    }
}

/// The feed view: a pad of entry boxes and the cursor over them.
#[derive(Debug)]
pub struct FeedControler {
    pub feed: Feed,
    pub textpad: TextPad,
    pub geo: Geometry,
    pub input: InputBuffer,
}

/// Where the selection moves on one step.
pub open spec fn move_sel_spec(dir: Direction, sel: int, len: int) -> int {
    match dir {
        Direction::Up => if sel > 0 {
            sel - 1
        } else {
            sel
        },
        Direction::Down => if sel < len - 1 {
            sel + 1
        } else {
            sel
        },
    }
}

/// How many boundary scrolls an upward move makes: two when the selection is
/// the first visible entry, one when it is the one before, none otherwise.
pub open spec fn num_up_spec(items: Seq<Component>, first: int, sel: int) -> int {
    let fv = fv_index(items, first);
    if fv == sel {
        2
    } else if sel > 0 && fv == sel - 1 {
        1
    } else {
        0
    }
}

/// The downward counterpart, against the component at the window's bottom.
pub open spec fn num_down_spec(items: Seq<Component>, row: int, sel: int) -> int {
    let lv = lv_index(items, row);
    if lv == sel {
        2
    } else if lv == sel + 1 {
        1
    } else {
        0
    }
}

/// The line delta of one downward boundary scroll: to the end of the
/// partially visible bottom component, or one whole component when it
/// already ends at the window's bottom edge.
pub open spec fn boundary_down_lines(items: Seq<Component>, first: int, th: int) -> int {
    let lv = lv_index(items, first + th);
    let end = items[lv].spec_posy() + items[lv].spec_height();
    let raw: int = if end > first + th {
        end - (first + th)
    } else {
        0
    };
    if raw == 0 {
        items[lv].spec_height()
    } else {
        raw
    }
}

impl FeedControler {
    /// The cursor stays on an entry, and every entry has its component.
    pub open spec fn wf(&self) -> bool {
        &&& self.feed.wf()
        &&& self.textpad.wf()
        &&& self.feed.items@.len() == self.textpad.components.items@.len()
        &&& pad_matches_feed(self.textpad.components.items@, self.feed.items@)
    }

    /// A controller over a feed: one box per entry, built at the geometry's
    /// width.
    #[verifier::rlimit(100)]
    pub fn build(feed: Feed, geo: Geometry) -> (r: Result<FeedControler, LayoutError>)
        requires
            feed.wf(),
        ensures
            r is Ok <==> ((forall|i: int|
                0 <= i < feed.items@.len() ==> entry_box_ok(
                    #[trigger] feed.items@[i],
                    geo.width as int,
                )) && entries_box_height(feed.items@, geo.width as int) <= usize::MAX),
            r matches Ok(c) ==> c.wf() && c.feed.selected == feed.selected && c.feed.items
                == feed.items && c.geo == geo,
    {
        let n = feed.items.len();
        let mut content: Vec<ComponentKind> = Vec::new();
        let mut i: usize = 0;
        while i < n
            invariant
                i <= n,
                n == feed.items@.len(),
                content@.len() == i,
                forall|j: int|
                    0 <= j < i ==> entry_kind_matches(#[trigger] content@[j], feed.items@[j]),
            decreases n - i,
        {
            content.push(feed.items[i].build());
            i = i + 1;
        }
        proof {
            assert forall|j: int| 0 <= j < n implies (kind_build_ok(
                #[trigger] content@[j],
                geo.width as int,
            ) == entry_box_ok(feed.items@[j], geo.width as int)) by {
                lemma_entry_kind(content@[j], feed.items@[j], geo.width as int);
            }
            lemma_entry_heights(content@, feed.items@, geo.width as int);
        }
        let textpad = match TextPad::new(content, &geo) {
            Ok(p) => p,
            Err(e) => {
                return Err(e);
            },
        };
        proof {
            reveal(pad_matches_feed);
            assert(pad_matches_feed(textpad.components.items@, feed.items@));
        }
        Ok(FeedControler { feed, textpad, geo, input: InputBuffer::new() })
    }

    /// The commands that repaint the selected entry's rows in the given
    /// highlight, without storing anything. Rows scrolled above the window
    /// are not drawn.
    fn redraw_selected(&self, color: FeedItemColor) -> (ops: Vec<SurfaceOp>)
        requires
            self.wf(),
        ensures
            repaint_ops(
                ops@,
                self.textpad.components.items@,
                self.feed.selected as int,
                self.textpad.first as int,
                self.geo.startx as int,
                repaint_style(
                    color,
                    self.textpad.components.items@[self.feed.selected as int],
                ),
            ),
    {
        let comp = match self.textpad.components.get(self.feed.selected) {
            Some(c) => c,
            None => vstd::pervasive::unreached(),
        };
        let posy = comp.get_posy();
        let lines = FeedItemColor::get_styled(comp, color);
        let mut ops: Vec<SurfaceOp> = Vec::new();
        if posy < self.textpad.first {
            return ops;
        }
        proof {
            self.textpad.components.lemma_posy_monotone();
        }
        let row0 = posy - self.textpad.first;
        let startx = self.geo.startx as usize;
        let n = lines.len();
        let ghost style = repaint_style(
            color,
            self.textpad.components.items@[self.feed.selected as int],
        );
        let ghost texts = self.textpad.components.items@[
            self.feed.selected as int
        ].spec_lines();
        proof {
            assert forall|k: int| 0 <= k < n implies (#[trigger] lines@[k]).text@ == texts[k]
                && lines@[k].style == style by {
                assert(crate::style::line_texts(lines@)[k] == lines@[k].text@);
            }
        }
        let mut i: usize = 0;
        while i < n
            invariant
                i <= n,
                n == lines@.len(),
                n == texts.len(),
                row0 + n <= usize::MAX,
                ops@.len() == 2 * i,
                forall|k: int| 0 <= k < n ==> (#[trigger] lines@[k]).text@ == texts[k]
                    && lines@[k].style == style,
                forall|k: int|
                    0 <= k < i ==> #[trigger] ops@[2 * k] == SurfaceOp::MoveTo(
                        startx,
                        (row0 + k) as usize,
                    ),
                forall|k: int|
                    0 <= k < i ==> ((#[trigger] ops@[2 * k + 1]) matches SurfaceOp::Print(l)
                        && l.text@ == texts[k] && l.style == style),
            decreases n - i,
        {
            ops.push(SurfaceOp::MoveTo(startx, row0 + i));
            ops.push(SurfaceOp::Print(lines[i].duplicate()));
            i = i + 1;
        }
        ops
    }

    /// Stores a highlight transition on the selected entry; when it changed
    /// anything, the pad's lines are refreshed.
    #[verifier::rlimit(100)]
    fn rebuild_selected(&mut self, color: FeedItemColor)
        requires
            old(self).wf(),
        ensures
            final(self).wf(),
            final(self).feed == old(self).feed,
            final(self).geo == old(self).geo,
            final(self).textpad.first == old(self).textpad.first,
            final(self).textpad.components.items@.len() == old(self).textpad.components.items@.len(),
            forall|i: int|
                0 <= i < final(self).textpad.components.items@.len() ==> (#[trigger] final(self).textpad.components.items@[i]).spec_posy() == old(self).textpad.components.items@[
                    i
                ].spec_posy() && final(self).textpad.components.items@[i].spec_lines() == old(self).textpad.components.items@[i].spec_lines() && final(self).textpad.components.items@[
                    i
                ].comp_type == old(self).textpad.components.items@[i].comp_type,
            forall|i: int|
                0 <= i < final(self).textpad.components.items@.len() && i != old(
                    self,
                ).feed.selected ==> (#[trigger] final(self).textpad.components.items@[
                    i
                ]).spec_style() == old(self).textpad.components.items@[i].spec_style(),
            final(self).textpad.components.items@[old(self).feed.selected as int].spec_style()
                == (match color.to_style_spec(
                old(self).textpad.components.items@[old(self).feed.selected as int].spec_style(),
            ) {
                Some(st) => Some(st),
                None => old(self).textpad.components.items@[
                    old(self).feed.selected as int
                ].spec_style(),
            }),
    {
        let ghost pre_items = self.textpad.components.items@;
        let changed = self.textpad.components.apply_color(self.feed.selected, color);
        if changed.is_some() {
            proof {
                assert(self.textpad.components.wf());
            }
            self.textpad.reset_content();
        } else {
            proof {
                crate::doc::lemma_flat_pointwise(pre_items, self.textpad.components.items@);
            }
        }
        proof {
            reveal(pad_matches_feed);
            assert forall|i: int| 0 <= i < self.feed.items@.len() implies entry_kind_matches(
                (#[trigger] self.textpad.components.items@[i]).comp_type,
                self.feed.items@[i],
            ) by {
                if i != self.feed.selected {
                    assert(self.textpad.components.items@[i] == pre_items[i]);
                }
                assert(entry_kind_matches(pre_items[i].comp_type, self.feed.items@[i]));
            }
        }
    }

    /// Stores a highlight transition on the selected entry (an entry opened
    /// for reading is marked `Read`); when it changed anything, the pad's
    /// lines are refreshed.
    pub fn mark_selected(&mut self, color: FeedItemColor)
        requires
            old(self).wf(),
        ensures
            final(self).wf(),
            final(self).feed == old(self).feed,
            final(self).geo == old(self).geo,
            final(self).textpad.first == old(self).textpad.first,
            forall|i: int|
                0 <= i < final(self).textpad.components.items@.len() && i != old(
                    self,
                ).feed.selected ==> (#[trigger] final(self).textpad.components.items@[
                    i
                ]).spec_style() == old(self).textpad.components.items@[i].spec_style(),
            final(self).textpad.components.items@[old(self).feed.selected as int].spec_style()
                == (match color.to_style_spec(
                old(self).textpad.components.items@[old(self).feed.selected as int].spec_style(),
            ) {
                Some(st) => Some(st),
                None => old(self).textpad.components.items@[
                    old(self).feed.selected as int
                ].spec_style(),
            }),
    {
        self.rebuild_selected(color);
    }

    /// How many entry boundaries a downward move must scroll to keep the
    /// selection visible: two when the selection sits at the window's lower
    /// edge, one when the next entry does, none otherwise.
    fn num_to_scroll_down(&self) -> (r: usize)
        requires
            self.wf(),
        ensures
            r as int == num_down_spec(
                self.textpad.components.items@,
                self.textpad.first + self.geo.term_height,
                self.feed.selected as int,
            ),
    {
        let len = self.feed.items.len();
        let last_visible = self.textpad.last_visible_comp(&self.geo);
        if last_visible == self.feed.selected {
            2
        } else if last_visible == self.feed.selected + 1 {
            1
        } else {
            0
        }
    }

    /// The upward counterpart of [`FeedControler::num_to_scroll_down`].
    fn num_to_scroll_up(&self) -> (r: usize)
        requires
            self.wf(),
        ensures
            r as int == num_up_spec(
                self.textpad.components.items@,
                self.textpad.first as int,
                self.feed.selected as int,
            ),
    {
        let first_visible = self.textpad.first_visible_comp();
        if first_visible == self.feed.selected {
            2
        } else if self.feed.selected > 0 && first_visible == self.feed.selected - 1 {
            1
        } else {
            0
        }
    }

    /// The commands that scroll the window by one entry boundary in the
    /// given direction.
    #[verifier::rlimit(100)]
    pub fn scroll(&mut self, dir: Direction) -> (ops: Vec<SurfaceOp>)
        requires
            old(self).wf(),
        ensures
            final(self).wf(),
            final(self).feed == old(self).feed,
            final(self).geo == old(self).geo,
            final(self).textpad.components == old(self).textpad.components,
            final(self).textpad.content == old(self).textpad.content,
            dir is Up ==> final(self).textpad.first <= old(self).textpad.first,
            dir is Down ==> final(self).textpad.first >= old(self).textpad.first,
            dir is Up ==> final(self).textpad.first as int == old(self).textpad.components.items@[fv_index(
                old(self).textpad.components.items@,
                old(self).textpad.first as int,
            )].spec_posy(),
            dir is Down && first_in_range(
                old(self).textpad.first as int,
                old(self).textpad.content@.len() as int,
                old(self).geo.term_height as int,
            ) ==> final(self).textpad.first == old(self).textpad.first + scroll_down_amount(
                old(self).textpad.content@.len() as int,
                old(self).textpad.first as int,
                old(self).geo.term_height as int,
                boundary_down_lines(
                    old(self).textpad.components.items@,
                    old(self).textpad.first as int,
                    old(self).geo.term_height as int,
                ),
            ),
            first_in_range(
                old(self).textpad.first as int,
                old(self).textpad.content@.len() as int,
                old(self).geo.term_height as int,
            ) && dir is Up ==> scroll_ops_spec(
                ops@,
                old(self).textpad.content@,
                old(self).geo.startx as int,
                dir,
                old(self).textpad.first - final(self).textpad.first,
                final(self).textpad.first as int,
                old(self).geo.term_height as int,
            ),
            first_in_range(
                old(self).textpad.first as int,
                old(self).textpad.content@.len() as int,
                old(self).geo.term_height as int,
            ) && dir is Down ==> scroll_ops_spec(
                ops@,
                old(self).textpad.content@,
                old(self).geo.startx as int,
                dir,
                final(self).textpad.first - old(self).textpad.first,
                final(self).textpad.first as int,
                old(self).geo.term_height as int,
            ),
    {
        match dir {
            Direction::Up => self.boundary_up(),
            Direction::Down => self.boundary_down(),
        }
    }

    /// One upward boundary scroll: the window lands where the component at
    /// or before its first row begins.
    #[verifier::rlimit(100)]
    fn boundary_up(&mut self) -> (ops: Vec<SurfaceOp>)
        requires
            old(self).wf(),
        ensures
            final(self).wf(),
            final(self).feed == old(self).feed,
            final(self).geo == old(self).geo,
            final(self).textpad.components == old(self).textpad.components,
            final(self).textpad.content == old(self).textpad.content,
            final(self).textpad.first <= old(self).textpad.first,
            final(self).textpad.first as int == old(self).textpad.components.items@[fv_index(
                old(self).textpad.components.items@,
                old(self).textpad.first as int,
            )].spec_posy(),
            first_in_range(
                old(self).textpad.first as int,
                old(self).textpad.content@.len() as int,
                old(self).geo.term_height as int,
            ) ==> scroll_ops_spec(
                ops@,
                old(self).textpad.content@,
                old(self).geo.startx as int,
                Direction::Up,
                old(self).textpad.first - final(self).textpad.first,
                final(self).textpad.first as int,
                old(self).geo.term_height as int,
            ),
    {
        let geo = self.geo;
        let fv = self.textpad.first_visible_comp();
        let comp = match self.textpad.components.get(fv) {
            Some(c) => c,
            None => vstd::pervasive::unreached(),
        };
        let posy = comp.get_posy();
        let lines = if posy <= self.textpad.first {
            self.textpad.first - posy
        } else {
            0
        };
        self.textpad.scroll_by_lines(&geo, Direction::Up, lines)
    }

    /// One downward boundary scroll: the window's bottom advances to the end
    /// of the partially visible bottom component (or one whole component
    /// when none is partial), clamped like any line scroll.
    #[verifier::rlimit(100)]
    fn boundary_down(&mut self) -> (ops: Vec<SurfaceOp>)
        requires
            old(self).wf(),
        ensures
            final(self).wf(),
            final(self).feed == old(self).feed,
            final(self).geo == old(self).geo,
            final(self).textpad.components == old(self).textpad.components,
            final(self).textpad.content == old(self).textpad.content,
            final(self).textpad.first >= old(self).textpad.first,
            first_in_range(
                old(self).textpad.first as int,
                old(self).textpad.content@.len() as int,
                old(self).geo.term_height as int,
            ) ==> final(self).textpad.first == old(self).textpad.first + scroll_down_amount(
                old(self).textpad.content@.len() as int,
                old(self).textpad.first as int,
                old(self).geo.term_height as int,
                boundary_down_lines(
                    old(self).textpad.components.items@,
                    old(self).textpad.first as int,
                    old(self).geo.term_height as int,
                ),
            ),
            first_in_range(
                old(self).textpad.first as int,
                old(self).textpad.content@.len() as int,
                old(self).geo.term_height as int,
            ) ==> scroll_ops_spec(
                ops@,
                old(self).textpad.content@,
                old(self).geo.startx as int,
                Direction::Down,
                final(self).textpad.first - old(self).textpad.first,
                final(self).textpad.first as int,
                old(self).geo.term_height as int,
            ),
    {
        let geo = self.geo;
        let content_len = self.textpad.content.len();
        let lv = self.textpad.last_visible_comp(&geo);
        let comp = match self.textpad.components.get(lv) {
            Some(c) => c,
            None => vstd::pervasive::unreached(),
        };
        let posy = comp.get_posy();
        let h = comp.height();
        let end = match posy.checked_add(h) {
            Some(v) => v,
            None => {
                proof {
                    self.textpad.components.lemma_posy_monotone();
                }
                return vstd::pervasive::unreached();
            },
        };
        let target = match self.textpad.first.checked_add(geo.term_height as usize) {
            Some(v) => v,
            None => {
                return Vec::new();
            },
        };
        let mut lines = if end > target {
            end - target
        } else {
            0
        };
        if lines == 0 {
            lines = h;
        }
        self.textpad.scroll_by_lines(&geo, Direction::Down, lines)
    }

    /// Moves the selection one entry up or down, scrolling by entry
    /// boundaries as needed and repainting only the affected rows. The
    /// selection never leaves the entries.
    #[verifier::rlimit(100)]
    pub fn move_select(&mut self, dir: Direction, should_remove_new: bool) -> (ops: Vec<
        SurfaceOp,
    >)
        requires
            old(self).wf(),
        ensures
            final(self).wf(),
            final(self).feed.items == old(self).feed.items,
            final(self).geo == old(self).geo,
            final(self).feed.selected as int == move_sel_spec(
                dir,
                old(self).feed.selected as int,
                old(self).feed.items@.len() as int,
            ),
            final(self).textpad.components.items@.len() == old(self).textpad.components.items@.len(),
            !should_remove_new ==> final(self).textpad.content == old(self).textpad.content,
            forall|i: int|
                0 <= i < final(self).textpad.components.items@.len() ==> (#[trigger] final(self).textpad.components.items@[i]).spec_posy() == old(self).textpad.components.items@[
                    i
                ].spec_posy() && final(self).textpad.components.items@[i].spec_lines() == old(self).textpad.components.items@[i].spec_lines() && final(self).textpad.components.items@[
                    i
                ].comp_type == old(self).textpad.components.items@[i].comp_type,
            !should_remove_new ==> forall|i: int|
                0 <= i < final(self).textpad.components.items@.len() ==> (#[trigger] final(self).textpad.components.items@[i]).spec_style() == old(self).textpad.components.items@[
                    i
                ].spec_style(),
            dir is Up ==> final(self).textpad.first as int == (if num_up_spec(
                old(self).textpad.components.items@,
                old(self).textpad.first as int,
                move_sel_spec(
                    dir,
                    old(self).feed.selected as int,
                    old(self).feed.items@.len() as int,
                ),
            ) != 0 {
                old(self).textpad.components.items@[fv_index(
                    old(self).textpad.components.items@,
                    old(self).textpad.first as int,
                )].spec_posy()
            } else {
                old(self).textpad.first as int
            }),
            dir is Down && first_in_range(
                old(self).textpad.first as int,
                old(self).textpad.content@.len() as int,
                old(self).geo.term_height as int,
            ) ==> final(self).textpad.first as int == (if num_down_spec(
                old(self).textpad.components.items@,
                old(self).textpad.first + old(self).geo.term_height,
                move_sel_spec(
                    dir,
                    old(self).feed.selected as int,
                    old(self).feed.items@.len() as int,
                ),
            ) != 0 {
                old(self).textpad.first + scroll_down_amount(
                    old(self).textpad.content@.len() as int,
                    old(self).textpad.first as int,
                    old(self).geo.term_height as int,
                    boundary_down_lines(
                        old(self).textpad.components.items@,
                        old(self).textpad.first as int,
                        old(self).geo.term_height as int,
                    ),
                )
            } else {
                old(self).textpad.first as int
            }),
    {
        let mut ops = self.redraw_selected(FeedItemColor::NotSelected);
        match dir {
            Direction::Up => {
                if self.feed.selected > 0 {
                    self.feed.selected = self.feed.selected - 1;
                }
                if self.num_to_scroll_up() != 0 {
                    let mut more = self.scroll(Direction::Up);
                    ops.append(&mut more);
                }
            },
            Direction::Down => {
                if self.feed.selected < self.feed.items.len() - 1 {
                    self.feed.selected = self.feed.selected + 1;
                }
                if self.num_to_scroll_down() != 0 {
                    let mut more = self.scroll(Direction::Down);
                    ops.append(&mut more);
                }
            },
        }
        if should_remove_new {
            self.rebuild_selected(FeedItemColor::NotNew);
        }
        let mut more = self.redraw_selected(FeedItemColor::Selected);
        ops.append(&mut more);
        ops
    }

    /// The commands that draw the whole feed window with the selection
    /// highlighted: the window's rows exactly as [`TextPad::draw`] emits
    /// them, then the selected entry's rows repainted.
    pub fn draw(&self) -> (ops: Vec<SurfaceOp>)
        requires
            self.wf(),
        ensures
            ops@.len() >= 1,
            ops@[0] is Clear,
            ({
                let n1 = 1 + 2 * crate::textpad::visible_count(
                    self.textpad.content@.len() as int,
                    self.textpad.first as int,
                    self.geo.term_height as int,
                );
                &&& ops@.len() == n1 + repaint_len(
                    self.textpad.components.items@,
                    self.feed.selected as int,
                    self.textpad.first as int,
                )
                &&& crate::textpad::draw_ops_spec(
                    ops@.take(n1),
                    self.textpad.content@,
                    self.textpad.first as int,
                    self.geo.startx as int,
                    self.geo.term_height as int,
                )
                &&& repaint_ops(
                    ops@.skip(n1),
                    self.textpad.components.items@,
                    self.feed.selected as int,
                    self.textpad.first as int,
                    self.geo.startx as int,
                    Style::Red,
                )
            }),
    {
        let mut ops = self.textpad.draw(&self.geo);
        let ghost window = ops@;
        let mut more = self.redraw_selected(FeedItemColor::Selected);
        let ghost highlight = more@;
        ops.append(&mut more);
        proof {
            assert(repaint_style(
                FeedItemColor::Selected,
                self.textpad.components.items@[self.feed.selected as int],
            ) == Style::Red);
            assert(ops@.take(window.len() as int) =~= window);
            assert(ops@.skip(window.len() as int) =~= highlight);
        }
        ops
    }

    /// Puts the cursor and the window back at the top.
    pub fn goto_top(&mut self)
        requires
            old(self).wf(),
        ensures
            final(self).wf(),
            final(self).feed.items == old(self).feed.items,
            final(self).feed.selected == 0,
            final(self).textpad.first == 0,
            final(self).textpad.components == old(self).textpad.components,
            final(self).textpad.content == old(self).textpad.content,
            final(self).geo == old(self).geo,
    {
        self.feed.selected = 0;
        self.textpad.first = 0;
    }

    /// Selects the entry whose rows contain the clicked screen row, scrolls
    /// it fully into view, and repaints the affected rows. Returns the
    /// commands and whether the click hit the already selected entry (a
    /// second click opens it). A click outside the content column changes
    /// nothing.
    pub fn mouse_select(&mut self, x: u16, y: u16) -> (r: (Vec<SurfaceOp>, bool))
        requires
            old(self).wf(),
        ensures
            final(self).wf(),
            final(self).feed.items == old(self).feed.items,
            final(self).geo == old(self).geo,
            final(self).textpad.components.items@.len() == old(self).textpad.components.items@.len(),
            (x < old(self).geo.startx || x as int > old(self).geo.startx + old(self).geo.width) ==> (*final(self) == *old(self) && !r.1 && r.0@.len() == 0),
            !(x < old(self).geo.startx || x as int > old(self).geo.startx + old(
                self,
            ).geo.width) ==> ({
                let hit = count_ended(
                    old(self).textpad.components.items@,
                    y + old(self).textpad.first,
                );
                final(self).feed.selected as int == if hit < old(self).feed.items@.len() {
                    hit
                } else {
                    old(self).feed.items@.len() - 1
                }
            }),
            !(x < old(self).geo.startx || x as int > old(self).geo.startx + old(
                self,
            ).geo.width) ==> r.1 == (final(self).feed.selected == old(self).feed.selected),
    {
        if x < self.geo.startx || x as usize > self.geo.startx as usize
            + self.geo.width as usize {
            return (Vec::new(), false);
        }
        let mut ops = self.redraw_selected(FeedItemColor::NotSelected);
        let last_selected = self.feed.selected;
        let row = match (y as usize).checked_add(self.textpad.first) {
            Some(v) => v,
            None => usize::MAX,
        };
        proof {
            self.textpad.components.lemma_posy_monotone();
            if y + self.textpad.first > usize::MAX {
                crate::doc::lemma_count_ended_is_partition(
                    self.textpad.components.items@,
                    row as int,
                    self.textpad.components.items@.len() as int,
                );
                crate::doc::lemma_count_ended_is_partition(
                    self.textpad.components.items@,
                    y + self.textpad.first,
                    self.textpad.components.items@.len() as int,
                );
            }
        }
        let idx = self.textpad.components.partition_by_end(row);
        proof {
            assert(idx == count_ended(
                old(self).textpad.components.items@,
                y + old(self).textpad.first,
            ));
        }
        let len = self.feed.items.len();
        self.feed.selected = if idx < len {
            idx
        } else {
            len - 1
        };
        let sel_new = self.feed.selected;
        if self.feed.selected > last_selected {
            let n = self.num_to_scroll_down();
            let mut k: usize = 0;
            while k < n
                invariant
                    self.wf(),
                    self.feed.items == old(self).feed.items,
                    self.geo == old(self).geo,
                    self.feed.selected == sel_new,
                    self.textpad.components.items@.len() == old(self).textpad.components.items@.len(),
                decreases n - k,
            {
                let mut more = self.scroll(Direction::Down);
                ops.append(&mut more);
                k = k + 1;
            }
        } else if self.feed.selected < last_selected {
            proof {
                assert(self.feed.selected < self.feed.items@.len());
            }
            let n = self.num_to_scroll_up();
            let mut k: usize = 0;
            while k < n
                invariant
                    self.wf(),
                    self.feed.items == old(self).feed.items,
                    self.geo == old(self).geo,
                    self.feed.selected == sel_new,
                    self.textpad.components.items@.len() == old(self).textpad.components.items@.len(),
                decreases n - k,
            {
                let mut more = self.scroll(Direction::Up);
                ops.append(&mut more);
                k = k + 1;
            }
        }
        self.rebuild_selected(FeedItemColor::NotNew);
        let mut more = self.redraw_selected(FeedItemColor::Selected);
        ops.append(&mut more);
        (ops, self.feed.selected == last_selected)
    }

    /// The commands that announce a refresh in progress.
    pub fn draw_refreshing(&self, height: u16) -> (ops: Vec<SurfaceOp>)
        ensures
            ops@.len() == 2,
            ops@[0] == SurfaceOp::MoveTo(
                (if self.geo.width >= 13 {
                    self.geo.startx + (self.geo.width - 13) as int / 2
                } else {
                    self.geo.startx as int
                }) as usize,
                (height / 2 + 1) as usize,
            ),
            (ops@[1] matches SurfaceOp::Print(l) && l.text@ == "REFRESHING..."@ && l.style
                is Plain),
    {
        let text: &str = "REFRESHING...";
        let x = if self.geo.width >= 13 {
            self.geo.startx as usize + ((self.geo.width - 13) / 2) as usize
        } else {
            self.geo.startx as usize
        };
        let mut ops: Vec<SurfaceOp> = Vec::new();
        ops.push(SurfaceOp::MoveTo(x, (height / 2 + 1) as usize));
        ops.push(SurfaceOp::Print(Line { text: text.to_owned(), style: Style::Plain }));
        ops
    }

    /// Builds boxes for the first `num_new` feed entries, prepends them to
    /// the pad and rebuilds it at its stored width, marking the new boxes as
    /// new. Succeeds exactly when every new box fits and the grown stack
    /// fits the machine.
    #[verifier::rlimit(100)]
    fn prepend_new_boxes(&mut self, num_new: usize) -> (r: Result<(), LayoutError>)
        requires
            old(self).feed.wf(),
            old(self).textpad.components.wf(),
            num_new <= old(self).feed.items@.len(),
            old(self).feed.items@.len() == num_new + old(self).textpad.components.items@.len(),
            pad_matches_feed(
                old(self).textpad.components.items@,
                old(self).feed.items@.skip(num_new as int),
            ),
        ensures
            final(self).feed == old(self).feed,
            final(self).geo == old(self).geo,
            final(self).textpad.first == old(self).textpad.first,
            r is Ok <==> boxes_fit(
                old(self).feed.items@.take(num_new as int),
                old(self).textpad.components.width as int,
                old(self).textpad.components.total_lines(),
            ),
            r is Ok ==> {
                &&& final(self).textpad.wf()
                &&& final(self).textpad.components.width == old(self).textpad.components.width
                &&& final(self).textpad.components.items@.len() == final(self).feed.items@.len()
                &&& pad_matches_feed(
                    final(self).textpad.components.items@,
                    final(self).feed.items@,
                )
                &&& forall|i: int|
                    0 <= i < num_new ==> (#[trigger] final(self).textpad.components.items@[
                        i
                    ]).spec_style() == Some(Style::Blue)
            },
    {
        let ghost all_items = self.feed.items@;
        let kinds = self.entry_kinds(num_new);
        let ghost kinds_view = kinds@;
        let ghost pre = self.textpad.components.items@;
        let ghost width = self.textpad.components.width as int;
        proof {
            assert(boxes_fit(
                all_items.take(num_new as int),
                width,
                self.textpad.components.total_lines(),
            ) == ((forall|i: int|
                0 <= i < kinds_view.len() ==> kind_build_ok(#[trigger] kinds_view[i], width))
                && total_kind_height(kinds_view, width) + self.textpad.components.total_lines()
                <= usize::MAX)) by {
                reveal(boxes_fit);
                assert(all_items.take(num_new as int).len() == num_new);
                assert(forall|t: int|
                    0 <= t < num_new ==> entry_kind_matches(
                        #[trigger] kinds_view[t],
                        all_items.take(num_new as int)[t],
                    ));
                lemma_boxes_iff(kinds_view, all_items.take(num_new as int), width);
            }
        }
        match self.textpad.components.prepend_and_rebuild(kinds) {
            Ok(()) => {},
            Err(e) => {
                proof {
                    assert(forall|t: int|
                        0 <= t < num_new as int ==> #[trigger] all_items.take(num_new as int)[
                            t
                        ] == all_items[t]);
                }
                return Err(e);
            },
        }
        proof {
            assert(forall|t: int|
                0 <= t < num_new as int ==> #[trigger] all_items.take(num_new as int)[t]
                    == all_items[t]);
        }
        self.finish_marked(num_new, Ghost(kinds_view), Ghost(pre));
        Ok(())
    }

    /// The boxes of the first `num_new` entries, in order.
    fn entry_kinds(&self, num_new: usize) -> (kinds: Vec<ComponentKind>)
        requires
            num_new <= self.feed.items@.len(),
        ensures
            kinds@.len() == num_new,
            forall|j: int|
                0 <= j < num_new ==> entry_kind_matches(
                    #[trigger] kinds@[j],
                    self.feed.items@[j],
                ),
    {
        let mut kinds: Vec<ComponentKind> = Vec::new();
        let mut i: usize = 0;
        while i < num_new
            invariant
                i <= num_new,
                num_new <= self.feed.items@.len(),
                kinds@.len() == i,
                forall|j: int|
                    0 <= j < i ==> entry_kind_matches(#[trigger] kinds@[j], self.feed.items@[j]),
            decreases num_new - i,
        {
            kinds.push(self.feed.items[i].build());
            i = i + 1;
        }
        kinds
    }

    /// Marks the first `num_new` boxes as newly fetched and refreshes the
    /// pad's lines. The ghost arguments carry where each component's block
    /// came from: the new blocks, and the components kept from before.
    #[verifier::rlimit(100)]
    fn finish_marked(
        &mut self,
        num_new: usize,
        Ghost(kinds_view): Ghost<Seq<ComponentKind>>,
        Ghost(pre): Ghost<Seq<Component>>,
    )
        requires
            num_new <= old(self).textpad.components.items@.len(),
            old(self).textpad.components.wf(),
            old(self).feed.items@.len() == old(self).textpad.components.items@.len(),
            kinds_view.len() == num_new,
            forall|j: int|
                0 <= j < num_new ==> (#[trigger] old(self).textpad.components.items@[
                    j
                ]).comp_type == kinds_view[j],
            forall|j: int|
                0 <= j < num_new ==> entry_kind_matches(
                    #[trigger] kinds_view[j],
                    old(self).feed.items@[j],
                ),
            pre.len() + num_new == old(self).feed.items@.len(),
            forall|t: int|
                0 <= t < pre.len() ==> old(self).textpad.components.items@[num_new + t].comp_type
                    == (#[trigger] pre[t]).comp_type,
            pad_matches_feed(pre, old(self).feed.items@.skip(num_new as int)),
        ensures
            final(self).feed == old(self).feed,
            final(self).geo == old(self).geo,
            final(self).textpad.first == old(self).textpad.first,
            final(self).textpad.wf(),
            final(self).textpad.components.width == old(self).textpad.components.width,
            final(self).textpad.components.items@.len() == final(self).feed.items@.len(),
            pad_matches_feed(final(self).textpad.components.items@, final(self).feed.items@),
            forall|i: int|
                0 <= i < num_new ==> (#[trigger] final(self).textpad.components.items@[
                    i
                ]).spec_style() == Some(Style::Blue),
    {
        proof {
            assert forall|j: int|
                0 <= j < old(self).feed.items@.len() implies entry_kind_matches(
                (#[trigger] old(self).textpad.components.items@[j]).comp_type,
                old(self).feed.items@[j],
            ) by {
                reveal(pad_matches_feed);
                if j >= num_new {
                    assert(entry_kind_matches(
                        pre[j - num_new].comp_type,
                        old(self).feed.items@.skip(num_new as int)[j - num_new],
                    ));
                }
            }
        }
        self.mark_new_boxes(num_new);
        self.textpad.reset_content();
        proof {
            reveal(pad_matches_feed);
        }
    }

    /// Marks the first `num_new` boxes as newly fetched; everything but the
    /// stored styles is untouched, and the pad's lines are stale until
    /// refreshed.
    #[verifier::rlimit(100)]
    fn mark_new_boxes(&mut self, num_new: usize)
        requires
            num_new <= old(self).textpad.components.items@.len(),
            old(self).textpad.components.wf(),
        ensures
            final(self).feed == old(self).feed,
            final(self).geo == old(self).geo,
            final(self).input == old(self).input,
            final(self).textpad.first == old(self).textpad.first,
            final(self).textpad.content == old(self).textpad.content,
            final(self).textpad.components.wf(),
            final(self).textpad.components.width == old(self).textpad.components.width,
            final(self).textpad.components.items@.len() == old(self).textpad.components.items@.len(),
            forall|t: int|
                0 <= t < final(self).textpad.components.items@.len() ==> (#[trigger] final(self).textpad.components.items@[t]).comp_type == old(self).textpad.components.items@[
                    t
                ].comp_type,
            forall|t: int|
                0 <= t < num_new ==> (#[trigger] final(self).textpad.components.items@[
                    t
                ]).spec_style() == Some(Style::Blue),
    {
        let ghost built_items = self.textpad.components.items@;
        let ghost width = self.textpad.components.width;
        let mut j: usize = 0;
        while j < num_new
            invariant
                j <= num_new,
                num_new <= built_items.len(),
                self.textpad.components.items@.len() == built_items.len(),
                self.textpad.components.width == width,
                self.feed == old(self).feed,
                self.geo == old(self).geo,
                self.input == old(self).input,
                self.textpad.first == old(self).textpad.first,
                self.textpad.content == old(self).textpad.content,
                forall|t: int|
                    0 <= t < built_items.len() ==> (#[trigger] self.textpad.components.items@[
                        t
                    ]).spec_posy() == built_items[t].spec_posy()
                        && self.textpad.components.items@[t].spec_lines()
                        == built_items[t].spec_lines() && self.textpad.components.items@[
                        t
                    ].comp_type == built_items[t].comp_type && self.textpad.components.items@[
                        t
                    ].is_built_spec() == built_items[t].is_built_spec(),
                forall|t: int|
                    0 <= t < built_items.len() ==> (#[trigger] built_items[t]).is_built_spec(),
                forall|t: int|
                    0 <= t < j ==> (#[trigger] self.textpad.components.items@[t]).spec_style()
                        == Some(Style::Blue),
            decreases num_new - j,
        {
            let ghost pre = self.textpad.components.items@;
            let marked = self.textpad.components.apply_color(j, FeedItemColor::New);
            proof {
                assert forall|t: int| 0 <= t < built_items.len() implies (
                #[trigger] self.textpad.components.items@[t]).spec_posy()
                    == built_items[t].spec_posy() && self.textpad.components.items@[
                    t
                ].spec_lines() == built_items[t].spec_lines()
                    && self.textpad.components.items@[t].comp_type == built_items[t].comp_type
                    && self.textpad.components.items@[t].is_built_spec()
                    == built_items[t].is_built_spec() by {
                    if t != j {
                        assert(self.textpad.components.items@[t] == pre[t]);
                    }
                }
                assert forall|t: int| 0 <= t < j + 1 implies (
                #[trigger] self.textpad.components.items@[t]).spec_style() == Some(
                    Style::Blue,
                ) by {
                    if t < j {
                        assert(self.textpad.components.items@[t] == pre[t]);
                    }
                }
            }
            j = j + 1;
        }
        proof {
            lemma_same_shape(built_items, self.textpad.components.items@, width as int);
            assert(self.textpad.components.total_lines() <= usize::MAX) by {
                if built_items.len() > 0 {
                    assert(self.textpad.components.items@.last().spec_posy()
                        == built_items.last().spec_posy());
                }
            }
            assert(self.textpad.components.wf());
        }
    }

    /// Absorbs a freshly fetched batch: the strictly newer prefix is merged
    /// into the feed and prepended to the pad, the new boxes are marked new,
    /// and the cursor is advanced past them so that it keeps pointing at the
    /// entry it pointed at before.
    #[verifier::rlimit(100)]
    pub fn absorb_new(&mut self, batch: Vec<FeedItem>) -> (r: Result<Vec<SurfaceOp>, LayoutError>)
        requires
            old(self).wf(),
        ensures
            r is Ok <==> ({
                let n = take_while_newer(batch@, old(self).feed.items@[0].published as int);
                n == 0 || boxes_fit(
                    batch@.take(n),
                    old(self).textpad.components.width as int,
                    old(self).textpad.components.total_lines(),
                )
            }),
            take_while_newer(batch@, old(self).feed.items@[0].published as int) == 0 ==> (r
                matches Ok(ops) && final(self).textpad == old(self).textpad && ops@.len()
                == 0),
            r is Ok ==> forall|i: int|
                0 <= i < take_while_newer(batch@, old(self).feed.items@[0].published as int)
                    ==> (#[trigger] final(self).textpad.components.items@[i]).spec_style()
                    == Some(Style::Blue),
            r is Ok ==> {
                &&& final(self).wf()
                &&& ({
                    let n = take_while_newer(
                        batch@,
                        old(self).feed.items@[0].published as int,
                    );
                    &&& final(self).feed.items@ == batch@.take(n) + old(self).feed.items@
                    &&& final(self).feed.selected == old(self).feed.selected + n
                    &&& final(self).feed.items@[final(self).feed.selected as int] == old(self).feed.items@[old(self).feed.selected as int]
                })
            },
    {
        let ghost old_items = self.feed.items@;
        let ghost old_sel = self.feed.selected as int;
        let ghost batch_view = batch@;
        let num_new = match self.feed.merge_new(batch) {
            Some(n) => n,
            None => vstd::pervasive::unreached(),
        };
        proof {
            crate::feed::lemma_take_while_newer(batch_view, old_items[0].published as int);
            assert(self.feed.items@.len() == num_new + old_items.len());
        }
        if num_new == 0 {
            proof {
                assert(self.feed.items@ =~= batch@.take(0) + old_items);
            }
            return Ok(Vec::new());
        }
        proof {
            assert(self.textpad == old(self).textpad);
            assert(self.feed.items@.skip(num_new as int) =~= old_items);
        }
        proof {
            assert(self.feed.items@.take(num_new as int) =~= batch_view.take(num_new as int));
            assert(forall|t: int|
                0 <= t < num_new as int ==> #[trigger] batch_view.take(num_new as int)[t]
                    == batch_view[t]);
            assert(forall|t: int|
                0 <= t < num_new as int ==> #[trigger] self.feed.items@[t] == batch_view[t]);
        }
        match self.prepend_new_boxes(num_new) {
            Ok(()) => {},
            Err(e) => {
                return Err(e);
            },
        }
        proof {
            assert(self.feed.items@.take(num_new as int) =~= batch_view.take(num_new as int));
            assert(forall|t: int|
                0 <= t < num_new as int ==> #[trigger] batch_view.take(num_new as int)[t]
                    == batch_view[t]);
            assert(self.wf());
        }
        let ops = self.advance_selection(num_new);
        proof {
            assert(self.feed.items@[self.feed.selected as int] == old_items[old_sel]);
        }
        Ok(ops)
    }

    /// Advances the selection by `n` entries, one step at a time, collecting
    /// the repaint and scroll commands; styles are untouched.
    fn advance_selection(&mut self, n: usize) -> (ops: Vec<SurfaceOp>)
        requires
            old(self).wf(),
            old(self).feed.selected + n < old(self).feed.items@.len(),
        ensures
            final(self).wf(),
            final(self).geo == old(self).geo,
            final(self).feed.items == old(self).feed.items,
            final(self).feed.selected == old(self).feed.selected + n,
            forall|i: int|
                0 <= i < final(self).textpad.components.items@.len() ==> (#[trigger] final(self).textpad.components.items@[i]).spec_style() == old(self).textpad.components.items@[
                    i
                ].spec_style(),
    {
        let ghost items0 = self.textpad.components.items@;
        let mut ops: Vec<SurfaceOp> = Vec::new();
        let mut k: usize = 0;
        while k < n
            invariant
                k <= n,
                self.wf(),
                self.geo == old(self).geo,
                self.feed.items == old(self).feed.items,
                old(self).feed.selected + n < old(self).feed.items@.len(),
                self.feed.selected == old(self).feed.selected + k,
                self.textpad.components.items@.len() == items0.len(),
                items0 == old(self).textpad.components.items@,
                forall|i: int|
                    0 <= i < self.textpad.components.items@.len() ==> (
                    #[trigger] self.textpad.components.items@[i]).spec_style()
                        == items0[i].spec_style(),
            decreases n - k,
        {
            let mut more = self.move_select(Direction::Down, false);
            ops.append(&mut more);
            k = k + 1;
        }
        ops
    }
}

/// A modal window showing one error message in a red box.
#[derive(Debug)]
pub struct ErrorWindow {
    pub msg: String,
    pub geo: Geometry,
    pub input: InputBuffer,
}

impl ErrorWindow {
    /// A window for the message, marked as an error.
    pub fn build(msg: &str, geo: Geometry) -> (r: ErrorWindow)
        ensures
            r.msg@ == "(ERROR) "@ + msg@,
            r.geo == geo,
    {
        let mut text = String::new();
        text.append("(ERROR) ");
        text.append(msg);
        ErrorWindow { msg: text, geo, input: InputBuffer::new() }
    }

    /// The commands that draw the message in a centered red box: fails
    /// exactly when the box does not fit the current width (or the message
    /// is too long for the machine to index).
    pub fn draw(&self) -> (r: Result<Vec<SurfaceOp>, LayoutError>)
        ensures
            r is Err <==> !(self.geo.width >= 6 && self.msg@.len() < usize::MAX && (forall|
                j: int,
            |
                0 <= j < crate::wrap::split_on(self.msg@, '\n').len()
                    ==> crate::blocks::rows_fit(
                    #[trigger] crate::wrap::split_on(self.msg@, '\n')[j],
                    self.geo.width as int,
                ))),
            r matches Ok(ops) ==> {
                let rows = boxed_spec(self.msg@, self.geo.width as int);
                let top: int = if rows.len() <= self.geo.term_height {
                    (self.geo.term_height - rows.len()) / 2
                } else {
                    0
                };
                &&& ops@.len() == 1 + 2 * rows.len()
                &&& ops@[0] is Clear
                &&& forall|k: int|
                    0 <= k < rows.len() ==> #[trigger] ops@[1 + 2 * k] == SurfaceOp::MoveTo(
                        self.geo.startx as usize,
                        (top + k) as usize,
                    )
                &&& forall|k: int|
                    0 <= k < rows.len() ==> ((#[trigger] ops@[2 + 2 * k])
                        matches SurfaceOp::Print(l) && l.text@ == rows[k] && l.style is Red)
            },
    {
        let mut rows: Vec<String> = Vec::new();
        rows.push(self.msg.clone());
        proof {
            assert(rows.deep_view() =~~= seq![self.msg@]);
        }
        let kind = ComponentKind::Boxed(rows);
        let ghost kind_ghost = kind;
        let mut component = Component::new(kind);
        let built = component.build(self.geo.width as usize, 0);
        proof {
            reveal(crate::component::kind_build_ok);
            assert(boxed_text(seq![self.msg@]) == self.msg@);
            assert(crate::component::kind_build_ok(kind_ghost, self.geo.width as int)
                == (self.geo.width >= 6 && self.msg@.len() < usize::MAX && (forall|j: int|
                0 <= j < crate::wrap::split_on(self.msg@, '\n').len()
                    ==> crate::blocks::rows_fit(
                    #[trigger] crate::wrap::split_on(self.msg@, '\n')[j],
                    self.geo.width as int,
                ))));
        }
        match built {
            Ok(()) => {},
            Err(e) => {
                return Err(e);
            },
        }
        proof {
            reveal(kind_build_lines);
            assert(component.spec_lines() == boxed_spec(self.msg@, self.geo.width as int));
        }
        let lines = component.content(Some(Style::Red));
        let ghost rows_spec = boxed_spec(self.msg@, self.geo.width as int);
        let n = lines.len();
        let starty: usize = if n <= self.geo.term_height as usize {
            (self.geo.term_height as usize - n) / 2
        } else {
            0
        };
        let startx = self.geo.startx as usize;
        let mut ops: Vec<SurfaceOp> = Vec::new();
        ops.push(SurfaceOp::Clear);
        let mut i: usize = 0;
        proof {
            assert forall|j: int| 0 <= j < lines@.len() implies (#[trigger] lines@[j]).text@
                == rows_spec[j] && lines@[j].style is Red by {
                assert(crate::style::line_texts(lines@)[j] == lines@[j].text@);
            }
        }
        while i < n
            invariant
                i <= n,
                n == rows_spec.len(),
                n == lines@.len(),
                forall|j: int|
                    0 <= j < lines@.len() ==> (#[trigger] lines@[j]).text@ == rows_spec[j]
                        && lines@[j].style is Red,
                ops@.len() == 1 + 2 * i,
                ops@[0] is Clear,
                starty + n <= usize::MAX,
                startx == self.geo.startx as usize,
                starty as int == if n <= self.geo.term_height {
                    (self.geo.term_height - n) as int / 2
                } else {
                    0
                },
                forall|k: int|
                    0 <= k < i ==> #[trigger] ops@[1 + 2 * k] == SurfaceOp::MoveTo(
                        startx,
                        (starty + k) as usize,
                    ),
                forall|k: int|
                    0 <= k < i ==> ((#[trigger] ops@[2 + 2 * k]) matches SurfaceOp::Print(l)
                        && l.text@ == rows_spec[k] && l.style is Red),
            decreases n - i,
        {
            ops.push(SurfaceOp::MoveTo(startx, starty + i));
            ops.push(SurfaceOp::Print(lines[i].duplicate()));
            i = i + 1;
        }
        Ok(ops)
    }

    /// Re-derives the window's geometry after a terminal resize.
    pub fn resize(&mut self, term_dimens: (u16, u16))
        ensures
            final(self).msg == old(self).msg,
            final(self).geo.term_width == term_dimens.0,
            final(self).geo.term_height == term_dimens.1,
            final(self).geo.wf(),
    {
        self.geo.resize(term_dimens);
    }
}

} // verus!
