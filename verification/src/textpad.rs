//! The viewport: a window over the document buffer's flattened lines, drawn
//! and scrolled through an ordered sequence of surface commands.

use vstd::prelude::*;
use crate::component::ComponentKind;
use crate::component::Component;
use crate::doc::{count_posy_below, flat_styles, flat_texts, Components};
use crate::errors::LayoutError;
use crate::geometry::Geometry;
use crate::input::Direction;
use crate::style::{line_styles, line_texts, Line};

verus! {

/// One command for the terminal surface. The engine emits strictly ordered
/// sequences of these; executing them in order produces the intended screen.
#[derive(Debug)]
pub enum SurfaceOp {
    /// Clear the whole screen.
    Clear,
    /// Move the cursor to (column, row).
    MoveTo(usize, usize),
    /// Write one styled line at the cursor.
    Print(Line),
    /// Scroll the screen up by the given number of rows.
    ScrollUp(usize),
    /// Scroll the screen down by the given number of rows.
    ScrollDown(usize),
}

/// A scrollable pad of built components.
#[derive(Debug)]
pub struct TextPad {
    pub components: Components,
    pub content: Vec<Line>,
    pub first: usize,
}

/// How far a downward scroll by `lines` actually moves: never past the end
/// of the content, nothing when the content fits the screen, and at most one
/// screenful at a time.
pub open spec fn scroll_down_amount(len: int, first: int, th: int, lines: int) -> int {
    if len < th {
        0
    } else if first + th + lines >= len {
        if len >= first + th {
            if len - first - th <= th {
                len - first - th
            } else {
                th
            }
        } else {
            0
        }
    } else {
        if lines <= th {
            lines
        } else {
            th
        }
    }
}

/// How far an upward scroll by `lines` actually moves: never above row 0.
pub open spec fn scroll_up_amount(first: int, lines: int) -> int {
    if lines <= first {
        lines
    } else {
        first
    }
}

/// The viewport invariant: `first` never passes the last screenful.
pub open spec fn first_in_range(first: int, len: int, th: int) -> bool {
    first <= if len >= th {
        len - th
    } else {
        0
    }
}

/// The full-redraw command list: clear, then for every visible row a cursor
/// move to its screen row at `startx` and the row's styled line.
pub open spec fn draw_ops_spec(
    ops: Seq<SurfaceOp>,
    content: Seq<Line>,
    first: int,
    startx: int,
    th: int,
) -> bool {
    let count = visible_count(content.len() as int, first, th);
    &&& ops.len() == 1 + 2 * count
    &&& ops[0] is Clear
    &&& forall|k: int|
        0 <= k < count ==> #[trigger] ops[1 + 2 * k] == SurfaceOp::MoveTo(
            startx as usize,
            k as usize,
        )
    &&& forall|k: int|
        0 <= k < count ==> ((#[trigger] ops[2 + 2 * k]) matches SurfaceOp::Print(l) && l.text@
            == content[first + k].text@ && l.style == content[first + k].style)
}

/// The partial-redraw command list of one scroll: exactly one hardware
/// scroll of `m` rows, then a cursor move and a print for each of the `m`
/// newly revealed rows (the topmost `m` on a scroll up, the bottommost `m`
/// on a scroll down) — never a clear, never an unrelated row.
pub open spec fn scroll_ops_spec(
    ops: Seq<SurfaceOp>,
    content: Seq<Line>,
    startx: int,
    dir: Direction,
    m: int,
    new_first: int,
    th: int,
) -> bool {
    let draw_from: int = match dir {
        Direction::Up => 0,
        Direction::Down => th - m,
    };
    &&& ops.len() == 1 + 2 * m
    &&& ops[0] == (match dir {
        Direction::Up => SurfaceOp::ScrollDown(m as usize),
        Direction::Down => SurfaceOp::ScrollUp(m as usize),
    })
    &&& forall|k: int|
        0 <= k < m ==> #[trigger] ops[1 + 2 * k] == SurfaceOp::MoveTo(
            startx as usize,
            (draw_from + k) as usize,
        )
    &&& forall|k: int|
        0 <= k < m ==> ((#[trigger] ops[2 + 2 * k]) matches SurfaceOp::Print(l) && l.text@
            == content[new_first + draw_from + k].text@ && l.style == content[new_first
            + draw_from + k].style)
}

/// The index of the component at or before row `first`: the last component
/// starting above it, or the very first component.
pub open spec fn fv_index(items: Seq<Component>, first: int) -> int {
    let c = count_posy_below(items, first);
    if c == 0 {
        0
    } else {
        c - 1
    }
}

/// The index of the first component starting at or below `row`, or the last
/// component when none does.
pub open spec fn lv_index(items: Seq<Component>, row: int) -> int {
    let c = count_posy_below(items, row);
    if c < items.len() {
        c
    } else {
        items.len() - 1
    }
}

/// Where a downward component-boundary scroll aims: the start of the
/// component after the first visible one, or the end of the content.
pub open spec fn down_boundary(items: Seq<Component>, first: int, content_len: int) -> int {
    let fv = fv_index(items, first);
    if fv + 1 < items.len() {
        items[fv + 1].spec_posy()
    } else {
        content_len
    }
}

impl TextPad {
    /// The pad's lines mirror its built components.
    pub open spec fn wf(&self) -> bool {
        &&& self.components.wf()
        &&& line_texts(self.content@) == flat_texts(self.components.items@)
        &&& line_styles(self.content@) == flat_styles(self.components.items@)
    }

    /// A pad over the given blocks, built at the geometry's width, showing
    /// from row 0. Succeeds exactly when every block fits at that width and
    /// the total height fits the machine.
    pub fn new(components: Vec<ComponentKind>, geo: &Geometry) -> (r: Result<
        TextPad,
        LayoutError,
    >)
        ensures
            r is Ok <==> ((forall|i: int|
                0 <= i < components@.len() ==> crate::component::kind_build_ok(
                    #[trigger] components@[i],
                    geo.width as int,
                )) && crate::doc::total_kind_height(components@, geo.width as int)
                <= usize::MAX),
            r matches Ok(p) ==> {
                &&& p.wf()
                &&& p.first == 0
                &&& p.components.width == geo.width
                &&& p.components.items@.len() == components@.len()
                &&& forall|i: int|
                    0 <= i < components@.len() ==> (#[trigger] p.components.items@[i]).comp_type
                        == components@[i]
            },
    {
        let buffer = match Components::new(components, geo.width as usize) {
            Ok(b) => b,
            Err(e) => {
                return Err(e);
            },
        };
        let content = buffer.to_lines();
        Ok(TextPad { components: buffer, content, first: 0 })
    }

    /// Rebuilds the components at the geometry's current width; the stored
    /// lines are stale until [`TextPad::reset_content`] runs.
    pub fn build_components(&mut self, geo: &Geometry) -> (r: Result<(), LayoutError>)
        ensures
            final(self).first == old(self).first,
            final(self).content == old(self).content,
            final(self).components.items@.len() == old(self).components.items@.len(),
            r is Ok ==> final(self).components.contiguous(),
            r is Ok ==> forall|i: int|
                0 <= i < final(self).components.items@.len() ==> (#[trigger] final(self).components.items@[i]).is_built_spec(),
            r is Ok && old(self).components.wf() ==> final(self).components.wf() && final(self).components.width == geo.width,
            old(self).components.wf() ==> (r is Ok <==> crate::doc::rebuild_total(
                old(self).components.items@,
                old(self).components.width as int,
                geo.width as int,
            ) <= usize::MAX && (forall|i: int|
                0 <= i < old(self).components.items@.len() ==> (crate::doc::keeps(
                    #[trigger] old(self).components.items@[i],
                    old(self).components.width as int,
                    geo.width as int,
                ) || crate::component::kind_build_ok(
                    old(self).components.items@[i].comp_type,
                    geo.width as int,
                )))),
    {
        let ghost pre = self.components;
        let r = self.components.build(geo.width as usize);
        proof {
            if r is Ok && pre.wf() {
                assert forall|i: int| 0 <= i < self.components.items@.len() implies (
                #[trigger] self.components.items@[i]).spec_lines()
                    == crate::component::kind_build_lines(
                    self.components.items@[i].comp_type,
                    self.components.width as int,
                ) by {
                    assert(pre.items@[i].spec_lines() == crate::component::kind_build_lines(
                        pre.items@[i].comp_type,
                        pre.width as int,
                    ));
                }
            }
        }
        r
    }

    /// Refreshes the stored lines from the components (all must be built).
    pub fn reset_content(&mut self)
        requires
            forall|i: int|
                0 <= i < old(self).components.items@.len() ==> (#[trigger] old(
                    self,
                ).components.items@[i]).is_built_spec(),
        ensures
            final(self).components == old(self).components,
            final(self).first == old(self).first,
            line_texts(final(self).content@) == flat_texts(final(self).components.items@),
            line_styles(final(self).content@) == flat_styles(final(self).components.items@),
    {
        self.content = self.components.to_lines();
    }

    /// Rebuilds at the geometry's width and refreshes the lines. On a
    /// well-formed pad it succeeds exactly when every component rebuilds at
    /// the new width and the total height fits the machine.
    pub fn build(&mut self, geo: &Geometry) -> (r: Result<(), LayoutError>)
        ensures
            final(self).first == old(self).first,
            r is Ok && old(self).components.wf() ==> final(self).wf() && final(self).components.width == geo.width,
            r is Err ==> final(self).content == old(self).content,
            old(self).components.wf() ==> (r is Ok <==> crate::doc::rebuild_total(
                old(self).components.items@,
                old(self).components.width as int,
                geo.width as int,
            ) <= usize::MAX && (forall|i: int|
                0 <= i < old(self).components.items@.len() ==> (crate::doc::keeps(
                    #[trigger] old(self).components.items@[i],
                    old(self).components.width as int,
                    geo.width as int,
                ) || crate::component::kind_build_ok(
                    old(self).components.items@[i].comp_type,
                    geo.width as int,
                )))),
    {
        match self.build_components(geo) {
            Ok(()) => {
                self.reset_content();
                Ok(())
            },
            Err(e) => Err(e),
        }
    }

    /// The commands that draw the visible window: clear, then every visible
    /// line at its row, starting at the geometry's horizontal offset.
    pub fn draw(&self, geo: &Geometry) -> (ops: Vec<SurfaceOp>)
        ensures
            draw_ops_spec(
                ops@,
                self.content@,
                self.first as int,
                geo.startx as int,
                geo.term_height as int,
            ),
    {
        let mut ops: Vec<SurfaceOp> = Vec::new();
        ops.push(SurfaceOp::Clear);
        let th = geo.term_height as usize;
        let len = self.content.len();
        let count = if self.first >= len {
            0
        } else if len - self.first < th {
            len - self.first
        } else {
            th
        };
        let mut k: usize = 0;
        while k < count
            invariant
                k <= count,
                self.content@.len() <= usize::MAX,
                count == 0 || self.first + count <= self.content@.len(),
                ops@.len() == 1 + 2 * k,
                ops@[0] is Clear,
                forall|j: int|
                    0 <= j < k ==> #[trigger] ops@[1 + 2 * j] == SurfaceOp::MoveTo(
                        geo.startx as usize,
                        j as usize,
                    ),
                forall|j: int|
                    0 <= j < k ==> ((#[trigger] ops@[2 + 2 * j]) matches SurfaceOp::Print(l)
                        && l.text@ == self.content@[self.first + j].text@ && l.style
                        == self.content@[self.first + j].style),
            decreases count - k,
        {
            ops.push(SurfaceOp::MoveTo(geo.startx as usize, k));
            ops.push(SurfaceOp::Print(self.content[self.first + k].duplicate()));
            k = k + 1;
        }
        ops
    }

    /// The commands of a partial-redraw scroll by `lines` rows: a hardware
    /// scroll of the region, then only the newly revealed rows are printed.
    /// Scrolling up stops at row 0; scrolling down stops where the last
    /// screenful begins, and moves at most one screenful at a time.
    pub fn scroll_by_lines(&mut self, geo: &Geometry, dir: Direction, lines: usize) -> (ops: Vec<
        SurfaceOp,
    >)
        ensures
            final(self).components == old(self).components,
            final(self).content == old(self).content,
            dir is Up ==> final(self).first == old(self).first - scroll_up_amount(
                old(self).first as int,
                lines as int,
            ),
            dir is Down ==> final(self).first == old(self).first + scroll_down_amount(
                old(self).content@.len() as int,
                old(self).first as int,
                geo.term_height as int,
                lines as int,
            ),
            first_in_range(
                old(self).first as int,
                old(self).content@.len() as int,
                geo.term_height as int,
            ) ==> first_in_range(
                final(self).first as int,
                final(self).content@.len() as int,
                geo.term_height as int,
            ),
            first_in_range(
                old(self).first as int,
                old(self).content@.len() as int,
                geo.term_height as int,
            ) && dir is Up ==> scroll_ops_spec(
                ops@,
                old(self).content@,
                geo.startx as int,
                dir,
                scroll_up_amount(old(self).first as int, lines as int),
                final(self).first as int,
                geo.term_height as int,
            ),
            first_in_range(
                old(self).first as int,
                old(self).content@.len() as int,
                geo.term_height as int,
            ) && dir is Down ==> scroll_ops_spec(
                ops@,
                old(self).content@,
                geo.startx as int,
                dir,
                scroll_down_amount(
                    old(self).content@.len() as int,
                    old(self).first as int,
                    geo.term_height as int,
                    lines as int,
                ),
                final(self).first as int,
                geo.term_height as int,
            ),
    {
        let th = geo.term_height as usize;
        let len = self.content.len();
        match dir {
            Direction::Up => {
                let m = if lines <= self.first {
                    lines
                } else {
                    self.first
                };
                self.first = self.first - m;
                let printable = if self.first >= len {
                    0
                } else if len - self.first < m {
                    len - self.first
                } else {
                    m
                };
                let mut ops: Vec<SurfaceOp> = Vec::new();
                ops.push(SurfaceOp::ScrollDown(m));
                if printable > 0 {
                    self.push_rows(geo, &mut ops, 0, printable);
                }
                proof {
                    if first_in_range(
                        old(self).first as int,
                        old(self).content@.len() as int,
                        geo.term_height as int,
                    ) {
                        assert(printable == m);
                        assert forall|k: int| 0 <= k < m implies #[trigger] ops@[2 + 2 * k]
                            == ops@[1 + 2 * k + 1] by {
                            assert(2 + 2 * k == 1 + 2 * k + 1);
                        }
                    }
                }
                ops
            },
            Direction::Down => {
                let m = if len < th {
                    0
                } else {
                    let past_end = match self.first.checked_add(th) {
                        Some(last) => match last.checked_add(lines) {
                            Some(reach) => reach >= len,
                            None => true,
                        },
                        None => true,
                    };
                    if past_end {
                        let fits = match self.first.checked_add(th) {
                            Some(last) => last <= len,
                            None => false,
                        };
                        if fits {
                            let raw = len - self.first - th;
                            if raw <= th {
                                raw
                            } else {
                                th
                            }
                        } else {
                            0
                        }
                    } else {
                        if lines <= th {
                            lines
                        } else {
                            th
                        }
                    }
                };
                self.first = self.first + m;
                let draw_line = th - m;
                let printable = match self.first.checked_add(draw_line) {
                    Some(start) => {
                        if start >= len {
                            0
                        } else if len - start < m {
                            len - start
                        } else {
                            m
                        }
                    },
                    None => 0,
                };
                let mut ops: Vec<SurfaceOp> = Vec::new();
                ops.push(SurfaceOp::ScrollUp(m));
                if printable > 0 {
                    self.push_rows(geo, &mut ops, draw_line, printable);
                }
                proof {
                    if first_in_range(
                        old(self).first as int,
                        old(self).content@.len() as int,
                        geo.term_height as int,
                    ) {
                        assert(printable == m);
                        assert forall|k: int| 0 <= k < m implies #[trigger] ops@[2 + 2 * k]
                            == ops@[1 + 2 * k + 1] by {
                            assert(2 + 2 * k == 1 + 2 * k + 1);
                        }
                    }
                }
                ops
            },
        }
    }

    /// Appends exactly the commands that print `count` content rows starting
    /// at screen row `from` (reading content rows `first + from` onward): one
    /// cursor move and one print per row, nothing else.
    fn push_rows(&self, geo: &Geometry, ops: &mut Vec<SurfaceOp>, from: usize, count: usize)
        requires
            self.first + from + count <= self.content@.len(),
        ensures
            final(ops)@.len() == old(ops)@.len() + 2 * count,
            forall|j: int| 0 <= j < old(ops)@.len() ==> #[trigger] final(ops)@[j] == old(ops)@[j],
            forall|k: int|
                0 <= k < count ==> #[trigger] final(ops)@[old(ops)@.len() + 2 * k]
                    == SurfaceOp::MoveTo(geo.startx as usize, (from + k) as usize),
            forall|k: int|
                0 <= k < count ==> ((#[trigger] final(ops)@[old(ops)@.len() + 2 * k + 1])
                    matches SurfaceOp::Print(l) && l.text@ == self.content@[self.first + from
                    + k].text@ && l.style == self.content@[self.first + from + k].style),
    {
        let len = self.content.len();
        let mut k: usize = 0;
        while k < count
            invariant
                k <= count,
                len == self.content@.len(),
                self.first + from + count <= self.content@.len(),
                ops@.len() == old(ops)@.len() + 2 * k,
                forall|j: int| 0 <= j < old(ops)@.len() ==> #[trigger] ops@[j] == old(ops)@[j],
                forall|j: int|
                    0 <= j < k ==> #[trigger] ops@[old(ops)@.len() + 2 * j] == SurfaceOp::MoveTo(
                        geo.startx as usize,
                        (from + j) as usize,
                    ),
                forall|j: int|
                    0 <= j < k ==> ((#[trigger] ops@[old(ops)@.len() + 2 * j + 1])
                        matches SurfaceOp::Print(l) && l.text@ == self.content@[self.first
                        + from + j].text@ && l.style == self.content@[self.first + from
                        + j].style),
            decreases count - k,
        {
            let row = from + k;
            let idx = self.first + row;
            ops.push(SurfaceOp::MoveTo(geo.startx as usize, row));
            ops.push(SurfaceOp::Print(self.content[idx].duplicate()));
            k = k + 1;
        }
    }

    /// The commands that scroll by exactly one component boundary: down to
    /// where the next component after the first visible one begins, up to
    /// where the first visible one begins. The delta is a line count derived
    /// from the component positions, not a fixed row count.
    #[verifier::rlimit(60)]
    pub fn scroll_by_component(&mut self, geo: &Geometry, dir: Direction) -> (ops: Vec<
        SurfaceOp,
    >)
        requires
            old(self).components.contiguous(),
            old(self).components.items@.len() > 0,
            forall|i: int|
                0 <= i < old(self).components.items@.len() ==> (#[trigger] old(
                    self,
                ).components.items@[i]).is_built_spec(),
        ensures
            final(self).components == old(self).components,
            final(self).content == old(self).content,
            dir is Up ==> final(self).first as int == old(self).components.items@[fv_index(
                old(self).components.items@,
                old(self).first as int,
            )].spec_posy(),
            dir is Down ==> final(self).first as int == old(self).first + scroll_down_amount(
                old(self).content@.len() as int,
                old(self).first as int,
                geo.term_height as int,
                ({
                    let b = down_boundary(
                        old(self).components.items@,
                        old(self).first as int,
                        old(self).content@.len() as int,
                    );
                    if b >= old(self).first {
                        b - old(self).first
                    } else {
                        0
                    }
                }),
            ),
            first_in_range(
                old(self).first as int,
                old(self).content@.len() as int,
                geo.term_height as int,
            ) ==> first_in_range(
                final(self).first as int,
                final(self).content@.len() as int,
                geo.term_height as int,
            ),
            first_in_range(
                old(self).first as int,
                old(self).content@.len() as int,
                geo.term_height as int,
            ) && dir is Up ==> scroll_ops_spec(
                ops@,
                old(self).content@,
                geo.startx as int,
                dir,
                old(self).first - final(self).first,
                final(self).first as int,
                geo.term_height as int,
            ),
            first_in_range(
                old(self).first as int,
                old(self).content@.len() as int,
                geo.term_height as int,
            ) && dir is Down ==> scroll_ops_spec(
                ops@,
                old(self).content@,
                geo.startx as int,
                dir,
                final(self).first - old(self).first,
                final(self).first as int,
                geo.term_height as int,
            ),
    {
        let geo2 = *geo;
        match dir {
            Direction::Up => {
                let fv = self.first_visible_comp();
                let comp = match self.components.get(fv) {
                    Some(c) => c,
                    None => vstd::pervasive::unreached(),
                };
                let posy = comp.get_posy();
                let lines = if posy <= self.first {
                    self.first - posy
                } else {
                    0
                };
                self.scroll_by_lines(&geo2, Direction::Up, lines)
            },
            Direction::Down => {
                let n = self.components.len();
                let fv = self.first_visible_comp();
                let boundary = match self.components.get(fv + 1) {
                    Some(c) => c.get_posy(),
                    None => self.content.len(),
                };
                let lines = if boundary >= self.first {
                    boundary - self.first
                } else {
                    0
                };
                self.scroll_by_lines(&geo2, Direction::Down, lines)
            },
        }
    }

    /// The index of the component at or before the first visible row: the
    /// last component starting above `first`, or the very first component.
    pub fn first_visible_comp(&self) -> (r: usize)
        requires
            self.components.contiguous(),
            self.components.items@.len() > 0,
            forall|i: int|
                0 <= i < self.components.items@.len() ==> (#[trigger] self.components.items@[
                    i
                ]).is_built_spec(),
        ensures
            r as int == fv_index(self.components.items@, self.first as int),
            r < self.components.items@.len(),
            r == 0 || self.components.items@[r as int].spec_posy() < self.first,
            forall|i: int|
                r < i < self.components.items@.len() ==> (#[trigger] self.components.items@[
                    i
                ]).spec_posy() >= self.first,
    {
        let idx = self.components.partition_by_posy(self.first);
        if idx == 0 {
            0
        } else {
            idx - 1
        }
    }

    /// The index of the first component starting at or below the bottom of
    /// the window, or the last component when none does.
    pub fn last_visible_comp(&self, geo: &Geometry) -> (r: usize)
        requires
            self.components.contiguous(),
            self.components.items@.len() > 0,
            forall|i: int|
                0 <= i < self.components.items@.len() ==> (#[trigger] self.components.items@[
                    i
                ]).is_built_spec(),
        ensures
            r as int == lv_index(self.components.items@, self.first + geo.term_height),
            r < self.components.items@.len(),
            forall|i: int|
                0 <= i < r ==> (#[trigger] self.components.items@[i]).spec_posy() < self.first
                    + geo.term_height,
            r == self.components.items@.len() - 1 || self.components.items@[
                r as int
            ].spec_posy() >= self.first + geo.term_height,
    {
        let n = self.components.len();
        let idx = match self.first.checked_add(geo.term_height as usize) {
            Some(row) => self.components.partition_by_posy(row),
            None => {
                proof {
                    self.components.lemma_posy_monotone();
                    crate::doc::lemma_count_posy_is_partition(
                        self.components.items@,
                        self.first + geo.term_height,
                        n as int,
                    );
                }
                n
            },
        };
        if idx < n {
            idx
        } else {
            n - 1
        }
    }
}

/// The number of content rows visible in a window of height `th` starting at
/// row `first`.
pub open spec fn visible_count(len: int, first: int, th: int) -> int {
    if first >= len {
        0
    } else if len - first < th {
        len - first
    } else {
        th
    }
}

} // verus!
