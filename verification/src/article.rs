//! A plain scrolling pane of prebuilt lines: the simplest viewer, scrolling
//! one line at a time with partial redraws.

use vstd::prelude::*;
use crate::style::{Line, Style};
use crate::textpad::SurfaceOp;

verus! {

/// The flattened concatenation of the groups of lines.
pub open spec fn flatten_groups(groups: Seq<Seq<Seq<char>>>) -> Seq<Seq<char>>
    decreases groups.len(),
{
    if groups.len() == 0 {
        Seq::<Seq<char>>::empty()
    } else {
        flatten_groups(groups.drop_last()) + groups.last()
    }
}

/// A pane of plain text lines with a window of fixed height over them.
#[derive(Debug)]
pub struct Article {
    pub content: Vec<String>,
    pub first: usize,
    pub height: u16,
    pub width: u16,
}

impl Article {
    /// A pane over the given groups of lines, flattened in order, showing
    /// from the top.
    pub fn new(content: Vec<Vec<String>>, height: u16, width: u16) -> (r: Article)
        ensures
            r.content.deep_view() == flatten_groups(content.deep_view()),
            r.first == 0,
            r.height == height,
            r.width == width,
    {
        let ghost groups = content.deep_view();
        let n = content.len();
        let mut flat: Vec<String> = Vec::new();
        let mut rest = content;
        let mut i: usize = 0;
        proof {
            assert(flat.deep_view() =~~= flatten_groups(groups.take(0)));
            assert(rest.deep_view() =~~= groups.skip(0));
        }
        while i < n
            invariant
                i <= n,
                n == groups.len(),
                rest@.len() == n - i,
                rest.deep_view() == groups.skip(i as int),
                flat.deep_view() == flatten_groups(groups.take(i as int)),
            decreases n - i,
        {
            let ghost rv = rest.deep_view();
            let ghost rest_pre = rest@;
            let mut group = group_pop_front(&mut rest);
            proof {
                assert(rv[0] == rest_pre[0].deep_view());
                assert(group.deep_view() == rest_pre[0].deep_view());
                assert(rv[0] == groups[i as int]);
                assert(rest.deep_view() =~~= rv.skip(1));
                assert(groups.skip(i as int).skip(1) =~= groups.skip(i + 1));
            }
            flat.append(&mut group);
            proof {
                assert(groups.take(i + 1).drop_last() =~= groups.take(i as int));
                assert(groups.take(i + 1).last() == groups[i as int]);
                assert(flat.deep_view() =~~= flatten_groups(groups.take(i + 1)));
            }
            i = i + 1;
        }
        proof {
            assert(groups.take(n as int) =~= groups);
        }
        Article { content: flat, first: 0, height, width }
    }

    /// The commands that draw the window: clear, then the first `height`
    /// lines of the content from the current offset.
    pub fn draw(&self) -> (ops: Vec<SurfaceOp>)
        ensures
            ({
                let count = crate::textpad::visible_count(
                    self.content@.len() as int,
                    self.first as int,
                    self.height as int,
                );
                &&& ops@.len() == 1 + 2 * count
                &&& ops@[0] is Clear
                &&& forall|k: int|
                    0 <= k < count ==> #[trigger] ops@[1 + 2 * k] == SurfaceOp::MoveTo(
                        0,
                        k as usize,
                    )
                &&& forall|k: int|
                    0 <= k < count ==> ((#[trigger] ops@[2 + 2 * k]) matches SurfaceOp::Print(l)
                        && l.text@ == self.content@[self.first + k]@ && l.style is Plain)
            }),
    {
        let mut ops: Vec<SurfaceOp> = Vec::new();
        ops.push(SurfaceOp::Clear);
        let th = self.height as usize;
        let len = self.content.len();
        let count = if self.first >= len {
            0
        } else if len - self.first < th {
            len - self.first
        } else {
            th
        };
        let mut k: usize = 0;
        while k < count
            invariant
                k <= count,
                self.content@.len() <= usize::MAX,
                count == 0 || self.first + count <= self.content@.len(),
                ops@.len() == 1 + 2 * k,
                ops@[0] is Clear,
                forall|j: int|
                    0 <= j < k ==> #[trigger] ops@[1 + 2 * j] == SurfaceOp::MoveTo(
                        0,
                        j as usize,
                    ),
                forall|j: int|
                    0 <= j < k ==> ((#[trigger] ops@[2 + 2 * j]) matches SurfaceOp::Print(l)
                        && l.text@ == self.content@[self.first + j]@ && l.style is Plain),
            decreases count - k,
        {
            ops.push(SurfaceOp::MoveTo(0, k));
            ops.push(
                SurfaceOp::Print(
                    Line { text: self.content[self.first + k].clone(), style: Style::Plain },
                ),
            );
            k = k + 1;
        }
        ops
    }

    /// Scrolls one line back toward the top: reveals the line above the
    /// window, or does nothing at row 0.
    pub fn scroll_down(&mut self) -> (ops: Vec<SurfaceOp>)
        ensures
            final(self).content == old(self).content,
            final(self).height == old(self).height,
            final(self).width == old(self).width,
            old(self).first == 0 ==> final(self).first == 0 && ops@.len() == 0,
            old(self).first > 0 ==> {
                &&& final(self).first == old(self).first - 1
                &&& old(self).first - 1 < old(self).content@.len() ==> (ops@.len() == 3
                    && ops@[0] == SurfaceOp::ScrollDown(1) && ops@[1] == SurfaceOp::MoveTo(0, 0)
                    && (ops@[2] matches SurfaceOp::Print(l) && l.text@ == old(self).content@[old(
                    self,
                ).first - 1]@ && l.style is Plain))
            },
    {
        if self.first == 0 {
            return Vec::new();
        }
        self.first = self.first - 1;
        let mut ops: Vec<SurfaceOp> = Vec::new();
        ops.push(SurfaceOp::ScrollDown(1));
        ops.push(SurfaceOp::MoveTo(0, 0));
        if self.first < self.content.len() {
            ops.push(
                SurfaceOp::Print(
                    Line { text: self.content[self.first].clone(), style: Style::Plain },
                ),
            );
        }
        ops
    }

    /// Scrolls one line forward: reveals the next line below the window, or
    /// does nothing when the window already reaches the end.
    pub fn scroll_up(&mut self) -> (ops: Vec<SurfaceOp>)
        ensures
            final(self).content == old(self).content,
            final(self).height == old(self).height,
            final(self).width == old(self).width,
            old(self).first + old(self).height >= old(self).content@.len() ==> final(self).first
                == old(self).first && ops@.len() == 0,
            old(self).first + old(self).height < old(self).content@.len() ==> {
                &&& final(self).first == old(self).first + 1
                &&& ops@.len() == 3
                &&& ops@[0] == SurfaceOp::ScrollUp(1)
                &&& ops@[1] == SurfaceOp::MoveTo(0, old(self).height as usize)
                &&& (ops@[2] matches SurfaceOp::Print(l) && l.text@ == old(self).content@[old(
                    self,
                ).first + old(self).height]@ && l.style is Plain)
            },
    {
        let len = self.content.len();
        let reach = match self.first.checked_add(self.height as usize) {
            Some(v) => v,
            None => {
                return Vec::new();
            },
        };
        if reach >= len {
            return Vec::new();
        }
        self.first = self.first + 1;
        let mut ops: Vec<SurfaceOp> = Vec::new();
        ops.push(SurfaceOp::ScrollUp(1));
        ops.push(SurfaceOp::MoveTo(0, self.height as usize));
        ops.push(
            SurfaceOp::Print(
                Line {
                    text: self.content[self.first + self.height as usize - 1].clone(),
                    style: Style::Plain,
                },
            ),
        );
        ops
    }

    /// Adopts a new window size.
    pub fn resize(&mut self, nw: u16, nh: u16)
        ensures
            final(self).content == old(self).content,
            final(self).first == old(self).first,
            final(self).width == nw,
            final(self).height == nh,
    {
        self.width = nw;
        self.height = nh;
    }
}

/// Removes and returns the first group.
fn group_pop_front(v: &mut Vec<Vec<String>>) -> (r: Vec<String>)
    requires
        old(v)@.len() > 0,
    ensures
        r == old(v)@[0],
        final(v)@ == old(v)@.skip(1),
{
    let r = v.remove(0);
    proof {
        assert(final(v)@ =~= old(v)@.skip(1));
    }
    r
}

} // verus!
