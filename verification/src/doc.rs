//! The document buffer: an ordered sequence of components, each built into
//! lines with a vertical position, kept contiguous from row 0.

use vstd::prelude::*;
use crate::component::{kind_build_lines, kind_build_ok, Component, ComponentKind};
use crate::errors::LayoutError;
use crate::style::{line_styles, line_texts, FeedItemColor, Line, Style};

verus! {

/// The total height of freshly built blocks at `width`.
pub open spec fn total_kind_height(kinds: Seq<ComponentKind>, width: int) -> int
    decreases kinds.len(),
{
    if kinds.len() == 0 {
        0
    } else {
        total_kind_height(kinds.drop_last(), width) + kind_build_lines(
            kinds.last(),
            width,
        ).len()
    }
}

/// On a buffer of fresh, unbuilt components a rebuild stacks exactly the
/// heights their blocks build to.
pub proof fn lemma_total_fresh(items: Seq<Component>, kinds: Seq<ComponentKind>, ow: int, nw: int)
    requires
        items.len() == kinds.len(),
        forall|i: int|
            0 <= i < items.len() ==> !(#[trigger] items[i]).is_built_spec() && items[i].comp_type
                == kinds[i],
    ensures
        rebuild_total(items, ow, nw) == total_kind_height(kinds, nw),
    decreases items.len(),
{
    if items.len() > 0 {
        assert(forall|i: int|
            0 <= i < items.drop_last().len() ==> #[trigger] items.drop_last()[i] == items[i]);
        assert(forall|i: int|
            0 <= i < kinds.drop_last().len() ==> #[trigger] kinds.drop_last()[i] == kinds[i]);
        lemma_total_fresh(items.drop_last(), kinds.drop_last(), ow, nw);
        assert(items.last() == items[items.len() - 1]);
        assert(kinds.last() == kinds[kinds.len() - 1]);
    }
}

/// The flattened texts of a sequence of built components.
pub open spec fn flat_texts(items: Seq<Component>) -> Seq<Seq<char>>
    decreases items.len(),
{
    if items.len() == 0 {
        Seq::<Seq<char>>::empty()
    } else {
        flat_texts(items.drop_last()) + items.last().spec_lines()
    }
}

/// The styles the flattened lines carry: each component's lines all carry its
/// effective style.
pub open spec fn flat_styles(items: Seq<Component>) -> Seq<Style>
    decreases items.len(),
{
    if items.len() == 0 {
        Seq::<Style>::empty()
    } else {
        flat_styles(items.drop_last()) + Seq::new(
            items.last().spec_lines().len(),
            |i: int| items.last().effective_style(),
        )
    }
}

/// Buffers whose components hold the same lines and effective styles
/// flatten to the same lines.
pub proof fn lemma_flat_pointwise(a: Seq<Component>, b: Seq<Component>)
    requires
        a.len() == b.len(),
        forall|i: int|
            0 <= i < a.len() ==> (#[trigger] a[i]).spec_lines() == b[i].spec_lines() && a[
                i
            ].effective_style() == b[i].effective_style(),
    ensures
        flat_texts(a) == flat_texts(b),
        flat_styles(a) == flat_styles(b),
    decreases a.len(),
{
    if a.len() > 0 {
        assert(forall|i: int|
            0 <= i < a.drop_last().len() ==> #[trigger] a.drop_last()[i] == a[i]);
        assert(forall|i: int|
            0 <= i < b.drop_last().len() ==> #[trigger] b.drop_last()[i] == b[i]);
        lemma_flat_pointwise(a.drop_last(), b.drop_last());
        assert(a.last() == a[a.len() - 1]);
        assert(b.last() == b[b.len() - 1]);
        assert(Seq::new(a.last().spec_lines().len(), |i: int| a.last().effective_style())
            =~= Seq::new(b.last().spec_lines().len(), |i: int| b.last().effective_style()));
    }
}

/// How many components start strictly above `row`.
pub open spec fn count_posy_below(items: Seq<Component>, row: int) -> int
    decreases items.len(),
{
    if items.len() == 0 {
        0
    } else {
        count_posy_below(items.drop_last(), row) + if items.last().spec_posy() < row {
            1int
        } else {
            0int
        }
    }
}

/// How many components end at or before `row`.
pub open spec fn count_ended(items: Seq<Component>, row: int) -> int
    decreases items.len(),
{
    if items.len() == 0 {
        0
    } else {
        count_ended(items.drop_last(), row) + if items.last().spec_posy()
            + items.last().spec_height() <= row {
            1int
        } else {
            0int
        }
    }
}

/// A partition index (everything below on the left, everything at-or-above
/// on the right) is exactly the count of elements below.
pub proof fn lemma_count_posy_is_partition(items: Seq<Component>, row: int, idx: int)
    requires
        0 <= idx <= items.len(),
        forall|i: int| 0 <= i < idx ==> (#[trigger] items[i]).spec_posy() < row,
        forall|i: int| idx <= i < items.len() ==> (#[trigger] items[i]).spec_posy() >= row,
    ensures
        count_posy_below(items, row) == idx,
    decreases items.len(),
{
    if items.len() > 0 {
        assert(forall|i: int|
            0 <= i < items.drop_last().len() ==> #[trigger] items.drop_last()[i] == items[i]);
        if idx == items.len() {
            lemma_count_posy_is_partition(items.drop_last(), row, idx - 1);
        } else {
            lemma_count_posy_is_partition(items.drop_last(), row, idx);
        }
    }
}

/// The same, for the component-end partition.
pub proof fn lemma_count_ended_is_partition(items: Seq<Component>, row: int, idx: int)
    requires
        0 <= idx <= items.len(),
        forall|i: int|
            0 <= i < idx ==> (#[trigger] items[i]).spec_posy() + items[i].spec_height() <= row,
        forall|i: int|
            idx <= i < items.len() ==> (#[trigger] items[i]).spec_posy()
                + items[i].spec_height() > row,
    ensures
        count_ended(items, row) == idx,
    decreases items.len(),
{
    if items.len() > 0 {
        assert(forall|i: int|
            0 <= i < items.drop_last().len() ==> #[trigger] items.drop_last()[i] == items[i]);
        if idx == items.len() {
            lemma_count_ended_is_partition(items.drop_last(), row, idx - 1);
        } else {
            lemma_count_ended_is_partition(items.drop_last(), row, idx);
        }
    }
}

/// Contiguity as a property of the bare sequence.
pub open spec fn contig_seq(items: Seq<Component>) -> bool {
    &&& (items.len() > 0 ==> items[0].spec_posy() == 0)
    &&& forall|i: int|
        0 < i < items.len() ==> (#[trigger] items[i]).spec_posy() == items[i - 1].spec_posy()
            + items[i - 1].spec_height()
}

/// An ordered buffer of components and the width they were last built at.
#[derive(Debug)]
pub struct Components {
    pub items: Vec<Component>,
    pub width: usize,
}

/// Whether a rebuild at `new_width` keeps a component as it is: only when the
/// width is unchanged and the component is already built.
pub open spec fn keeps(c: Component, old_width: int, new_width: int) -> bool {
    old_width == new_width && c.is_built_spec()
}

/// The height a component has after a rebuild at `new_width`.
pub open spec fn new_height(c: Component, old_width: int, new_width: int) -> int {
    if keeps(c, old_width, new_width) {
        c.spec_height()
    } else {
        kind_build_lines(c.comp_type, new_width).len() as int
    }
}

/// The total number of lines the buffer holds after a rebuild at `new_width`.
pub open spec fn rebuild_total(items: Seq<Component>, old_width: int, new_width: int) -> int
    decreases items.len(),
{
    if items.len() == 0 {
        0
    } else {
        rebuild_total(items.drop_last(), old_width, new_width) + new_height(
            items.last(),
            old_width,
            new_width,
        )
    }
}

/// Rebuild totals add over concatenation.
pub proof fn lemma_rebuild_total_app(a: Seq<Component>, b: Seq<Component>, ow: int, nw: int)
    ensures
        rebuild_total(a + b, ow, nw) == rebuild_total(a, ow, nw) + rebuild_total(b, ow, nw),
    decreases b.len(),
{
    if b.len() == 0 {
        assert(a + b =~= a);
    } else {
        assert((a + b).drop_last() =~= a + b.drop_last());
        assert((a + b).last() == b.last());
        lemma_rebuild_total_app(a, b.drop_last(), ow, nw);
    }
}

/// On a fully built buffer, an unchanged-width rebuild stacks exactly the
/// heights already held: the row just below the last component.
pub proof fn lemma_rebuild_total_kept(items: Seq<Component>, w: int)
    requires
        contig_seq(items),
        forall|i: int| 0 <= i < items.len() ==> (#[trigger] items[i]).is_built_spec(),
    ensures
        rebuild_total(items, w, w) == if items.len() == 0 {
            0int
        } else {
            items.last().spec_posy() + items.last().spec_height()
        },
    decreases items.len(),
{
    if items.len() > 0 {
        assert(forall|i: int|
            0 <= i < items.drop_last().len() ==> #[trigger] items.drop_last()[i] == items[i]);
        lemma_rebuild_total_kept(items.drop_last(), w);
        assert(items.last() == items[items.len() - 1]);
        assert(keeps(items.last(), w, w));
        if items.len() >= 2 {
            assert(items[items.len() - 1].spec_posy() == items[items.len() - 2].spec_posy()
                + items[items.len() - 2].spec_height());
        }
    }
}

/// A prefix never stacks higher than the whole.
proof fn lemma_rebuild_total_mono(items: Seq<Component>, ow: int, nw: int, k: int)
    requires
        0 <= k <= items.len(),
    ensures
        rebuild_total(items.take(k), ow, nw) <= rebuild_total(items, ow, nw),
    decreases items.len() - k,
{
    if k < items.len() {
        lemma_rebuild_total_mono(items, ow, nw, k + 1);
        assert(items.take(k + 1).drop_last() =~= items.take(k));
        assert(items.take(k + 1).last() == items[k]);
    } else {
        assert(items.take(k) =~= items);
    }
}

/// After inserting fresh blocks before a built, contiguous buffer, a
/// same-width rebuild stacks the new blocks' heights atop the old total, and
/// a component passes the rebuild exactly when it is an old one or its new
/// block fits.
proof fn lemma_prepended_condition(
    mixed: Seq<Component>,
    pre: Seq<Component>,
    kinds: Seq<ComponentKind>,
    width: int,
)
    requires
        mixed.len() == kinds.len() + pre.len(),
        forall|t: int|
            0 <= t < kinds.len() ==> !(#[trigger] mixed[t]).is_built_spec() && mixed[t].comp_type
                == kinds[t],
        forall|t: int| 0 <= t < pre.len() ==> #[trigger] mixed[kinds.len() + t] == pre[t],
        contig_seq(pre),
        forall|t: int| 0 <= t < pre.len() ==> (#[trigger] pre[t]).is_built_spec(),
    ensures
        rebuild_total(mixed, width, width) == total_kind_height(kinds, width) + (if pre.len()
            == 0 {
            0int
        } else {
            pre.last().spec_posy() + pre.last().spec_height()
        }),
        forall|t: int|
            0 <= t < mixed.len() ==> ((keeps(#[trigger] mixed[t], width, width)
                || kind_build_ok(mixed[t].comp_type, width)) == (t >= kinds.len()
                || kind_build_ok(kinds[t], width))),
{
    let n = kinds.len() as int;
    let a = mixed.take(n);
    let b = mixed.skip(n);
    assert(mixed =~= a + b);
    assert forall|t: int| 0 <= t < b.len() implies b[t] == pre[t] by {
        assert(mixed[kinds.len() + t] == pre[t]);
    }
    assert(b =~= pre);
    assert(forall|t: int|
        0 <= t < a.len() ==> !(#[trigger] a[t]).is_built_spec() && a[t].comp_type == kinds[t]);
    lemma_total_fresh(a, kinds, width, width);
    lemma_rebuild_total_app(a, b, width, width);
    lemma_rebuild_total_kept(pre, width);
    assert forall|t: int| 0 <= t < mixed.len() implies ((keeps(#[trigger] mixed[t], width, width)
        || kind_build_ok(mixed[t].comp_type, width)) == (t >= n || kind_build_ok(
        kinds[t],
        width,
    ))) by {
        if t < n {
            assert(!mixed[t].is_built_spec());
            assert(mixed[t].comp_type == kinds[t]);
        } else {
            assert(mixed[t] == pre[t - n]);
            assert(keeps(mixed[t], width, width));
        }
    }
}

/// After the rebuild of a prepended buffer, every component's lines match
/// its block again, the new components carry the new blocks, and the kept
/// ones keep their styles.
proof fn lemma_prepended_wf(
    cur: Seq<Component>,
    mixed: Seq<Component>,
    pre: Seq<Component>,
    kinds: Seq<ComponentKind>,
    width: int,
)
    requires
        cur.len() == mixed.len(),
        mixed.len() == kinds.len() + pre.len(),
        forall|j: int|
            0 <= j < cur.len() ==> (#[trigger] cur[j]).comp_type == mixed[j].comp_type,
        forall|j: int|
            0 <= j < cur.len() ==> (#[trigger] cur[j]).spec_lines() == (if keeps(
                mixed[j],
                width,
                width,
            ) {
                mixed[j].spec_lines()
            } else {
                kind_build_lines(mixed[j].comp_type, width)
            }),
        forall|j: int|
            0 <= j < cur.len() ==> (#[trigger] cur[j]).spec_style() == (if keeps(
                mixed[j],
                width,
                width,
            ) {
                mixed[j].spec_style()
            } else {
                None::<Style>
            }),
        forall|t: int|
            0 <= t < kinds.len() ==> !(#[trigger] mixed[t]).is_built_spec() && mixed[t].comp_type
                == kinds[t],
        forall|t: int| 0 <= t < pre.len() ==> #[trigger] mixed[kinds.len() + t] == pre[t],
        forall|t: int|
            0 <= t < pre.len() ==> (#[trigger] pre[t]).spec_lines() == kind_build_lines(
                pre[t].comp_type,
                width,
            ),
        forall|t: int| 0 <= t < pre.len() ==> (#[trigger] pre[t]).is_built_spec(),
    ensures
        forall|j: int|
            0 <= j < cur.len() ==> (#[trigger] cur[j]).spec_lines() == kind_build_lines(
                cur[j].comp_type,
                width,
            ),
        forall|i: int| 0 <= i < kinds.len() ==> (#[trigger] cur[i]).comp_type == kinds[i],
        forall|i: int|
            0 <= i < pre.len() ==> cur[kinds.len() + i].comp_type == (
            #[trigger] pre[i]).comp_type && cur[kinds.len() + i].spec_style()
                == pre[i].spec_style(),
{
    let n = kinds.len() as int;
    assert forall|j: int| 0 <= j < cur.len() implies (#[trigger] cur[j]).spec_lines()
        == kind_build_lines(cur[j].comp_type, width) by {
        if keeps(mixed[j], width, width) {
            assert(j >= n);
            assert(mixed[kinds.len() + (j - n)] == pre[j - n]);
            assert(mixed[j] == pre[j - n]);
            assert(pre[j - n].spec_lines() == kind_build_lines(pre[j - n].comp_type, width));
        }
    }
    assert forall|i: int| 0 <= i < pre.len() implies cur[kinds.len() + i].comp_type == (
    #[trigger] pre[i]).comp_type && cur[kinds.len() + i].spec_style()
        == pre[i].spec_style() by {
        assert(mixed[kinds.len() + i] == pre[i]);
        assert(keeps(mixed[kinds.len() + i], width, width));
    }
}

impl Components {
    /// Every component sits exactly below its predecessor: the first at row
    /// 0, each next at the previous position plus the previous height.
    pub open spec fn contiguous(&self) -> bool {
        contig_seq(self.items@)
    }

    /// The buffer is fully built: every component is built, holds exactly the
    /// lines its block builds to at the stored width, and the positions are
    /// contiguous.
    pub open spec fn wf(&self) -> bool {
        &&& forall|i: int|
            0 <= i < self.items@.len() ==> (#[trigger] self.items@[i]).is_built_spec()
        &&& forall|i: int|
            0 <= i < self.items@.len() ==> (#[trigger] self.items@[i]).spec_lines()
                == kind_build_lines(self.items@[i].comp_type, self.width as int)
        &&& self.contiguous()
        &&& self.total_lines() <= usize::MAX
    }

    /// The row just below the last component: the total number of lines.
    pub open spec fn total_lines(&self) -> int {
        if self.items@.len() == 0 {
            0
        } else {
            self.items@.last().spec_posy() + self.items@.last().spec_height()
        }
    }

    /// Positions never decrease along the buffer.
    pub proof fn lemma_posy_monotone(&self)
        requires
            self.contiguous(),
        ensures
            forall|i: int, j: int|
                0 <= i <= j < self.items@.len() ==> (#[trigger] self.items@[i]).spec_posy()
                    <= (#[trigger] self.items@[j]).spec_posy(),
            forall|i: int|
                0 <= i < self.items@.len() ==> (#[trigger] self.items@[i]).spec_posy()
                    + self.items@[i].spec_height() <= self.total_lines(),
    {
        assert forall|i: int, j: int| 0 <= i <= j < self.items@.len() implies (
        #[trigger] self.items@[i]).spec_posy() <= (#[trigger] self.items@[j]).spec_posy() by {
            self.lemma_posy_le(i, j);
        }
        assert forall|i: int| 0 <= i < self.items@.len() implies (
        #[trigger] self.items@[i]).spec_posy() + self.items@[i].spec_height()
            <= self.total_lines() by {
            self.lemma_end_le(i);
        }
    }

    /// Helper: positions grow with the index.
    proof fn lemma_posy_le(&self, i: int, j: int)
        requires
            self.contiguous(),
            0 <= i <= j < self.items@.len(),
        ensures
            self.items@[i].spec_posy() <= self.items@[j].spec_posy(),
        decreases j - i,
    {
        if i < j {
            self.lemma_posy_le(i, j - 1);
        }
    }

    /// Helper: a component ends no lower than the buffer's total.
    proof fn lemma_end_le(&self, i: int)
        requires
            self.contiguous(),
            0 <= i < self.items@.len(),
        ensures
            self.items@[i].spec_posy() + self.items@[i].spec_height() <= self.total_lines(),
        decreases self.items@.len() - i,
    {
        if i < self.items@.len() - 1 {
            self.lemma_end_le(i + 1);
        }
    }

    /// Builds (or repacks) every component at `new_width`, assigning
    /// contiguous positions from row 0. When the width is unchanged, an
    /// already built component keeps its lines and style and only its
    /// position is recomputed; otherwise it is rebuilt and its style override
    /// is discarded. Succeeds exactly when every component to rebuild fits at
    /// `new_width` and the total height fits the machine.
    pub fn build(&mut self, new_width: usize) -> (r: Result<(), LayoutError>)
        ensures
            final(self).items@.len() == old(self).items@.len(),
            forall|i: int|
                0 <= i < final(self).items@.len() ==> (#[trigger] final(self).items@[i]).comp_type == old(self).items@[i].comp_type,
            r is Ok <==> ((forall|i: int|
                0 <= i < old(self).items@.len() ==> (keeps(
                    #[trigger] old(self).items@[i],
                    old(self).width as int,
                    new_width as int,
                ) || kind_build_ok(old(self).items@[i].comp_type, new_width as int)))
                && rebuild_total(
                old(self).items@,
                old(self).width as int,
                new_width as int,
            ) <= usize::MAX),
            r is Ok ==> {
                &&& final(self).width == new_width
                &&& final(self).contiguous()
                &&& final(self).total_lines() == rebuild_total(
                    old(self).items@,
                    old(self).width as int,
                    new_width as int,
                )
                &&& forall|i: int|
                    0 <= i < final(self).items@.len() ==> (#[trigger] final(self).items@[i]).is_built_spec()
                &&& forall|i: int|
                    0 <= i < final(self).items@.len() ==> (#[trigger] final(self).items@[i]).spec_lines() == (if keeps(
                        old(self).items@[i],
                        old(self).width as int,
                        new_width as int,
                    ) {
                        old(self).items@[i].spec_lines()
                    } else {
                        kind_build_lines(old(self).items@[i].comp_type, new_width as int)
                    })
                &&& forall|i: int|
                    0 <= i < final(self).items@.len() ==> (#[trigger] final(self).items@[i]).spec_style() == (if keeps(
                        old(self).items@[i],
                        old(self).width as int,
                        new_width as int,
                    ) {
                        old(self).items@[i].spec_style()
                    } else {
                        None::<Style>
                    })
            },
            r is Err ==> final(self).width == old(self).width,
    {
        let ghost ow = self.width as int;
        let ghost orig = self.items@;
        let same_width = self.width == new_width;
        let n = self.items.len();
        let mut posy: usize = 0;
        let mut i: usize = 0;
        proof {
            assert(orig.take(0) =~= Seq::<Component>::empty());
        }
        while i < n
            invariant
                i <= n,
                n == self.items@.len(),
                orig.len() == n,
                orig == old(self).items@,
                ow == old(self).width as int,
                same_width == (ow == new_width as int),
                self.width as int == ow,
                posy as int == rebuild_total(orig.take(i as int), ow, new_width as int),
                forall|i0: int|
                    i <= i0 < n ==> #[trigger] self.items@[i0] == orig[i0],
                forall|i0: int|
                    0 <= i0 < n ==> (#[trigger] self.items@[i0]).comp_type
                        == orig[i0].comp_type,
                forall|i0: int|
                    0 <= i0 < i ==> (#[trigger] self.items@[i0]).is_built_spec(),
                forall|i0: int|
                    0 <= i0 < i ==> (#[trigger] self.items@[i0]).spec_lines() == (if keeps(
                        orig[i0],
                        ow,
                        new_width as int,
                    ) {
                        orig[i0].spec_lines()
                    } else {
                        kind_build_lines(orig[i0].comp_type, new_width as int)
                    }),
                forall|i0: int|
                    0 <= i0 < i ==> (#[trigger] self.items@[i0]).spec_style() == (if keeps(
                        orig[i0],
                        ow,
                        new_width as int,
                    ) {
                        orig[i0].spec_style()
                    } else {
                        None::<Style>
                    }),
                i > 0 ==> self.items@[0].spec_posy() == 0,
                forall|i0: int|
                    0 < i0 < i ==> (#[trigger] self.items@[i0]).spec_posy()
                        == self.items@[i0 - 1].spec_posy() + self.items@[i0 - 1].spec_height(),
                i > 0 ==> posy as int == self.items@[i - 1].spec_posy() + self.items@[i
                    - 1].spec_height(),
                forall|i0: int|
                    0 <= i0 < i ==> (keeps(#[trigger] orig[i0], ow, new_width as int)
                        || kind_build_ok(orig[i0].comp_type, new_width as int)),
            decreases n - i,
        {
            let comp = &mut self.items[i];
            let built = comp.is_built();
            if same_width && built {
                comp.set_posy(posy);
            } else {
                match comp.build(new_width, posy) {
                    Ok(()) => {},
                    Err(e) => {
                        return Err(e);
                    },
                }
            }
            let h = comp.height();
            match posy.checked_add(h) {
                Some(next) => {
                    posy = next;
                },
                None => {
                    proof {
                        assert(orig.take(i + 1).drop_last() =~= orig.take(i as int));
                        assert(orig.take(i + 1).last() == orig[i as int]);
                        lemma_rebuild_total_mono(orig, ow, new_width as int, i + 1);
                    }
                    return Err(LayoutError::Overflow);
                },
            }
            proof {
                assert(orig.take(i + 1).drop_last() =~= orig.take(i as int));
                assert(orig.take(i + 1).last() == orig[i as int]);
            }
            i = i + 1;
        }
        proof {
            assert(orig.take(n as int) =~= orig);
        }
        self.width = new_width;
        Ok(())
    }

    /// A buffer holding the given blocks, built at `width`. Succeeds exactly
    /// when every block fits at `width` and the total height fits the
    /// machine.
    #[verifier::rlimit(100)]
    pub fn new(comps: Vec<ComponentKind>, width: usize) -> (r: Result<Components, LayoutError>)
        ensures
            r is Ok <==> ((forall|i: int|
                0 <= i < comps@.len() ==> kind_build_ok(#[trigger] comps@[i], width as int))
                && total_kind_height(comps@, width as int) <= usize::MAX),
            r matches Ok(c) ==> {
                &&& c.wf()
                &&& c.width == width
                &&& c.items@.len() == comps@.len()
                &&& forall|i: int|
                    0 <= i < c.items@.len() ==> (#[trigger] c.items@[i]).comp_type == comps@[i]
                &&& c.total_lines() == total_kind_height(comps@, width as int)
            },
    {
        let ghost kinds = comps@;
        let n = comps.len();
        let mut remaining = comps;
        let mut items: Vec<Component> = Vec::new();
        let mut i: usize = 0;
        proof {
            assert(kinds.skip(0) =~= kinds);
        }
        while i < n
            invariant
                i <= n,
                n == kinds.len(),
                items@.len() == i,
                remaining@ == kinds.skip(i as int),
                forall|j: int|
                    0 <= j < i ==> !(#[trigger] items@[j]).is_built_spec()
                        && items@[j].comp_type == kinds[j],
            decreases n - i,
        {
            let kind = pop_front(&mut remaining);
            proof {
                assert(kinds.skip(i as int)[0] == kinds[i as int]);
                assert(kinds.skip(i as int).skip(1) =~= kinds.skip(i + 1));
            }
            items.push(Component::new(kind));
            i = i + 1;
        }
        let mut buffer = Components { items, width };
        let ghost fresh = buffer.items@;
        proof {
            lemma_total_fresh(fresh, kinds, width as int, width as int);
            assert forall|j: int| 0 <= j < fresh.len() implies ((keeps(
                #[trigger] fresh[j],
                width as int,
                width as int,
            ) || kind_build_ok(fresh[j].comp_type, width as int)) == kind_build_ok(
                #[trigger] kinds[j],
                width as int,
            )) by {
                assert(fresh[j].comp_type == kinds[j]);
                assert(!keeps(fresh[j], width as int, width as int));
            }
        }
        match buffer.build(width) {
            Ok(()) => {
                proof {
                    assert forall|j: int| 0 <= j < buffer.items@.len() implies (
                    #[trigger] buffer.items@[j]).spec_lines() == kind_build_lines(
                        buffer.items@[j].comp_type,
                        width as int,
                    ) by {
                        assert(!keeps(fresh[j], width as int, width as int));
                    }
                    assert(buffer.total_lines() <= usize::MAX);
                    assert(buffer.wf());
                }
                Ok(buffer)
            },
            Err(e) => Err(e),
        }
    }

    /// The number of components held.
    pub fn len(&self) -> (r: usize)
        ensures
            r == self.items@.len(),
    {
        self.items.len()
    }

    /// All components' drawable lines, flattened in order; this is what is
    /// drawn. Every component must be built.
    pub fn to_lines(&self) -> (r: Vec<Line>)
        requires
            forall|i: int|
                0 <= i < self.items@.len() ==> (#[trigger] self.items@[i]).is_built_spec(),
        ensures
            line_texts(r@) == flat_texts(self.items@),
            line_styles(r@) == flat_styles(self.items@),
    {
        let n = self.items.len();
        let mut r: Vec<Line> = Vec::new();
        let mut i: usize = 0;
        proof {
            assert(line_texts(r@) =~= flat_texts(self.items@.take(0)));
            assert(line_styles(r@) =~= flat_styles(self.items@.take(0)));
        }
        while i < n
            invariant
                i <= n,
                n == self.items@.len(),
                forall|j: int|
                    0 <= j < n ==> (#[trigger] self.items@[j]).is_built_spec(),
                line_texts(r@) == flat_texts(self.items@.take(i as int)),
                line_styles(r@) == flat_styles(self.items@.take(i as int)),
            decreases n - i,
        {
            let ghost prev = r@;
            let mut chunk = self.items[i].content(None);
            r.append(&mut chunk);
            proof {
                let items = self.items@;
                assert(items.take(i + 1).drop_last() =~= items.take(i as int));
                assert(items.take(i + 1).last() == items[i as int]);
                assert(line_texts(r@) =~= flat_texts(items.take(i + 1)));
                assert(line_styles(r@) =~= flat_styles(items.take(i + 1)));
            }
            i = i + 1;
        }
        proof {
            assert(self.items@.take(n as int) =~= self.items@);
        }
        r
    }

    /// Inserts the blocks before the first component, unbuilt and in order;
    /// the buffer must be rebuilt before its lines or positions are read.
    pub fn push_front(&mut self, new_items: Vec<ComponentKind>)
        ensures
            final(self).width == old(self).width,
            final(self).items@.len() == old(self).items@.len() + new_items@.len(),
            forall|j: int|
                0 <= j < new_items@.len() ==> !(#[trigger] final(self).items@[j]).is_built_spec()
                    && final(self).items@[j].comp_type == new_items@[j],
            forall|j: int|
                0 <= j < old(self).items@.len() ==> final(self).items@[new_items@.len() + j]
                    == #[trigger] old(self).items@[j],
    {
        let ghost kinds = new_items@;
        let ghost orig = self.items@;
        let mut rest = new_items;
        while rest.len() > 0
            invariant
                rest@.len() <= kinds.len(),
                rest@ == kinds.take(rest@.len() as int),
                self.width == old(self).width,
                self.items@.len() == orig.len() + kinds.len() - rest@.len(),
                orig == old(self).items@,
                forall|j: int|
                    0 <= j < kinds.len() - rest@.len() ==> !(#[trigger] self.items@[j]).is_built_spec()
                        && self.items@[j].comp_type == kinds[rest@.len() + j],
                forall|j: int|
                    0 <= j < orig.len() ==> self.items@[kinds.len() - rest@.len() + j]
                        == #[trigger] orig[j],
            decreases rest@.len(),
        {
            let ghost rest0 = rest@;
            let kind = match rest.pop() {
                Some(k) => k,
                None => vstd::pervasive::unreached(),
            };
            proof {
                assert(rest0.drop_last() =~= kinds.take(rest0.len() - 1));
                assert(kind == kinds[rest0.len() - 1]);
            }
            self.items.insert(0, Component::new(kind));
        }
    }

    /// The component at `index`, when there is one.
    pub fn get(&self, index: usize) -> (r: Option<&Component>)
        ensures
            r is Some <==> index < self.items@.len(),
            r matches Some(c) ==> *c == self.items@[index as int],
    {
        if index < self.items.len() {
            Some(&self.items[index])
        } else {
            None
        }
    }

    /// The first component; asking an empty buffer is a programming error,
    /// excluded by contract.
    pub fn first(&self) -> (r: &Component)
        requires
            self.items@.len() > 0,
        ensures
            *r == self.items@[0],
    {
        &self.items[0]
    }

    /// The last component; asking an empty buffer is a programming error,
    /// excluded by contract.
    pub fn last(&self) -> (r: &Component)
        requires
            self.items@.len() > 0,
        ensures
            *r == self.items@[self.items@.len() - 1],
    {
        &self.items[self.items.len() - 1]
    }

    /// Inserts the blocks before the first component and rebuilds everything
    /// at the stored width. Succeeds exactly when every new block fits and
    /// the grown stack fits the machine; the kept components' lines and
    /// styles carry over.
    #[verifier::rlimit(100)]
    pub fn prepend_and_rebuild(&mut self, kinds: Vec<ComponentKind>) -> (r: Result<
        (),
        LayoutError,
    >)
        requires
            old(self).wf(),
        ensures
            r is Ok <==> ((forall|i: int|
                0 <= i < kinds@.len() ==> kind_build_ok(#[trigger] kinds@[i], old(self).width as int))
                && total_kind_height(kinds@, old(self).width as int) + old(self).total_lines()
                <= usize::MAX),
            r is Ok ==> {
                &&& final(self).wf()
                &&& final(self).width == old(self).width
                &&& final(self).items@.len() == kinds@.len() + old(self).items@.len()
                &&& forall|i: int|
                    0 <= i < kinds@.len() ==> (#[trigger] final(self).items@[i]).comp_type
                        == kinds@[i]
                &&& forall|i: int|
                    0 <= i < old(self).items@.len() ==> final(self).items@[kinds@.len() + i].comp_type
                        == (#[trigger] old(self).items@[i]).comp_type && final(self).items@[
                        kinds@.len() + i
                    ].spec_style() == old(self).items@[i].spec_style()
            },
    {
        let ghost pre = self.items@;
        let ghost n = kinds@.len() as int;
        let width = self.width;
        self.push_front(kinds);
        let ghost mixed = self.items@;
        proof {
            lemma_prepended_condition(mixed, pre, kinds@, width as int);
        }
        match self.build(width) {
            Ok(()) => {},
            Err(e) => {
                proof {
                    if rebuild_total(mixed, width as int, width as int) <= usize::MAX {
                        let t0 = choose|t: int|
                            0 <= t < mixed.len() && !(keeps(mixed[t], width as int, width as int)
                                || kind_build_ok(mixed[t].comp_type, width as int));
                        assert(t0 < kinds@.len() && !kind_build_ok(kinds@[t0], width as int));
                    }
                }
                return Err(e);
            },
        }
        proof {
            lemma_prepended_wf(self.items@, mixed, pre, kinds@, width as int);
            assert forall|i: int| 0 <= i < kinds@.len() implies kind_build_ok(
                #[trigger] kinds@[i],
                width as int,
            ) by {
                assert(keeps(mixed[i], width as int, width as int) || kind_build_ok(
                    mixed[i].comp_type,
                    width as int,
                ));
                assert(!mixed[i].is_built_spec());
                assert(mixed[i].comp_type == kinds@[i]);
            }
            assert(self.wf());
        }
        Ok(())
    }

    /// Binary search over the position-sorted components: the number of
    /// components whose position lies strictly below `row`.
    pub fn partition_by_posy(&self, row: usize) -> (idx: usize)
        requires
            self.contiguous(),
            forall|i: int|
                0 <= i < self.items@.len() ==> (#[trigger] self.items@[i]).is_built_spec(),
        ensures
            idx <= self.items@.len(),
            idx == count_posy_below(self.items@, row as int),
            forall|i: int| 0 <= i < idx ==> (#[trigger] self.items@[i]).spec_posy() < row,
            forall|i: int|
                idx <= i < self.items@.len() ==> (#[trigger] self.items@[i]).spec_posy() >= row,
    {
        proof {
            self.lemma_posy_monotone();
        }
        let mut lo: usize = 0;
        let mut hi: usize = self.items.len();
        while lo < hi
            invariant
                lo <= hi <= self.items@.len(),
                self.contiguous(),
                forall|i: int|
                    0 <= i < self.items@.len() ==> (#[trigger] self.items@[i]).is_built_spec(),
                forall|i: int, j: int|
                    0 <= i <= j < self.items@.len() ==> (#[trigger] self.items@[i]).spec_posy()
                        <= (#[trigger] self.items@[j]).spec_posy(),
                forall|i: int| 0 <= i < lo ==> (#[trigger] self.items@[i]).spec_posy() < row,
                forall|i: int|
                    hi <= i < self.items@.len() ==> (#[trigger] self.items@[i]).spec_posy()
                        >= row,
            decreases hi - lo,
        {
            let mid = lo + (hi - lo) / 2;
            if self.items[mid].get_posy() < row {
                lo = mid + 1;
            } else {
                hi = mid;
            }
        }
        proof {
            lemma_count_posy_is_partition(self.items@, row as int, lo as int);
        }
        lo
    }

    /// Binary search over component end rows: the number of components that
    /// end at or before `row` (whose `posy + height <= row`).
    pub fn partition_by_end(&self, row: usize) -> (idx: usize)
        requires
            self.contiguous(),
            forall|i: int|
                0 <= i < self.items@.len() ==> (#[trigger] self.items@[i]).is_built_spec(),
        ensures
            idx <= self.items@.len(),
            idx == count_ended(self.items@, row as int),
            forall|i: int|
                0 <= i < idx ==> (#[trigger] self.items@[i]).spec_posy()
                    + self.items@[i].spec_height() <= row,
            forall|i: int|
                idx <= i < self.items@.len() ==> (#[trigger] self.items@[i]).spec_posy()
                    + self.items@[i].spec_height() > row,
    {
        proof {
            self.lemma_posy_monotone();
            assert forall|i: int, j: int| 0 <= i <= j < self.items@.len() implies (
            #[trigger] self.items@[i]).spec_posy() + self.items@[i].spec_height() <= (
            #[trigger] self.items@[j]).spec_posy() + self.items@[j].spec_height() by {
                self.lemma_end_mono(i, j);
            }
        }
        let mut lo: usize = 0;
        let mut hi: usize = self.items.len();
        while lo < hi
            invariant
                lo <= hi <= self.items@.len(),
                self.contiguous(),
                forall|i: int|
                    0 <= i < self.items@.len() ==> (#[trigger] self.items@[i]).is_built_spec(),
                forall|i: int, j: int|
                    0 <= i <= j < self.items@.len() ==> (#[trigger] self.items@[i]).spec_posy()
                        + self.items@[i].spec_height() <= (#[trigger] self.items@[j]).spec_posy()
                        + self.items@[j].spec_height(),
                forall|i: int|
                    0 <= i < lo ==> (#[trigger] self.items@[i]).spec_posy()
                        + self.items@[i].spec_height() <= row,
                forall|i: int|
                    hi <= i < self.items@.len() ==> (#[trigger] self.items@[i]).spec_posy()
                        + self.items@[i].spec_height() > row,
            decreases hi - lo,
        {
            let mid = lo + (hi - lo) / 2;
            let comp = &self.items[mid];
            let posy = comp.get_posy();
            let h = comp.height();
            let ends_at_or_before = match posy.checked_add(h) {
                Some(end) => end <= row,
                None => false,
            };
            if ends_at_or_before {
                lo = mid + 1;
            } else {
                hi = mid;
            }
        }
        proof {
            lemma_count_ended_is_partition(self.items@, row as int, lo as int);
        }
        lo
    }

    /// Component ends never decrease along a contiguous buffer.
    proof fn lemma_end_mono(&self, i: int, j: int)
        requires
            self.contiguous(),
            0 <= i <= j < self.items@.len(),
        ensures
            self.items@[i].spec_posy() + self.items@[i].spec_height()
                <= self.items@[j].spec_posy() + self.items@[j].spec_height(),
        decreases j - i,
    {
        if i < j {
            self.lemma_end_mono(i + 1, j);
        }
    }

    /// Applies a highlight transition to the component at `index`; returns
    /// whether anything changed (and so needs a redraw). Lines and positions
    /// are untouched.
    pub fn apply_color(&mut self, index: usize, color: FeedItemColor) -> (r: Option<()>)
        requires
            index < old(self).items@.len(),
            old(self).items@[index as int].is_built_spec(),
        ensures
            final(self).width == old(self).width,
            final(self).items@.len() == old(self).items@.len(),
            forall|i: int|
                0 <= i < final(self).items@.len() && i != index ==> final(self).items@[i]
                    == #[trigger] old(self).items@[i],
            final(self).items@[index as int].comp_type == old(self).items@[index as int].comp_type,
            final(self).items@[index as int].is_built_spec(),
            final(self).items@[index as int].spec_lines() == old(self).items@[
                index as int
            ].spec_lines(),
            final(self).items@[index as int].spec_posy() == old(self).items@[
                index as int
            ].spec_posy(),
            match color.to_style_spec(old(self).items@[index as int].spec_style()) {
                Some(s) => r is Some && final(self).items@[index as int].spec_style() == Some(s),
                None => r is None && final(self).items@[index as int].spec_style() == old(
                    self,
                ).items@[index as int].spec_style(),
            },
            old(self).contiguous() ==> final(self).contiguous(),
            old(self).wf() ==> final(self).wf(),
    {
        let ghost pre = *self;
        let comp = &mut self.items[index];
        let r = FeedItemColor::set_style(comp, color);
        proof {
            if pre.contiguous() {
                assert forall|i: int| 0 < i < self.items@.len() implies (
                #[trigger] self.items@[i]).spec_posy() == self.items@[i - 1].spec_posy()
                    + self.items@[i - 1].spec_height() by {
                    assert(self.items@[i].spec_posy() == pre.items@[i].spec_posy());
                    assert(self.items@[i - 1].spec_posy() == pre.items@[i - 1].spec_posy());
                    assert(self.items@[i - 1].spec_height() == pre.items@[i - 1].spec_height());
                }
            }
            if pre.wf() {
                assert forall|i: int| 0 <= i < self.items@.len() implies (
                #[trigger] self.items@[i]).is_built_spec() && self.items@[i].spec_lines()
                    == kind_build_lines(self.items@[i].comp_type, self.width as int) by {
                    assert(pre.items@[i].is_built_spec());
                    assert(pre.items@[i].spec_lines() == kind_build_lines(
                        pre.items@[i].comp_type,
                        pre.width as int,
                    ));
                }
            }
        }
        r
    }
}

/// Removes and returns the first element.
fn pop_front(v: &mut Vec<ComponentKind>) -> (r: ComponentKind)
    requires
        old(v)@.len() > 0,
    ensures
        r == old(v)@[0],
        final(v)@ == old(v)@.skip(1),
{
    let r = v.remove(0);
    proof {
        assert(final(v)@ =~= old(v)@.skip(1));
    }
    r
}

} // verus!
