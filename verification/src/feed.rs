//! The feed: entries ordered by publish time, a selection over them, and
//! the merge rules that keep the order strict and duplicate-free.

use vstd::prelude::*;
use vstd::multiset::Multiset;
use vstd::seq_lib::group_to_multiset_ensures;
use crate::component::ComponentKind;
use crate::errors::BackendError;

verus! {

broadcast use group_to_multiset_ensures;

/// The news sites the catalog knows; a closed set, dispatched by matching.
#[derive(Debug, PartialEq, Eq, Structural, Clone, Copy)]
pub enum Site {
    N1,
    Danas,
    Insajder,
}

impl Site {
    /// The short tag shown before an entry's title.
    pub fn tag(&self) -> (r: &'static str)
        ensures
            self is N1 ==> r@ == "N1"@,
            self is Danas ==> r@ == "D"@,
            self is Insajder ==> r@ == "\u{394}"@,
    {
        match self {
            Site::N1 => "N1",
            Site::Danas => "D",
            Site::Insajder => "\u{394}",
        }
    }
}

/// Where an entry's body comes from: already fetched, or a page to fetch.
#[derive(Debug, Clone)]
pub enum Body {
    Fetched { html: String, lead: String },
    ToFetch { url: String },
}

/// One feed entry: its title, publish time (seconds, and as shown), body
/// source, and the site that parses it.
#[derive(Debug, Clone)]
pub struct FeedItem {
    pub title: String,
    pub published: i64,
    pub published_text: String,
    pub body: Body,
    pub parser: Site,
}

impl FeedItem {
    /// The block an entry is shown as in the feed: a box of its title and
    /// its publish time.
    pub fn build(&self) -> (r: ComponentKind)
        ensures
            r matches ComponentKind::Boxed(v) && v.deep_view() == seq![
                self.title@,
                self.published_text@,
            ],
    {
        let mut rows: Vec<String> = Vec::new();
        rows.push(self.title.clone());
        rows.push(self.published_text.clone());
        proof {
            assert(rows.deep_view() =~~= seq![self.title@, self.published_text@]);
        }
        ComponentKind::Boxed(rows)
    }
}

/// The sequences of entries each batch holds.
pub open spec fn batch_views(batches: Seq<Vec<FeedItem>>) -> Seq<Seq<FeedItem>> {
    batches.map_values(|b: Vec<FeedItem>| b@)
}

/// The publish stamps of a sequence of entries.
pub open spec fn published_of(items: Seq<FeedItem>) -> Seq<int> {
    items.map_values(|it: FeedItem| it.published as int)
}

/// Each stamp is at least the next: newest first, ties allowed.
pub open spec fn descending(ts: Seq<int>) -> bool {
    forall|i: int| 0 <= i < ts.len() - 1 ==> #[trigger] ts[i] >= ts[i + 1]
}

/// Each stamp is strictly newer than the next.
pub open spec fn strictly_descending(ts: Seq<int>) -> bool {
    forall|i: int| 0 <= i < ts.len() - 1 ==> #[trigger] ts[i] > ts[i + 1]
}

/// Adjacent strict descent gives pairwise strict descent.
pub proof fn lemma_strict_pairwise(ts: Seq<int>, i: int, j: int)
    requires
        strictly_descending(ts),
        0 <= i < j < ts.len(),
    ensures
        ts[i] > ts[j],
    decreases j - i,
{
    if i + 1 < j {
        lemma_strict_pairwise(ts, i + 1, j);
    }
}

/// The newest stamp a previous fetch ended on: the maximum over the batches
/// of the last entry's stamp (the oldest of each site's batch), or the least
/// stamp when every batch is empty.
pub open spec fn cutoff_of(batches: Seq<Seq<FeedItem>>) -> int
    decreases batches.len(),
{
    if batches.len() == 0 {
        i64::MIN as int
    } else {
        let prev = cutoff_of(batches.drop_last());
        let b = batches.last();
        if b.len() > 0 && b.last().published > prev {
            b.last().published as int
        } else {
            prev
        }
    }
}

/// The entries of one batch published strictly after `cutoff`, as a
/// multiset.
pub open spec fn fresh_of_seq(items: Seq<FeedItem>, cutoff: int) -> Multiset<FeedItem>
    decreases items.len(),
{
    if items.len() == 0 {
        Multiset::<FeedItem>::empty()
    } else {
        let rest = fresh_of_seq(items.drop_last(), cutoff);
        if items.last().published > cutoff {
            rest.insert(items.last())
        } else {
            rest
        }
    }
}

/// The entries of all batches published strictly after `cutoff`.
pub open spec fn fresh_of_batches(batches: Seq<Seq<FeedItem>>, cutoff: int) -> Multiset<
    FeedItem,
>
    decreases batches.len(),
{
    if batches.len() == 0 {
        Multiset::<FeedItem>::empty()
    } else {
        fresh_of_batches(batches.drop_last(), cutoff).add(
            fresh_of_seq(batches.last(), cutoff),
        )
    }
}

/// The length of the longest batch prefix published strictly after `cutoff`.
pub open spec fn take_while_newer(batch: Seq<FeedItem>, cutoff: int) -> int
    decreases batch.len(),
{
    if batch.len() == 0 {
        0
    } else if batch.first().published > cutoff {
        1 + take_while_newer(batch.drop_first(), cutoff)
    } else {
        0
    }
}

/// The prefix counted by `take_while_newer` is wholly newer than `cutoff`,
/// and it stops at the first entry that is not.
pub proof fn lemma_take_while_newer(batch: Seq<FeedItem>, cutoff: int)
    ensures
        0 <= take_while_newer(batch, cutoff) <= batch.len(),
        forall|k: int|
            0 <= k < take_while_newer(batch, cutoff) ==> (#[trigger] batch[k]).published
                > cutoff,
        take_while_newer(batch, cutoff) < batch.len() ==> batch[take_while_newer(
            batch,
            cutoff,
        )].published <= cutoff,
    decreases batch.len(),
{
    if batch.len() > 0 && batch.first().published > cutoff {
        lemma_take_while_newer(batch.drop_first(), cutoff);
        let n = take_while_newer(batch, cutoff);
        assert forall|k: int| 0 <= k < n implies (#[trigger] batch[k]).published > cutoff by {
            if k > 0 {
                assert(batch.drop_first()[k - 1] == batch[k]);
                assert(batch.drop_first()[k - 1].published > cutoff);
            }
        }
        if n < batch.len() {
            assert(batch.drop_first()[n - 1] == batch[n]);
        }
    }
}

/// Sorts entries newest-first (descending by publish stamp); the result is a
/// permutation of the input.
fn sort_by_published_desc(items: Vec<FeedItem>) -> (r: Vec<FeedItem>)
    ensures
        r@.to_multiset() == items@.to_multiset(),
        descending(published_of(r@)),
        r@.len() == items@.len(),
{
    let ghost orig = items@;
    let mut rest = items;
    let mut r: Vec<FeedItem> = Vec::new();
    while rest.len() > 0
        invariant
            r@.to_multiset().add(rest@.to_multiset()) == orig.to_multiset(),
            r@.len() + rest@.len() == orig.len(),
            descending(published_of(r@)),
            forall|i: int, j: int|
                0 <= i < r@.len() && 0 <= j < rest@.len() ==> (#[trigger] r@[i]).published >= (
                #[trigger] rest@[j]).published,
        decreases rest@.len(),
    {
        let mut best: usize = 0;
        let mut bi: usize = 1;
        while bi < rest.len()
            invariant
                best < rest@.len(),
                bi <= rest@.len(),
                forall|t: int|
                    0 <= t < bi ==> (#[trigger] rest@[t]).published <= rest@[
                        best as int
                    ].published,
            decreases rest@.len() - bi,
        {
            if rest[bi].published > rest[best].published {
                best = bi;
            }
            bi = bi + 1;
        }
        let ghost rest_pre = rest@;
        let ghost r_pre = r@;
        let x = rest.remove(best);
        r.push(x);
        proof {
            assert(rest@ =~= rest_pre.remove(best as int));
            assert(rest_pre.remove(best as int).to_multiset() =~= rest_pre.to_multiset().remove(
                x,
            ));
            assert(r@ =~= r_pre.push(x));
            assert(r@.to_multiset() =~= r_pre.to_multiset().insert(x));
            assert(rest_pre.to_multiset().count(x) > 0);
            assert(r@.to_multiset().add(rest@.to_multiset()) =~= orig.to_multiset());
            assert(published_of(r@) =~= published_of(r_pre).push(x.published as int));
            assert(forall|j: int|
                0 <= j < rest@.len() ==> (#[trigger] rest@[j]).published <= x.published);
            assert(descending(published_of(r@)));
        }
    }
    r
}

/// Combines per-site fetches into one feed batch: entries strictly newer
/// than the previous fetch's cutoff, sorted newest-first.
pub fn collect_new_items(batches: Vec<Vec<FeedItem>>) -> (r: Vec<FeedItem>)
    ensures
        r@.to_multiset() == fresh_of_batches(
            batch_views(batches@),
            cutoff_of(batch_views(batches@)),
        ),
        descending(published_of(r@)),
{
    let ghost bs = batch_views(batches@);
    let cutoff = compute_cutoff(&batches);
    let mut collected: Vec<FeedItem> = Vec::new();
    let mut rest = batches;
    proof {
        assert(bs.len() == rest@.len());
        assert forall|j: int| 0 <= j < rest@.len() implies #[trigger] rest@[j]@ == bs[j] by {
            assert(bs[j] == rest@[j]@);
        }
        assert(bs.take(bs.len() as int) =~= bs);
        assert(collected@.to_multiset().add(fresh_of_batches(bs, cutoff as int))
            =~= fresh_of_batches(bs, cutoff as int));
    }
    while rest.len() > 0
        invariant
            rest@.len() <= bs.len(),
            forall|j: int| 0 <= j < rest@.len() ==> #[trigger] rest@[j]@ == bs[j],
            cutoff as int == cutoff_of(bs),
            collected@.to_multiset().add(
                fresh_of_batches(bs.take(rest@.len() as int), cutoff as int),
            ) == fresh_of_batches(bs, cutoff as int),
        decreases rest@.len(),
    {
        let ghost nb = rest@.len() as int;
        let ghost rest_pre = rest@;
        let mut batch = match rest.pop() {
            Some(b) => b,
            None => vstd::pervasive::unreached(),
        };
        let ghost bseq = batch@;
        proof {
            assert(batch@ == bs[nb - 1]);
            assert(rest@ =~= rest_pre.drop_last());
            assert forall|j: int| 0 <= j < rest@.len() implies #[trigger] rest@[j]@ == bs[j] by {
                assert(rest@[j] == rest_pre[j]);
            }
            assert(bs.take(nb).drop_last() =~= bs.take(nb - 1));
            assert(bs.take(nb).last() == bs[nb - 1]);
            assert(fresh_of_batches(bs.take(nb), cutoff as int) =~= fresh_of_batches(
                bs.take(nb - 1),
                cutoff as int,
            ).add(fresh_of_seq(bseq, cutoff as int)));
            assert(collected@.to_multiset().add(fresh_of_seq(bseq, cutoff as int)).add(
                fresh_of_batches(bs.take(nb - 1), cutoff as int),
            ) =~= collected@.to_multiset().add(fresh_of_batches(bs.take(nb), cutoff as int)));
            assert(batch@ =~= bseq.take(batch@.len() as int));
        }
        while batch.len() > 0
            invariant
                batch@.len() <= bseq.len(),
                batch@ == bseq.take(batch@.len() as int),
                cutoff as int == cutoff_of(bs),
                collected@.to_multiset().add(fresh_of_seq(batch@, cutoff as int)).add(
                    fresh_of_batches(bs.take(nb - 1), cutoff as int),
                ) == fresh_of_batches(bs, cutoff as int),
            decreases batch@.len(),
        {
            let ghost batch_pre = batch@;
            let item = match batch.pop() {
                Some(it) => it,
                None => vstd::pervasive::unreached(),
            };
            proof {
                assert(batch@ =~= batch_pre.drop_last());
                assert(batch@ =~= bseq.take(batch@.len() as int));
            }
            if item.published > cutoff {
                let ghost c_pre = collected@;
                collected.push(item);
                proof {
                    assert(collected@ =~= c_pre.push(item));
                    assert(collected@.to_multiset() =~= c_pre.to_multiset().insert(item));
                    assert(collected@.to_multiset().add(
                        fresh_of_seq(batch@, cutoff as int),
                    ).add(fresh_of_batches(bs.take(nb - 1), cutoff as int))
                        =~= fresh_of_batches(bs, cutoff as int));
                }
            }
        }
        proof {
            assert(batch@ =~= Seq::<FeedItem>::empty());
            assert(collected@.to_multiset().add(
                fresh_of_batches(bs.take(nb - 1), cutoff as int),
            ) =~= fresh_of_batches(bs, cutoff as int));
        }
    }
    proof {
        assert(bs.take(0) =~= Seq::<Seq<FeedItem>>::empty());
        assert(collected@.to_multiset() =~= fresh_of_batches(bs, cutoff as int));
    }
    sort_by_published_desc(collected)
}

/// The newest stamp the batches end on (see [`cutoff_of`]).
fn compute_cutoff(batches: &Vec<Vec<FeedItem>>) -> (r: i64)
    ensures
        r as int == cutoff_of(batch_views(batches@)),
{
    let ghost bs = batch_views(batches@);
    let n = batches.len();
    let mut cutoff = i64::MIN;
    let mut i: usize = 0;
    proof {
        assert(bs.take(0) =~= Seq::<Seq<FeedItem>>::empty());
        assert(n == bs.len());
        assert forall|j: int| 0 <= j < n implies #[trigger] batches@[j]@ == bs[j] by {
            assert(bs[j] == batches@[j]@);
        }
    }
    while i < n
        invariant
            i <= n,
            n == bs.len(),
            n == batches@.len(),
            forall|j: int| 0 <= j < n ==> #[trigger] batches@[j]@ == bs[j],
            cutoff as int == cutoff_of(bs.take(i as int)),
        decreases n - i,
    {
        let b = &batches[i];
        if b.len() > 0 {
            let last = &b[b.len() - 1];
            if last.published > cutoff {
                cutoff = last.published;
            }
        }
        proof {
            assert(bs.take(i + 1).drop_last() =~= bs.take(i as int));
            assert(bs.take(i + 1).last() == bs[i as int]);
        }
        i = i + 1;
    }
    proof {
        assert(bs.take(n as int) =~= bs);
    }
    cutoff
}

/// The feed: entries newest-first and the index of the selected entry.
#[derive(Debug)]
pub struct Feed {
    pub items: Vec<FeedItem>,
    pub selected: usize,
}

impl Feed {
    /// There is at least one entry and the selection points at one.
    pub open spec fn wf(&self) -> bool {
        &&& self.items@.len() > 0
        &&& self.selected < self.items@.len()
    }

    /// A feed assembled from per-site fetches; fails when nothing at all was
    /// fetched.
    pub fn new(batches: Vec<Vec<FeedItem>>) -> (r: Result<Feed, BackendError>)
        ensures
            r is Err <==> fresh_of_batches(
                batch_views(batches@),
                cutoff_of(batch_views(batches@)),
            ).len() == 0,
            r matches Err(e) ==> e is FeedError,
            r matches Ok(f) ==> {
                &&& f.wf()
                &&& f.selected == 0
                &&& f.items@.to_multiset() == fresh_of_batches(
                    batch_views(batches@),
                    cutoff_of(batch_views(batches@)),
                )
                &&& descending(published_of(f.items@))
            },
    {
        let items = collect_new_items(batches);
        if items.len() == 0 {
            proof {
                assert(items@.to_multiset().len() == items@.len());
            }
            return Err(BackendError::FeedError);
        }
        proof {
            assert(items@.to_multiset().len() == items@.len());
        }
        Ok(Feed { items, selected: 0 })
    }

    /// The selected entry; the selection is maintained in range.
    pub fn selected(&self) -> (r: &FeedItem)
        requires
            self.wf(),
        ensures
            *r == self.items@[self.selected as int],
    {
        &self.items[self.selected]
    }

    /// Merges a freshly fetched batch (newest-first) into the feed: the
    /// batch's prefix of entries strictly newer than the current newest is
    /// prepended, and the count of new entries is returned. An empty feed
    /// cannot be merged into.
    pub fn merge_new(&mut self, batch: Vec<FeedItem>) -> (r: Option<usize>)
        ensures
            r is Some <==> old(self).items@.len() > 0,
            r is None ==> *final(self) == *old(self),
            r matches Some(n) ==> {
                &&& n as int == take_while_newer(
                    batch@,
                    old(self).items@[0].published as int,
                )
                &&& final(self).items@ == batch@.take(n as int) + old(self).items@
                &&& final(self).selected == old(self).selected
            },
    {
        if self.items.len() == 0 {
            return None;
        }
        let cutoff = self.items[0].published;
        let ghost bseq = batch@;
        let n = batch.len();
        let mut num_new: usize = 0;
        let mut done = false;
        proof {
            assert(bseq.skip(0) =~= bseq);
        }
        while !done && num_new < n
            invariant
                num_new <= n,
                n == bseq.len(),
                batch@ == bseq,
                !done ==> take_while_newer(bseq, cutoff as int) == num_new as int
                    + take_while_newer(bseq.skip(num_new as int), cutoff as int),
                done ==> take_while_newer(bseq, cutoff as int) == num_new as int,
            decreases n - num_new, (if done { 0int } else { 1int }),
        {
            proof {
                assert(bseq.skip(num_new as int).first() == bseq[num_new as int]);
                assert(bseq.skip(num_new as int).drop_first() =~= bseq.skip(num_new + 1));
            }
            if batch[num_new].published > cutoff {
                num_new = num_new + 1;
            } else {
                done = true;
            }
        }
        proof {
            if !done {
                assert(bseq.skip(n as int) =~= Seq::<FeedItem>::empty());
            }
            assert(take_while_newer(bseq, cutoff as int) == num_new as int);
        }
        let ghost orig_items = self.items@;
        let mut k: usize = num_new;
        while k > 0
            invariant
                k <= num_new,
                num_new <= batch@.len(),
                batch@ == bseq,
                orig_items == old(self).items@,
                self.items@ == bseq.take(num_new as int).skip(k as int) + orig_items,
                self.selected == old(self).selected,
            decreases k,
        {
            k = k - 1;
            let ghost pre = self.items@;
            let item = batch[k].clone_item();
            self.items.insert(0, item);
            proof {
                assert(self.items@ =~= seq![bseq[k as int]] + pre);
                assert(bseq.take(num_new as int).skip(k as int) =~= seq![bseq[k as int]]
                    + bseq.take(num_new as int).skip(k + 1));
                assert(self.items@ =~= bseq.take(num_new as int).skip(k as int) + orig_items);
            }
        }
        proof {
            assert(bseq.take(num_new as int).skip(0) =~= bseq.take(num_new as int));
        }
        Some(num_new)
    }
}

impl FeedItem {
    /// A field-for-field copy of the entry.
    pub fn clone_item(&self) -> (r: FeedItem)
        ensures
            r == *self,
    {
        FeedItem {
            title: self.title.clone(),
            published: self.published,
            published_text: self.published_text.clone(),
            body: match &self.body {
                Body::Fetched { html, lead } => Body::Fetched {
                    html: html.clone(),
                    lead: lead.clone(),
                },
                Body::ToFetch { url } => Body::ToFetch { url: url.clone() },
            },
            parser: self.parser,
        }
    }
}

/// Law: merging a strictly newest-first batch into a strictly newest-first
/// feed — stopping at the first entry not newer than the current newest —
/// yields a strictly newest-first, duplicate-free feed.
pub proof fn lemma_merge_keeps_order(batch: Seq<FeedItem>, items: Seq<FeedItem>)
    requires
        items.len() > 0,
        strictly_descending(published_of(batch)),
        strictly_descending(published_of(items)),
    ensures
        ({
            let n = take_while_newer(batch, items[0].published as int);
            let merged = batch.take(n) + items;
            &&& strictly_descending(published_of(merged))
            &&& forall|i: int, j: int| 0 <= i < j < merged.len() ==> merged[i] != merged[j]
        }),
{
    let cutoff = items[0].published as int;
    let n = take_while_newer(batch, cutoff);
    lemma_take_while_newer(batch, cutoff);
    let merged = batch.take(n) + items;
    let ts = published_of(merged);
    assert forall|i: int| 0 <= i < ts.len() - 1 implies #[trigger] ts[i] > ts[i + 1] by {
        assert(ts[i] == merged[i].published);
        assert(ts[i + 1] == merged[i + 1].published);
        if i + 1 < n {
            assert(merged[i] == batch[i] && merged[i + 1] == batch[i + 1]);
            assert(published_of(batch)[i] > published_of(batch)[i + 1]);
        } else if i + 1 == n {
            assert(merged[i] == batch[i]);
            assert(merged[i + 1] == items[0]);
            assert(batch[i].published > cutoff);
        } else {
            assert(merged[i] == items[i - n] && merged[i + 1] == items[i + 1 - n]);
            assert(published_of(items)[i - n] > published_of(items)[i - n + 1]);
        }
    }
    assert forall|i: int, j: int| 0 <= i < j < merged.len() implies merged[i] != merged[j] by {
        lemma_strict_pairwise(ts, i, j);
        assert(merged[i].published > merged[j].published);
    }
}

} // verus!
