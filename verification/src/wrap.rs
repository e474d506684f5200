//! Greedy word wrapping of text into lines of bounded width.

use vstd::prelude::*;

verus! {

/// The pieces of `s` between occurrences of `sep`, in order. Splitting never
/// yields an empty sequence: text without a separator is one piece, and every
/// separator starts a new (possibly empty) piece.
pub open spec fn split_on(s: Seq<char>, sep: char) -> Seq<Seq<char>>
    decreases s.len(),
{
    if s.len() == 0 {
        seq![Seq::<char>::empty()]
    } else if s.last() == sep {
        split_on(s.drop_last(), sep).push(Seq::<char>::empty())
    } else {
        let r = split_on(s.drop_last(), sep);
        r.update(r.len() - 1, r.last().push(s.last()))
    }
}

pub proof fn lemma_split_on_nonempty(s: Seq<char>, sep: char)
    ensures
        split_on(s, sep).len() >= 1,
    decreases s.len(),
{
    if s.len() > 0 {
        lemma_split_on_nonempty(s.drop_last(), sep);
    }
}

/// No piece of a split is longer than the text it was split from.
pub proof fn lemma_split_on_piece_len(s: Seq<char>, sep: char)
    ensures
        forall|i: int|
            0 <= i < split_on(s, sep).len() ==> #[trigger] split_on(s, sep)[i].len() <= s.len(),
    decreases s.len(),
{
    if s.len() > 0 {
        lemma_split_on_piece_len(s.drop_last(), sep);
        lemma_split_on_nonempty(s.drop_last(), sep);
    }
}

/// How one more character extends a split: a separator opens a new empty
/// piece, any other character extends the last piece.
proof fn lemma_split_on_step(s: Seq<char>, c: char, sep: char)
    ensures
        c == sep ==> split_on(s.push(c), sep) == split_on(s, sep).push(Seq::<char>::empty()),
        c != sep ==> split_on(s.push(c), sep) == split_on(s, sep).update(
            split_on(s, sep).len() - 1,
            split_on(s, sep).last().push(c),
        ),
{
    lemma_split_on_nonempty(s, sep);
    assert(s.push(c).drop_last() =~= s);
    assert(s.push(c).last() == c);
    assert(s.push(c).len() == s.len() + 1);
}

/// Splits `text` at every occurrence of `sep`.
pub fn split_char(text: &str, sep: char) -> (r: Vec<String>)
    ensures
        r.deep_view() == split_on(text@, sep),
{
    let text_len = text.unicode_len();
    let mut r: Vec<String> = Vec::new();
    let mut piece = String::new();
    let mut i: usize = 0;
    while i < text_len
        invariant
            i <= text_len,
            text_len == text@.len(),
            r.deep_view().push(piece@) == split_on(text@.take(i as int), sep),
        decreases text_len - i,
    {
        let c = text.get_char(i);
        proof {
            assert(text@.take(i + 1) =~= text@.take(i as int).push(text@[i as int]));
            lemma_split_on_step(text@.take(i as int), text@[i as int], sep);
            lemma_split_on_nonempty(text@.take(i as int), sep);
        }
        if c == sep {
            let ghost prev = r.deep_view().push(piece@);
            r.push(piece);
            piece = String::new();
            proof {
                assert(r.deep_view().push(piece@) =~= prev.push(Seq::<char>::empty()));
            }
        } else {
            let ghost prev = r.deep_view().push(piece@);
            push_char(&mut piece, c);
            proof {
                assert(r.deep_view().push(piece@) =~= prev.update(
                    prev.len() - 1,
                    prev.last().push(c),
                ));
            }
        }
        i = i + 1;
    }
    proof {
        assert(text@.take(text_len as int) =~= text@);
    }
    r.push(piece);
    proof {
        assert(r.deep_view() =~= split_on(text@, sep));
    }
    r
}

/// Relies on std's `String::push`: appends exactly the one given character.
#[verifier::external_body]
pub(crate) fn push_char(s: &mut String, c: char)
    ensures
        final(s)@ == old(s)@.push(c),
{
    s.push(c);
}

/// `s` with every trailing space removed.
pub open spec fn trim_spaces(s: Seq<char>) -> Seq<char>
    decreases s.len(),
{
    if s.len() > 0 && s.last() == ' ' {
        trim_spaces(s.drop_last())
    } else {
        s
    }
}

/// The line flushed from an accumulator that, when nonempty, always carries
/// one trailing space: that space is dropped.
pub open spec fn flush_line(buf: Seq<char>) -> Seq<char> {
    if buf.len() == 0 {
        buf
    } else {
        buf.drop_last()
    }
}

/// Greedy wrapping of the remaining words, given the accumulator so far.
/// A word whose addition would make the accumulator reach or exceed `width`
/// first flushes the accumulator as a finished line; the final accumulator is
/// emitted with its trailing spaces trimmed.
pub open spec fn wrap_rec(ws: Seq<Seq<char>>, buf: Seq<char>, width: int) -> Seq<Seq<char>>
    decreases ws.len(),
{
    if ws.len() == 0 {
        seq![trim_spaces(buf)]
    } else {
        let w = ws.first();
        if buf.len() + w.len() >= width {
            seq![flush_line(buf)] + wrap_rec(ws.drop_first(), w.push(' '), width)
        } else {
            wrap_rec(ws.drop_first(), buf + w.push(' '), width)
        }
    }
}

/// The lines produced by greedily wrapping `s` at `width`.
pub open spec fn wrap_spec(s: Seq<char>, width: int) -> Seq<Seq<char>> {
    wrap_rec(split_on(s, ' '), Seq::<char>::empty(), width)
}

/// Trims the trailing spaces of `buf`.
fn trim_spaces_exec(buf: &String) -> (r: String)
    ensures
        r@ == trim_spaces(buf@),
{
    let len = buf.as_str().unicode_len();
    let mut end: usize = len;
    proof {
        assert(buf@.take(len as int) =~= buf@);
    }
    while end > 0 && buf.as_str().get_char(end - 1) == ' '
        invariant
            end <= len,
            len == buf@.len(),
            trim_spaces(buf@) == trim_spaces(buf@.take(end as int)),
        decreases end,
    {
        proof {
            assert(buf@.take(end as int).last() == buf@[end - 1]);
            assert(buf@.take(end as int).drop_last() =~= buf@.take(end - 1));
        }
        end = end - 1;
    }
    proof {
        if end > 0 {
            assert(buf@.take(end as int).last() == buf@[end - 1]);
        }
        assert(trim_spaces(buf@.take(end as int)) == buf@.take(end as int));
    }
    let r = buf.as_str().substring_char(0, end);
    proof {
        assert(r@ =~= buf@.take(end as int));
    }
    r.to_owned()
}

/// Greedy word wrap: words of `text` (separated by single spaces) are packed
/// into lines; a word that would make the line reach or exceed `width` starts
/// a new line. Always yields at least one line; a single word no shorter than
/// `width` is emitted as an oversized line rather than split.
pub fn wrap_text(text: &str, width: usize) -> (r: Vec<String>)
    requires
        text@.len() < usize::MAX,
    ensures
        r.deep_view() == wrap_spec(text@, width as int),
        r@.len() >= 1,
{
    let words = split_char(text, ' ');
    let n = words.len();
    let mut r: Vec<String> = Vec::new();
    let mut buf = String::new();
    let mut buf_chars: usize = 0;
    let mut i: usize = 0;
    proof {
        lemma_split_on_piece_len(text@, ' ');
        assert(words.deep_view().skip(0) =~= words.deep_view());
        assert(r.deep_view() + wrap_rec(words.deep_view(), buf@, width as int) =~= wrap_rec(
            words.deep_view(),
            buf@,
            width as int,
        ));
    }
    while i < n
        invariant
            i <= n,
            n == words@.len(),
            buf_chars == buf@.len(),
            text@.len() < usize::MAX,
            words.deep_view() == split_on(text@, ' '),
            forall|j: int|
                0 <= j < words.deep_view().len() ==> #[trigger] words.deep_view()[j].len()
                    <= text@.len(),
            wrap_spec(text@, width as int) == r.deep_view() + wrap_rec(
                words.deep_view().skip(i as int),
                buf@,
                width as int,
            ),
        decreases n - i,
    {
        let ghost rem = words.deep_view().skip(i as int);
        let word = &words[i];
        proof {
            assert(rem.first() == words.deep_view()[i as int]);
            assert(rem.drop_first() =~= words.deep_view().skip(i + 1));
            assert(word@ == words.deep_view()[i as int]);
        }
        let word_chars = word.as_str().unicode_len();
        let flush = match buf_chars.checked_add(word_chars) {
            Some(total) => total >= width,
            None => true,
        };
        if flush {
            let ghost prev_r = r.deep_view();
            let ghost old_buf = buf@;
            if buf_chars == 0 {
                r.push(String::new());
                proof {
                    assert(old_buf =~= Seq::<char>::empty());
                    assert(r.deep_view() =~~= prev_r.push(flush_line(old_buf)));
                }
            } else {
                let line = buf.as_str().substring_char(0, buf_chars - 1);
                proof {
                    assert(line@ =~= buf@.drop_last());
                }
                r.push(line.to_owned());
                proof {
                    assert(r.deep_view() =~~= prev_r.push(flush_line(old_buf)));
                }
            }
            buf = String::new();
            buf.append(word.as_str());
            push_char(&mut buf, ' ');
            buf_chars = word_chars + 1;
            proof {
                assert(buf@ =~= rem.first().push(' '));
                assert(prev_r + wrap_rec(rem, old_buf, width as int) =~~= r.deep_view()
                    + wrap_rec(rem.drop_first(), buf@, width as int));
            }
        } else {
            let ghost old_buf = buf@;
            buf.append(word.as_str());
            push_char(&mut buf, ' ');
            buf_chars = buf_chars + word_chars + 1;
            proof {
                assert(buf@ =~= old_buf + rem.first().push(' '));
            }
        }
        i = i + 1;
    }
    proof {
        assert(words.deep_view().skip(n as int) =~= Seq::<Seq<char>>::empty());
    }
    let last = trim_spaces_exec(&buf);
    let ghost prev_r = r.deep_view();
    r.push(last);
    proof {
        assert(r.deep_view() =~= prev_r.push(trim_spaces(buf@)));
    }
    r
}

/// True when no character of `l` is a space.
pub open spec fn no_space(l: Seq<char>) -> bool {
    forall|i: int| 0 <= i < l.len() ==> l[i] != ' '
}

/// Pieces of a split on the space character contain no space.
pub proof fn lemma_split_on_no_space(s: Seq<char>)
    ensures
        forall|i: int|
            0 <= i < split_on(s, ' ').len() ==> no_space(#[trigger] split_on(s, ' ')[i]),
    decreases s.len(),
{
    if s.len() > 0 {
        lemma_split_on_no_space(s.drop_last());
        lemma_split_on_nonempty(s.drop_last(), ' ');
        if s.last() != ' ' {
            let r = split_on(s.drop_last(), ' ');
            assert forall|i: int| 0 <= i < split_on(s, ' ').len() implies no_space(
                #[trigger] split_on(s, ' ')[i],
            ) by {
                if i == r.len() - 1 {
                    assert(split_on(s, ' ')[i] == r.last().push(s.last()));
                    assert(no_space(r[i]));
                } else {
                    assert(split_on(s, ' ')[i] == r[i]);
                }
            }
        }
    }
}

/// Trimming never lengthens a sequence.
proof fn lemma_trim_len(s: Seq<char>)
    ensures
        trim_spaces(s).len() <= s.len(),
    decreases s.len(),
{
    if s.len() > 0 && s.last() == ' ' {
        lemma_trim_len(s.drop_last());
    }
}

/// A space-free word followed by one space trims back to the word itself.
proof fn lemma_trim_word(w: Seq<char>)
    requires
        no_space(w),
    ensures
        trim_spaces(w.push(' ')) == w,
{
    assert(w.push(' ').last() == ' ');
    assert(w.push(' ').drop_last() =~= w);
    assert(trim_spaces(w.push(' ')) == trim_spaces(w));
    if w.len() > 0 {
        assert(w.last() != ' ');
    }
    assert(trim_spaces(w) == w);
}

/// Every line that greedy wrapping emits is either within `width` or is a
/// single word without spaces (the documented oversized-word exception).
proof fn lemma_wrap_rec_bounds(ws: Seq<Seq<char>>, buf: Seq<char>, width: int)
    requires
        width >= 0,
        forall|i: int| 0 <= i < ws.len() ==> no_space(#[trigger] ws[i]),
        buf.len() == 0 || (buf.last() == ' ' && (buf.len() <= width || no_space(
            buf.drop_last(),
        ))),
    ensures
        forall|i: int|
            0 <= i < wrap_rec(ws, buf, width).len() ==> (#[trigger] wrap_rec(ws, buf, width)[
                i
            ]).len() <= width || no_space(wrap_rec(ws, buf, width)[i]),
    decreases ws.len(),
{
    if ws.len() == 0 {
        lemma_trim_len(buf);
        if buf.len() > 0 && buf.len() > width {
            lemma_trim_word(buf.drop_last());
            assert(buf.drop_last().push(' ') =~= buf);
            assert(trim_spaces(buf) == buf.drop_last());
        }
        assert(wrap_rec(ws, buf, width) == seq![trim_spaces(buf)]);
        assert(wrap_rec(ws, buf, width)[0] == trim_spaces(buf));
    } else {
        let w = ws.first();
        assert(no_space(ws[0]));
        assert(forall|i: int|
            0 <= i < ws.drop_first().len() ==> no_space(#[trigger] ws.drop_first()[i]));
        if buf.len() + w.len() >= width {
            let buf2 = w.push(' ');
            assert(buf2.drop_last() =~= w);
            lemma_wrap_rec_bounds(ws.drop_first(), buf2, width);
            let line = flush_line(buf);
            if buf.len() > 0 && buf.len() > width {
                assert(no_space(line));
            }
            let rest = wrap_rec(ws.drop_first(), buf2, width);
            assert(wrap_rec(ws, buf, width) == seq![line] + rest);
            assert forall|i: int| 0 <= i < wrap_rec(ws, buf, width).len() implies (
            #[trigger] wrap_rec(ws, buf, width)[i]).len() <= width || no_space(
                wrap_rec(ws, buf, width)[i],
            ) by {
                if i == 0 {
                    assert(wrap_rec(ws, buf, width)[0] == line);
                    if buf.len() > 0 && buf.len() > width {
                        assert(no_space(buf.drop_last()));
                    }
                } else {
                    assert(wrap_rec(ws, buf, width)[i] == rest[i - 1]);
                    assert(rest[i - 1].len() <= width || no_space(rest[i - 1]));
                }
            }
        } else {
            let buf2 = buf + w.push(' ');
            assert(buf2.len() == buf.len() + w.len() + 1 <= width);
            assert(buf2.last() == ' ');
            lemma_wrap_rec_bounds(ws.drop_first(), buf2, width);
            assert(wrap_rec(ws, buf, width) == wrap_rec(ws.drop_first(), buf2, width));
        }
    }
}

/// Law: every line of `wrap_spec(s, width)` has length at most `width`,
/// except a line that is a single space-free word longer than `width`,
/// which is emitted oversized rather than split.
pub proof fn lemma_wrap_line_lengths(s: Seq<char>, width: int)
    requires
        width >= 0,
    ensures
        forall|i: int|
            0 <= i < wrap_spec(s, width).len() ==> (#[trigger] wrap_spec(s, width)[i]).len()
                <= width || no_space(wrap_spec(s, width)[i]),
{
    lemma_split_on_no_space(s);
    lemma_wrap_rec_bounds(split_on(s, ' '), Seq::<char>::empty(), width);
}

// --- re-wrap idempotence ---
//
// Greedy wrapping groups the words into lines. The lemmas below make that
// grouping explicit: `grouping` partitions the word list exactly as
// `wrap_rec` consumes it, `render` turns groups back into the emitted lines,
// and re-splitting the joined lines recovers the same groups, so a second
// wrap reproduces the first.

/// The words of a group, each followed by one space: the accumulator
/// `wrap_rec` carries while the group's line is unfinished.
pub open spec fn join_sp(g: Seq<Seq<char>>) -> Seq<char>
    decreases g.len(),
{
    if g.len() == 0 {
        Seq::<char>::empty()
    } else {
        g.first() + seq![' '] + join_sp(g.drop_first())
    }
}

/// Appending a word to a group appends the word and one space to its
/// accumulator.
proof fn lemma_join_sp_push(g: Seq<Seq<char>>, w: Seq<char>)
    ensures
        join_sp(g.push(w)) == join_sp(g) + w.push(' '),
    decreases g.len(),
{
    if g.len() == 0 {
        assert(g.push(w).drop_first() =~= Seq::<Seq<char>>::empty());
        assert(g.push(w).first() == w);
        assert(join_sp(g.push(w)) == w + seq![' '] + join_sp(Seq::<Seq<char>>::empty()));
        assert(join_sp(Seq::<Seq<char>>::empty()) == Seq::<char>::empty());
        assert(w + seq![' '] + Seq::<char>::empty() =~= w.push(' '));
        assert(join_sp(g) == Seq::<char>::empty());
        assert(Seq::<char>::empty() + w.push(' ') =~= w.push(' '));
    } else {
        assert(g.push(w).first() == g.first());
        assert(g.push(w).drop_first() =~= g.drop_first().push(w));
        lemma_join_sp_push(g.drop_first(), w);
        assert(join_sp(g.push(w)) == g.first() + seq![' '] + join_sp(g.drop_first().push(w)));
        assert(join_sp(g.push(w)) =~= join_sp(g) + w.push(' '));
    }
}

/// How `wrap_rec` partitions the remaining words into line groups, given the
/// group accumulated so far.
pub open spec fn grouping(ws: Seq<Seq<char>>, g: Seq<Seq<char>>, width: int) -> Seq<
    Seq<Seq<char>>,
>
    decreases ws.len(),
{
    if ws.len() == 0 {
        seq![g]
    } else if join_sp(g).len() + ws.first().len() >= width {
        seq![g] + grouping(ws.drop_first(), seq![ws.first()], width)
    } else {
        grouping(ws.drop_first(), g.push(ws.first()), width)
    }
}

/// The lines a sequence of groups renders to: every group flushed as a line,
/// the last one with its trailing spaces trimmed.
pub open spec fn render(gs: Seq<Seq<Seq<char>>>) -> Seq<Seq<char>>
    decreases gs.len(),
{
    if gs.len() <= 1 {
        if gs.len() == 0 {
            Seq::<Seq<char>>::empty()
        } else {
            seq![trim_spaces(join_sp(gs[0]))]
        }
    } else {
        seq![flush_line(join_sp(gs[0]))] + render(gs.drop_first())
    }
}

/// A grouping holds at least one group.
proof fn lemma_grouping_nonempty(ws: Seq<Seq<char>>, g: Seq<Seq<char>>, width: int)
    ensures
        grouping(ws, g, width).len() >= 1,
    decreases ws.len(),
{
    if ws.len() > 0 && !(join_sp(g).len() + ws.first().len() >= width) {
        lemma_grouping_nonempty(ws.drop_first(), g.push(ws.first()), width);
    }
}

/// Wrapping emits exactly the rendering of its grouping.
proof fn lemma_grouping_render(ws: Seq<Seq<char>>, g: Seq<Seq<char>>, width: int)
    ensures
        wrap_rec(ws, join_sp(g), width) == render(grouping(ws, g, width)),
    decreases ws.len(),
{
    if ws.len() == 0 {
        assert(grouping(ws, g, width) == seq![g]);
        assert(render(seq![g]) == seq![trim_spaces(join_sp(g))]);
    } else {
        let w = ws.first();
        if join_sp(g).len() + w.len() >= width {
            lemma_grouping_render(ws.drop_first(), seq![w], width);
            lemma_grouping_nonempty(ws.drop_first(), seq![w], width);
            assert(seq![w].drop_first() =~= Seq::<Seq<char>>::empty());
            assert(join_sp(Seq::<Seq<char>>::empty()) == Seq::<char>::empty());
            assert(seq![w].first() == w);
            assert(join_sp(seq![w]) =~= w.push(' '));
            let rest = grouping(ws.drop_first(), seq![w], width);
            let gs = seq![g] + rest;
            assert(gs[0] == g);
            assert(gs.drop_first() =~= rest);
            assert(gs.len() >= 2);
            assert(render(gs) == seq![flush_line(join_sp(gs[0]))] + render(gs.drop_first()));
            assert(render(gs) =~~= seq![flush_line(join_sp(g))] + render(rest));
            assert(wrap_rec(ws, join_sp(g), width) == seq![flush_line(join_sp(g))] + wrap_rec(
                ws.drop_first(),
                ws.first().push(' '),
                width,
            ));
            assert(wrap_rec(ws.drop_first(), w.push(' '), width) == render(rest));
            assert(wrap_rec(ws, join_sp(g), width) =~~= render(grouping(ws, g, width)));
        } else {
            lemma_join_sp_push(g, w);
            assert(join_sp(g) + w.push(' ') == join_sp(g.push(w)));
            lemma_grouping_render(ws.drop_first(), g.push(w), width);
        }
    }
}

/// What a grouping guarantees: space-free words throughout; groups after the
/// first are nonempty; every group fits one line unless it is a single
/// (oversized) word; the first group extends `g` and fits unless it is `g`
/// itself; and each group boundary is a word that would not have fit.
pub open spec fn group_props(
    gs: Seq<Seq<Seq<char>>>,
    g: Seq<Seq<char>>,
    width: int,
) -> bool {
    &&& gs.len() >= 1
    &&& forall|i: int, j: int|
        0 <= i < gs.len() && 0 <= j < gs[i].len() ==> no_space(#[trigger] gs[i][j])
    &&& forall|i: int| 1 <= i < gs.len() ==> (#[trigger] gs[i]).len() >= 1
    &&& forall|i: int|
        0 <= i < gs.len() ==> join_sp(#[trigger] gs[i]).len() <= width || gs[i].len() == 1
    &&& gs[0].len() >= g.len()
    &&& forall|k: int| 0 <= k < g.len() ==> gs[0][k] == #[trigger] g[k]
    &&& (join_sp(gs[0]).len() <= width || gs[0] == g)
    &&& forall|i: int|
        0 <= i < gs.len() - 1 ==> join_sp(#[trigger] gs[i]).len() + gs[i + 1][0].len() >= width
}

proof fn lemma_group_props(ws: Seq<Seq<char>>, g: Seq<Seq<char>>, width: int)
    requires
        forall|i: int| 0 <= i < ws.len() ==> no_space(#[trigger] ws[i]),
        forall|i: int| 0 <= i < g.len() ==> no_space(#[trigger] g[i]),
        join_sp(g).len() <= width || g.len() == 1,
    ensures
        group_props(grouping(ws, g, width), g, width),
    decreases ws.len(),
{
    let gs = grouping(ws, g, width);
    if ws.len() == 0 {
        assert(gs == seq![g]);
        assert(gs[0] == g);
    } else {
        let w = ws.first();
        assert(no_space(ws[0]));
        assert(forall|i: int|
            0 <= i < ws.drop_first().len() ==> no_space(#[trigger] ws.drop_first()[i]));
        if join_sp(g).len() + w.len() >= width {
            assert(seq![w].drop_first() =~= Seq::<Seq<char>>::empty());
            assert(join_sp(Seq::<Seq<char>>::empty()) == Seq::<char>::empty());
            assert(seq![w].first() == w);
            assert(join_sp(seq![w]) =~= w.push(' '));
            assert(forall|i: int| 0 <= i < seq![w].len() ==> no_space(#[trigger] seq![w][i]));
            lemma_group_props(ws.drop_first(), seq![w], width);
            let rest = grouping(ws.drop_first(), seq![w], width);
            assert(gs == seq![g] + rest);
            assert(gs[0] == g);
            assert(forall|i: int| 1 <= i < gs.len() ==> gs[i] == #[trigger] rest[i - 1]);
            assert(rest[0][0] == w);
            assert(join_sp(gs[0]).len() + gs[1][0].len() >= width);
            assert forall|i: int|
                0 <= i < gs.len() - 1 implies join_sp(#[trigger] gs[i]).len() + gs[i
                + 1][0].len() >= width by {
                if i > 0 {
                    assert(gs[i] == rest[i - 1]);
                    assert(gs[i + 1] == rest[i]);
                    assert(join_sp(rest[i - 1]).len() + rest[i][0].len() >= width);
                }
            }
            assert forall|i: int, j: int|
                0 <= i < gs.len() && 0 <= j < gs[i].len() implies no_space(
                #[trigger] gs[i][j],
            ) by {
                if i > 0 {
                    assert(gs[i] == rest[i - 1]);
                    assert(no_space(rest[i - 1][j]));
                }
            }
            assert forall|i: int| 0 <= i < gs.len() implies join_sp(#[trigger] gs[i]).len()
                <= width || gs[i].len() == 1 by {
                if i > 0 {
                    assert(gs[i] == rest[i - 1]);
                    assert(join_sp(rest[i - 1]).len() <= width || rest[i - 1].len() == 1);
                }
            }
            assert forall|i: int| 1 <= i < gs.len() implies (#[trigger] gs[i]).len() >= 1 by {
                assert(gs[i] == rest[i - 1]);
                if i == 1 {
                    assert(rest[0].len() >= seq![w].len());
                } else {
                    assert(rest[i - 1].len() >= 1);
                }
            }
        } else {
            lemma_join_sp_push(g, w);
            assert(join_sp(g.push(w)).len() == join_sp(g).len() + w.len() + 1 <= width);
            assert(forall|i: int|
                0 <= i < g.push(w).len() ==> no_space(#[trigger] g.push(w)[i]));
            lemma_group_props(ws.drop_first(), g.push(w), width);
            assert(gs == grouping(ws.drop_first(), g.push(w), width));
            assert(gs[0].len() >= g.push(w).len());
            assert(forall|k: int| 0 <= k < g.push(w).len() ==> gs[0][k] == #[trigger] g.push(
                w,
            )[k]);
            assert forall|k: int| 0 <= k < g.len() implies gs[0][k] == #[trigger] g[k] by {
                assert(gs[0][k] == g.push(w)[k]);
                assert(g.push(w)[k] == g[k]);
            }
            if gs[0] == g.push(w) {
                assert(join_sp(gs[0]).len() <= width);
            }
        }
    }
}

/// `g` without its trailing empty words.
pub open spec fn drop_te(g: Seq<Seq<char>>) -> Seq<Seq<char>>
    decreases g.len(),
{
    if g.len() > 0 && g.last().len() == 0 {
        drop_te(g.drop_last())
    } else {
        g
    }
}

/// An empty group re-reads from its (empty) line as one empty word.
pub open spec fn fix_group(g: Seq<Seq<char>>) -> Seq<Seq<char>> {
    if g.len() == 0 {
        seq![Seq::<char>::empty()]
    } else {
        g
    }
}

/// The groups as a re-split of the rendered lines reads them back: every
/// group non-empty, and the last one without the words its trim removed.
pub open spec fn clean(gs: Seq<Seq<Seq<char>>>) -> Seq<Seq<Seq<char>>>
    decreases gs.len(),
{
    if gs.len() <= 1 {
        if gs.len() == 0 {
            gs
        } else {
            seq![fix_group(drop_te(gs[0]))]
        }
    } else {
        seq![fix_group(gs[0])] + clean(gs.drop_first())
    }
}

/// Trailing spaces do not survive trimming.
proof fn lemma_trim_snoc_space(x: Seq<char>)
    ensures
        trim_spaces(x.push(' ')) == trim_spaces(x),
{
    assert(x.push(' ').last() == ' ');
    assert(x.push(' ').drop_last() =~= x);
}

/// Dropping trailing empty words does not change the trimmed line.
proof fn lemma_trim_join_drop_te(g: Seq<Seq<char>>)
    ensures
        trim_spaces(join_sp(drop_te(g))) == trim_spaces(join_sp(g)),
    decreases g.len(),
{
    if g.len() > 0 && g.last().len() == 0 {
        lemma_trim_join_drop_te(g.drop_last());
        assert(g.drop_last().push(g.last()) =~= g);
        lemma_join_sp_push(g.drop_last(), g.last());
        assert(g.last().push(' ') =~= seq![' ']);
        assert(join_sp(g) =~= join_sp(g.drop_last()).push(' '));
        lemma_trim_snoc_space(join_sp(g.drop_last()));
    }
}

/// A single empty word flushes and trims to the same line as no word at all.
proof fn lemma_join_sp_fix(g: Seq<Seq<char>>)
    ensures
        flush_line(join_sp(fix_group(g))) == flush_line(join_sp(g)),
        trim_spaces(join_sp(fix_group(g))) == trim_spaces(join_sp(g)),
{
    if g.len() == 0 {
        let f = fix_group(g);
        assert(f.drop_first() =~= Seq::<Seq<char>>::empty());
        assert(join_sp(Seq::<Seq<char>>::empty()) == Seq::<char>::empty());
        assert(join_sp(f) =~= seq![' ']);
        assert(join_sp(f).drop_last() =~= Seq::<char>::empty());
        assert(seq![' '].last() == ' ');
        assert(trim_spaces(join_sp(f)) == trim_spaces(Seq::<char>::empty()));
    }
}

/// Cleaning the groups leaves the rendered lines unchanged.
proof fn lemma_render_clean(gs: Seq<Seq<Seq<char>>>)
    requires
        gs.len() >= 1,
    ensures
        render(clean(gs)) == render(gs),
    decreases gs.len(),
{
    if gs.len() == 1 {
        lemma_trim_join_drop_te(gs[0]);
        lemma_join_sp_fix(drop_te(gs[0]));
        assert(clean(gs) == seq![fix_group(drop_te(gs[0]))]);
        assert(render(clean(gs)) =~~= render(gs));
    } else {
        lemma_render_clean(gs.drop_first());
        lemma_join_sp_fix(gs[0]);
        let cs = clean(gs);
        assert(cs == seq![fix_group(gs[0])] + clean(gs.drop_first()));
        assert(cs[0] == fix_group(gs[0]));
        assert(cs.drop_first() =~= clean(gs.drop_first()));
        assert(clean(gs.drop_first()).len() >= 1);
        assert(cs.len() >= 2);
        assert(render(cs) == seq![flush_line(join_sp(cs[0]))] + render(cs.drop_first()));
        assert(render(gs) == seq![flush_line(join_sp(gs[0]))] + render(gs.drop_first()));
        assert(render(clean(gs)) =~~= render(gs));
    }
}

/// Joining groups end to end gives the joined accumulators end to end.
proof fn lemma_join_sp_app(a: Seq<Seq<char>>, b: Seq<Seq<char>>)
    ensures
        join_sp(a + b) == join_sp(a) + join_sp(b),
    decreases a.len(),
{
    if a.len() == 0 {
        assert(a + b =~= b);
        assert(join_sp(a) == Seq::<char>::empty());
        assert(join_sp(a) + join_sp(b) =~= join_sp(b));
    } else {
        assert((a + b).len() > 0);
        assert((a + b).first() == a.first());
        assert((a + b).drop_first() =~= a.drop_first() + b);
        lemma_join_sp_app(a.drop_first(), b);
        assert(join_sp(a + b) == a.first() + seq![' '] + (join_sp(a.drop_first()) + join_sp(
            b,
        )));
        assert(join_sp(a + b) =~= join_sp(a) + join_sp(b));
    }
}

/// A nonempty group's accumulator ends with the trailing space.
proof fn lemma_join_sp_last(g: Seq<Seq<char>>)
    requires
        g.len() >= 1,
    ensures
        join_sp(g).len() >= 1,
        join_sp(g).last() == ' ',
        join_sp(g) == flush_line(join_sp(g)).push(' '),
    decreases g.len(),
{
    if g.len() == 1 {
        assert(g.drop_first() =~= Seq::<Seq<char>>::empty());
        assert(join_sp(Seq::<Seq<char>>::empty()) == Seq::<char>::empty());
        assert(join_sp(g) =~= g.first().push(' '));
        assert(join_sp(g) == flush_line(join_sp(g)).push(' '));
    } else {
        lemma_join_sp_last(g.drop_first());
        assert(join_sp(g) == g.first() + seq![' '] + join_sp(g.drop_first()));
        assert(join_sp(g).last() == join_sp(g.drop_first()).last());
        assert(join_sp(g) =~= flush_line(join_sp(g)).push(' '));
    }
}

/// The rendered lines joined back with single spaces: what a reader re-wraps.
pub open spec fn join_lines(ls: Seq<Seq<char>>) -> Seq<char>
    decreases ls.len(),
{
    if ls.len() <= 1 {
        if ls.len() == 0 {
            Seq::<char>::empty()
        } else {
            ls[0]
        }
    } else {
        ls[0] + seq![' '] + join_lines(ls.drop_first())
    }
}

/// Splitting around one separator splits the two sides separately.
proof fn lemma_split_cat(a: Seq<char>, b: Seq<char>)
    ensures
        split_on(a + seq![' '] + b, ' ') == split_on(a, ' ') + split_on(b, ' '),
    decreases b.len(),
{
    lemma_split_on_nonempty(a, ' ');
    if b.len() == 0 {
        assert(a + seq![' '] + b =~= a.push(' '));
        assert(a.push(' ').last() == ' ');
        assert(a.push(' ').drop_last() =~= a);
        assert(split_on(b, ' ') == seq![Seq::<char>::empty()]);
        assert(split_on(a.push(' '), ' ') == split_on(a, ' ').push(Seq::<char>::empty()));
        assert(split_on(a, ' ').push(Seq::<char>::empty()) =~= split_on(a, ' ') + split_on(
            b,
            ' ',
        ));
    } else {
        let s = a + seq![' '] + b;
        assert(s.len() > 0);
        assert(s.last() == b.last());
        assert(s.drop_last() =~= a + seq![' '] + b.drop_last());
        lemma_split_cat(a, b.drop_last());
        lemma_split_on_nonempty(b.drop_last(), ' ');
        let sa = split_on(a, ' ');
        let sb = split_on(b.drop_last(), ' ');
        if b.last() == ' ' {
            assert(split_on(s, ' ') == split_on(s.drop_last(), ' ').push(
                Seq::<char>::empty(),
            ));
            assert(split_on(b, ' ') == sb.push(Seq::<char>::empty()));
            assert((sa + sb).push(Seq::<char>::empty()) =~= sa + sb.push(
                Seq::<char>::empty(),
            ));
        } else {
            assert((sa + sb).last() == sb.last());
            assert(split_on(s, ' ') == (sa + sb).update(
                (sa + sb).len() - 1,
                sb.last().push(b.last()),
            ));
            assert(split_on(b, ' ') == sb.update(sb.len() - 1, sb.last().push(b.last())));
            assert((sa + sb).update((sa + sb).len() - 1, sb.last().push(b.last())) =~= sa
                + sb.update(sb.len() - 1, sb.last().push(b.last())));
        }
    }
}

/// A space-free piece splits to itself alone.
proof fn lemma_split_word(w: Seq<char>)
    requires
        no_space(w),
    ensures
        split_on(w, ' ') == seq![w],
    decreases w.len(),
{
    if w.len() > 0 {
        assert(w.last() != ' ');
        assert(no_space(w.drop_last()));
        lemma_split_word(w.drop_last());
        assert(split_on(w, ' ') == seq![w.drop_last()].update(0, w.drop_last().push(w.last())));
        assert(w.drop_last().push(w.last()) =~= w);
        assert(split_on(w, ' ') =~~= seq![w]);
    } else {
        assert(w =~= Seq::<char>::empty());
        assert(split_on(w, ' ') =~~= seq![w]);
    }
}

/// A nonempty group's flushed line splits back to exactly the group.
proof fn lemma_split_flush(g: Seq<Seq<char>>)
    requires
        g.len() >= 1,
        forall|i: int| 0 <= i < g.len() ==> no_space(#[trigger] g[i]),
    ensures
        split_on(flush_line(join_sp(g)), ' ') == g,
    decreases g.len(),
{
    if g.len() == 1 {
        assert(g.drop_first() =~= Seq::<Seq<char>>::empty());
        assert(join_sp(Seq::<Seq<char>>::empty()) == Seq::<char>::empty());
        assert(join_sp(g) =~= g.first().push(' '));
        assert(flush_line(join_sp(g)) =~= g[0]);
        assert(no_space(g[0]));
        lemma_split_word(g[0]);
        assert(split_on(flush_line(join_sp(g)), ' ') =~~= g);
    } else {
        let gp = g.drop_last();
        let wk = g.last();
        assert(gp.push(wk) =~= g);
        lemma_join_sp_push(gp, wk);
        assert(join_sp(g) == join_sp(gp) + wk.push(' '));
        lemma_join_sp_last(gp);
        assert(join_sp(g) =~= (flush_line(join_sp(gp)) + seq![' '] + wk).push(' '));
        assert(flush_line(join_sp(g)) =~= flush_line(join_sp(gp)) + seq![' '] + wk);
        assert(forall|i: int| 0 <= i < gp.len() ==> no_space(#[trigger] gp[i]));
        lemma_split_flush(gp);
        assert(no_space(g[g.len() - 1]));
        lemma_split_word(wk);
        lemma_split_cat(flush_line(join_sp(gp)), wk);
        assert(split_on(flush_line(join_sp(g)), ' ') =~~= gp + seq![wk]);
        assert(gp + seq![wk] =~= g);
    }
}

/// The trimmed final line splits back to exactly the group, when the group
/// has no trailing empty words (or is the single empty word).
proof fn lemma_split_trim(g: Seq<Seq<char>>)
    requires
        g.len() >= 1,
        forall|i: int| 0 <= i < g.len() ==> no_space(#[trigger] g[i]),
        g == seq![Seq::<char>::empty()] || g.last().len() > 0,
    ensures
        split_on(trim_spaces(join_sp(g)), ' ') == g,
{
    if g == seq![Seq::<char>::empty()] {
        assert(g.drop_first() =~= Seq::<Seq<char>>::empty());
        assert(join_sp(Seq::<Seq<char>>::empty()) == Seq::<char>::empty());
        assert(join_sp(g) =~= seq![' ']);
        assert(seq![' '].last() == ' ');
        assert(seq![' '].drop_last() =~= Seq::<char>::empty());
        assert(trim_spaces(join_sp(g)) == trim_spaces(Seq::<char>::empty()));
        assert(split_on(trim_spaces(join_sp(g)), ' ') =~~= g);
    } else {
        lemma_join_sp_last(g);
        let fl = flush_line(join_sp(g));
        lemma_trim_snoc_space(fl);
        assert(trim_spaces(join_sp(g)) == trim_spaces(fl));
        let gp = g.drop_last();
        let wk = g.last();
        assert(gp.push(wk) =~= g);
        lemma_join_sp_push(gp, wk);
        assert(join_sp(g) == join_sp(gp) + wk.push(' '));
        assert(fl =~= join_sp(gp) + wk);
        assert(wk.len() > 0);
        assert(fl.len() > 0);
        assert(fl.last() == wk.last());
        assert(no_space(g[g.len() - 1]));
        assert(fl.last() != ' ');
        assert(trim_spaces(fl) == fl);
        lemma_split_flush(g);
    }
}

/// The words of a sequence of groups, in order.
pub open spec fn flat_words(cs: Seq<Seq<Seq<char>>>) -> Seq<Seq<char>>
    decreases cs.len(),
{
    if cs.len() == 0 {
        Seq::<Seq<char>>::empty()
    } else {
        cs[0] + flat_words(cs.drop_first())
    }
}

/// Re-splitting the joined rendered lines of cleaned groups recovers exactly
/// their words.
proof fn lemma_words_of_render(cs: Seq<Seq<Seq<char>>>)
    requires
        cs.len() >= 1,
        forall|i: int, j: int|
            0 <= i < cs.len() && 0 <= j < cs[i].len() ==> no_space(#[trigger] cs[i][j]),
        forall|i: int| 0 <= i < cs.len() ==> (#[trigger] cs[i]).len() >= 1,
        cs.last() == seq![Seq::<char>::empty()] || cs.last().last().len() > 0,
    ensures
        split_on(join_lines(render(cs)), ' ') == flat_words(cs),
    decreases cs.len(),
{
    if cs.len() == 1 {
        assert(render(cs) == seq![trim_spaces(join_sp(cs[0]))]);
        assert(join_lines(render(cs)) == trim_spaces(join_sp(cs[0])));
        assert(cs.last() == cs[0]);
        assert(forall|j: int| 0 <= j < cs[0].len() ==> no_space(#[trigger] cs[0][j]));
        lemma_split_trim(cs[0]);
        assert(cs.drop_first() =~= Seq::<Seq<Seq<char>>>::empty());
        assert(flat_words(cs.drop_first()) =~= Seq::<Seq<char>>::empty());
        assert(flat_words(cs) =~~= cs[0]);
    } else {
        let rest = cs.drop_first();
        assert(rest.len() >= 1);
        assert(forall|i: int, j: int|
            0 <= i < rest.len() && 0 <= j < rest[i].len() ==> no_space(#[trigger] rest[i][j]));
        assert(forall|i: int| 0 <= i < rest.len() ==> (#[trigger] rest[i]).len() >= 1);
        assert(rest.last() == cs.last());
        lemma_words_of_render(rest);
        assert(render(cs) == seq![flush_line(join_sp(cs[0]))] + render(rest));
        assert(render(rest).len() >= 1);
        assert(render(cs).len() >= 2);
        assert(render(cs)[0] == flush_line(join_sp(cs[0])));
        assert(render(cs).drop_first() =~= render(rest));
        assert(join_lines(render(cs)) == flush_line(join_sp(cs[0])) + seq![' '] + join_lines(
            render(rest),
        ));
        lemma_split_cat(flush_line(join_sp(cs[0])), join_lines(render(rest)));
        assert(forall|j: int| 0 <= j < cs[0].len() ==> no_space(#[trigger] cs[0][j]));
        lemma_split_flush(cs[0]);
        assert(split_on(join_lines(render(cs)), ' ') =~~= cs[0] + flat_words(rest));
        assert(flat_words(cs) == cs[0] + flat_words(rest));
    }
}

/// Dropping trailing empty words keeps a prefix, shortens the accumulator,
/// and leaves no trailing empty word.
proof fn lemma_drop_te(g: Seq<Seq<char>>)
    ensures
        drop_te(g).len() <= g.len(),
        forall|k: int| 0 <= k < drop_te(g).len() ==> #[trigger] drop_te(g)[k] == g[k],
        drop_te(g).len() > 0 ==> drop_te(g).last().len() > 0,
        join_sp(drop_te(g)).len() <= join_sp(g).len(),
        drop_te(g).len() == 0 ==> forall|k: int|
            0 <= k < g.len() ==> (#[trigger] g[k]).len() == 0,
    decreases g.len(),
{
    if g.len() > 0 && g.last().len() == 0 {
        lemma_drop_te(g.drop_last());
        assert(g.drop_last().push(g.last()) =~= g);
        lemma_join_sp_push(g.drop_last(), g.last());
        assert(join_sp(g).len() == join_sp(g.drop_last()).len() + 1);
    }
}

/// Index characterization of cleaning: same length, every group but the last
/// only normalized, the last also stripped of its trailing empty words.
proof fn lemma_clean_index(gs: Seq<Seq<Seq<char>>>)
    requires
        gs.len() >= 1,
    ensures
        clean(gs).len() == gs.len(),
        forall|i: int| 0 <= i < gs.len() - 1 ==> #[trigger] clean(gs)[i] == fix_group(gs[i]),
        clean(gs)[gs.len() - 1] == fix_group(drop_te(gs[gs.len() - 1])),
    decreases gs.len(),
{
    if gs.len() > 1 {
        lemma_clean_index(gs.drop_first());
        let cs = clean(gs);
        assert(cs == seq![fix_group(gs[0])] + clean(gs.drop_first()));
        assert(forall|i: int|
            1 <= i < cs.len() ==> #[trigger] cs[i] == clean(gs.drop_first())[i - 1]);
        assert(forall|i: int|
            0 <= i < gs.drop_first().len() ==> #[trigger] gs.drop_first()[i] == gs[i + 1]);
        assert forall|i: int| 0 <= i < gs.len() - 1 implies #[trigger] clean(gs)[i]
            == fix_group(gs[i]) by {
            if i > 0 {
                assert(cs[i] == clean(gs.drop_first())[i - 1]);
                assert(clean(gs.drop_first())[i - 1] == fix_group(gs.drop_first()[i - 1]));
            }
        }
        assert(cs[gs.len() - 1] == clean(gs.drop_first())[gs.len() - 2]);
    }
}

/// What the rebuild needs of the cleaned groups.
pub open spec fn clean_props(cs: Seq<Seq<Seq<char>>>, width: int) -> bool {
    &&& cs.len() >= 1
    &&& forall|i: int, j: int|
        0 <= i < cs.len() && 0 <= j < cs[i].len() ==> no_space(#[trigger] cs[i][j])
    &&& forall|i: int| 0 <= i < cs.len() ==> (#[trigger] cs[i]).len() >= 1
    &&& forall|i: int|
        0 <= i < cs.len() ==> join_sp(#[trigger] cs[i]).len() <= width || cs[i].len() == 1
    &&& join_sp(cs[0]).len() <= width
    &&& forall|i: int|
        0 <= i < cs.len() - 1 ==> join_sp(#[trigger] cs[i]).len() + cs[i + 1][0].len() >= width
    &&& (cs.last() == seq![Seq::<char>::empty()] || cs.last().last().len() > 0)
}

/// The accumulator of the single-empty-word group.
proof fn lemma_join_sp_single_empty()
    ensures
        join_sp(seq![Seq::<char>::empty()]).len() == 1,
{
    let f = seq![Seq::<char>::empty()];
    assert(f.drop_first() =~= Seq::<Seq<char>>::empty());
    assert(join_sp(Seq::<Seq<char>>::empty()) == Seq::<char>::empty());
    assert(join_sp(f) =~= seq![' ']);
}

/// Cleaning the grouping of a wrap preserves everything the rebuild relies
/// on.
proof fn lemma_clean_props(gs: Seq<Seq<Seq<char>>>, width: int)
    requires
        width >= 1,
        group_props(gs, Seq::<Seq<char>>::empty(), width),
    ensures
        clean_props(clean(gs), width),
        clean(gs).len() == gs.len(),
    decreases gs.len(),
{
    let cs = clean(gs);
    let n = gs.len();
    lemma_clean_index(gs);
    lemma_join_sp_single_empty();
    assert(join_sp(Seq::<Seq<char>>::empty()) == Seq::<char>::empty());
    assert(join_sp(gs[0]).len() <= width) by {
        if gs[0] == Seq::<Seq<char>>::empty() {
        }
    }
    assert forall|i: int, j: int| 0 <= i < cs.len() && 0 <= j < cs[i].len() implies no_space(
        #[trigger] cs[i][j],
    ) by {
        if i < n - 1 {
            assert(cs[i] == fix_group(gs[i]));
            if gs[i].len() > 0 {
                assert(no_space(gs[i][j]));
            }
        } else {
            assert(cs[i] == fix_group(drop_te(gs[n - 1])));
            lemma_drop_te(gs[n - 1]);
            if drop_te(gs[n - 1]).len() > 0 {
                assert(cs[i][j] == gs[n - 1][j]);
                assert(no_space(gs[n - 1][j]));
            }
        }
    }
    assert forall|i: int| 0 <= i < cs.len() implies (#[trigger] cs[i]).len() >= 1 by {
        if i < n - 1 {
            assert(cs[i] == fix_group(gs[i]));
        } else {
            assert(cs[i] == fix_group(drop_te(gs[n - 1])));
        }
    }
    assert forall|i: int| 0 <= i < cs.len() implies join_sp(#[trigger] cs[i]).len() <= width
        || cs[i].len() == 1 by {
        lemma_drop_te(gs[n - 1]);
        if i < n - 1 {
            assert(cs[i] == fix_group(gs[i]));
            if gs[i].len() == 0 {
                assert(cs[i].len() == 1);
            } else {
                assert(join_sp(gs[i]).len() <= width || gs[i].len() == 1);
            }
        } else {
            assert(cs[i] == fix_group(drop_te(gs[n - 1])));
            if drop_te(gs[n - 1]).len() == 0 {
                assert(cs[i].len() == 1);
            } else {
                assert(join_sp(gs[n - 1]).len() <= width || gs[n - 1].len() == 1);
                if gs[n - 1].len() == 1 {
                    assert(drop_te(gs[n - 1]).len() <= 1);
                    assert(cs[i].len() == 1);
                } else {
                    assert(join_sp(drop_te(gs[n - 1])).len() <= join_sp(gs[n - 1]).len());
                }
            }
        }
    }
    assert(join_sp(cs[0]).len() <= width) by {
        lemma_drop_te(gs[0]);
        if n == 1 {
            assert(cs[0] == fix_group(drop_te(gs[0])));
            if drop_te(gs[0]).len() == 0 {
                assert(join_sp(cs[0]).len() == 1);
            } else {
                assert(join_sp(drop_te(gs[0])).len() <= join_sp(gs[0]).len());
            }
        } else {
            assert(cs[0] == fix_group(gs[0]));
            if gs[0].len() == 0 {
                assert(join_sp(cs[0]).len() == 1);
            }
        }
    }
    assert forall|i: int| 0 <= i < cs.len() - 1 implies join_sp(#[trigger] cs[i]).len() + cs[i
        + 1][0].len() >= width by {
        assert(join_sp(gs[i]).len() + gs[i + 1][0].len() >= width);
        assert(cs[i] == fix_group(gs[i]));
        assert(join_sp(cs[i]).len() >= join_sp(gs[i]).len()) by {
            if gs[i].len() == 0 {
                assert(join_sp(cs[i]).len() == 1);
            }
        }
        assert(cs[i + 1][0].len() >= gs[i + 1][0].len()) by {
            if i + 1 < n - 1 {
                assert(cs[i + 1] == fix_group(gs[i + 1]));
                assert(gs[i + 1].len() >= 1);
            } else {
                assert(cs[i + 1] == fix_group(drop_te(gs[n - 1])));
                lemma_drop_te(gs[n - 1]);
                assert(gs[n - 1].len() >= 1);
                if drop_te(gs[n - 1]).len() == 0 {
                    assert(gs[n - 1][0].len() == 0);
                    assert(cs[i + 1][0].len() == 0);
                } else {
                    assert(cs[i + 1][0] == gs[n - 1][0]);
                }
            }
        }
    }
    assert(cs.last() == seq![Seq::<char>::empty()] || cs.last().last().len() > 0) by {
        lemma_drop_te(gs[n - 1]);
        assert(cs[n - 1] == fix_group(drop_te(gs[n - 1])));
        if drop_te(gs[n - 1]).len() == 0 {
            assert(cs[n - 1] == seq![Seq::<char>::empty()]);
        } else {
            assert(cs[n - 1].last().len() > 0);
        }
    }
}

/// The simulation at the heart of idempotence: rebuilding from the words of
/// cleaned groups, with the current group partly consumed into the
/// accumulator, reproduces exactly the rendered lines.
proof fn lemma_rebuild(cs: Seq<Seq<Seq<char>>>, p: Seq<Seq<char>>, q: Seq<Seq<char>>, width: int)
    requires
        width >= 1,
        cs.len() >= 1,
        cs[0] == p + q,
        forall|i: int| 1 <= i < cs.len() ==> (#[trigger] cs[i]).len() >= 1,
        forall|i: int|
            0 <= i < cs.len() ==> join_sp(#[trigger] cs[i]).len() <= width || cs[i].len() == 1,
        forall|i: int|
            0 <= i < cs.len() - 1 ==> join_sp(#[trigger] cs[i]).len() + cs[i + 1][0].len()
                >= width,
        join_sp(p + q).len() <= width || q.len() == 0,
    ensures
        wrap_rec(q + flat_words(cs.drop_first()), join_sp(p), width) == render(cs),
    decreases cs.len(), q.len(),
{
    if q.len() > 0 {
        let w0 = q.first();
        let rem = q + flat_words(cs.drop_first());
        assert(rem.len() > 0);
        assert(rem.first() == w0);
        assert(rem.drop_first() =~= q.drop_first() + flat_words(cs.drop_first()));
        assert(p + q =~= p.push(w0) + q.drop_first());
        lemma_join_sp_app(p, q);
        lemma_join_sp_app(p.push(w0), q.drop_first());
        lemma_join_sp_push(p, w0);
        assert(join_sp(p.push(w0)).len() == join_sp(p).len() + w0.len() + 1);
        assert(join_sp(p).len() + w0.len() < width);
        assert(join_sp(p) + w0.push(' ') == join_sp(p.push(w0)));
        lemma_rebuild(cs, p.push(w0), q.drop_first(), width);
        assert(wrap_rec(rem, join_sp(p), width) == wrap_rec(
            rem.drop_first(),
            join_sp(p) + w0.push(' '),
            width,
        ));
    } else {
        assert(p + q =~= p);
        assert(cs[0] == p);
        if cs.len() == 1 {
            assert(cs.drop_first() =~= Seq::<Seq<Seq<char>>>::empty());
            assert(flat_words(cs.drop_first()) == Seq::<Seq<char>>::empty());
            assert(q + flat_words(cs.drop_first()) =~= Seq::<Seq<char>>::empty());
            assert(wrap_rec(Seq::<Seq<char>>::empty(), join_sp(p), width) == seq![
                trim_spaces(join_sp(p)),
            ]);
            assert(render(cs) == seq![trim_spaces(join_sp(cs[0]))]);
        } else {
            let rest = cs.drop_first();
            assert(rest.len() >= 1);
            assert(rest[0] == cs[1]);
            assert(cs[1].len() >= 1);
            let w0 = cs[1][0];
            assert(flat_words(rest) == rest[0] + flat_words(rest.drop_first()));
            let rem = q + flat_words(rest);
            assert(rem =~= flat_words(rest));
            assert(rem.len() > 0);
            assert(rem.first() == w0);
            assert(join_sp(cs[0]).len() + w0.len() >= width);
            assert(rem.drop_first() =~= cs[1].drop_first() + flat_words(rest.drop_first()));
            assert(seq![w0].drop_first() =~= Seq::<Seq<char>>::empty());
            assert(join_sp(Seq::<Seq<char>>::empty()) == Seq::<char>::empty());
            assert(seq![w0].first() == w0);
            assert(join_sp(seq![w0]) =~= w0.push(' '));
            assert(rest[0] =~= seq![w0] + cs[1].drop_first());
            assert(forall|i: int| 1 <= i < rest.len() ==> (#[trigger] rest[i]).len() >= 1);
            assert(forall|i: int|
                0 <= i < rest.len() ==> join_sp(#[trigger] rest[i]).len() <= width
                    || rest[i].len() == 1);
            assert forall|i: int|
                0 <= i < rest.len() - 1 implies join_sp(#[trigger] rest[i]).len() + rest[i
                + 1][0].len() >= width by {
                assert(rest[i] == cs[i + 1]);
                assert(rest[i + 1] == cs[i + 2]);
                assert(join_sp(cs[i + 1]).len() + cs[i + 2][0].len() >= width);
            }
            if cs[1].len() == 1 {
                assert(cs[1].drop_first() =~= Seq::<Seq<char>>::empty());
                assert(rest[0] =~= seq![w0] + cs[1].drop_first());
            } else {
                assert(join_sp(cs[1]).len() <= width);
                assert(join_sp(seq![w0] + cs[1].drop_first()).len() <= width);
            }
            lemma_rebuild(rest, seq![w0], cs[1].drop_first(), width);
            assert(wrap_rec(rem, join_sp(p), width) == seq![flush_line(join_sp(p))]
                + wrap_rec(rem.drop_first(), w0.push(' '), width));
            assert(render(cs) == seq![flush_line(join_sp(cs[0]))] + render(rest));
            assert(wrap_rec(rem.drop_first(), join_sp(seq![w0]), width) == render(rest));
            assert(wrap_rec(q + flat_words(cs.drop_first()), join_sp(p), width) =~~= render(
                cs,
            ));
        }
    }
}

/// Law: re-joining wrapped lines with single spaces and wrapping again gives
/// back the same lines, at any positive width.
pub proof fn lemma_wrap_idempotent(s: Seq<char>, width: int)
    requires
        width >= 1,
    ensures
        wrap_spec(join_lines(wrap_spec(s, width)), width) == wrap_spec(s, width),
{
    let ws = split_on(s, ' ');
    lemma_split_on_no_space(s);
    lemma_split_on_nonempty(s, ' ');
    let g0 = Seq::<Seq<char>>::empty();
    assert(join_sp(g0) == Seq::<char>::empty());
    lemma_grouping_render(ws, g0, width);
    lemma_group_props(ws, g0, width);
    let gs = grouping(ws, g0, width);
    lemma_render_clean(gs);
    lemma_clean_props(gs, width);
    let cs = clean(gs);
    lemma_words_of_render(cs);
    let rejoined = join_lines(wrap_spec(s, width));
    assert(wrap_spec(s, width) == render(gs));
    assert(render(cs) == render(gs));
    assert(split_on(rejoined, ' ') == flat_words(cs));
    assert(cs[0] + flat_words(cs.drop_first()) == flat_words(cs));
    assert(Seq::<Seq<char>>::empty() + cs[0] =~= cs[0]);
    lemma_rebuild(cs, Seq::<Seq<char>>::empty(), cs[0], width);
    assert(wrap_spec(rejoined, width) == wrap_rec(flat_words(cs), Seq::<char>::empty(), width));
    assert(wrap_rec(cs[0] + flat_words(cs.drop_first()), join_sp(Seq::<Seq<char>>::empty()), width)
        == render(cs));
}

/// Law: wrapping the empty text at any positive width yields exactly one
/// empty line.
pub proof fn lemma_wrap_empty(width: int)
    requires
        width >= 1,
    ensures
        wrap_spec(Seq::<char>::empty(), width) == seq![Seq::<char>::empty()],
{
    let ws = split_on(Seq::<char>::empty(), ' ');
    assert(ws == seq![Seq::<char>::empty()]);
    assert(ws.first() == Seq::<char>::empty());
    let buf2 = Seq::<char>::empty() + Seq::<char>::empty().push(' ');
    assert(buf2 =~= seq![' ']);
    assert(buf2.last() == ' ');
    assert(buf2.drop_last() =~= Seq::<char>::empty());
    assert(trim_spaces(buf2) == trim_spaces(Seq::<char>::empty()));
    assert(ws.drop_first() =~= Seq::<Seq<char>>::empty());
    assert(wrap_rec(ws.drop_first(), buf2, width) == seq![trim_spaces(buf2)]);
    assert(wrap_spec(Seq::<char>::empty(), width) =~~= seq![Seq::<char>::empty()]);
}

} // verus!
