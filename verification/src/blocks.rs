//! Block builders: pure layout of one typed content block into lines of text
//! at a given width.

use vstd::prelude::*;
use crate::errors::LayoutError;
use crate::wrap::{split_on, split_char, wrap_spec, wrap_text};

verus! {

/// `n` copies of `c`.
pub open spec fn repeat_char_spec(c: char, n: int) -> Seq<char> {
    Seq::new(n as nat, |i: int| c)
}

/// `n` spaces.
pub open spec fn spaces(n: int) -> Seq<char> {
    repeat_char_spec(' ', n)
}

/// A string of `n` copies of `c`.
pub fn repeat_char(c: char, n: usize) -> (r: String)
    ensures
        r@ == repeat_char_spec(c, n as int),
{
    let mut r = String::new();
    let mut i: usize = 0;
    while i < n
        invariant
            i <= n,
            r@ =~= repeat_char_spec(c, i as int),
        decreases n - i,
    {
        crate::wrap::push_char(&mut r, c);
        proof {
            assert(r@ =~= repeat_char_spec(c, i + 1));
        }
        i = i + 1;
    }
    r
}

/// The lines of a paragraph: one blank spacer line, then the text indented by
/// four columns and word-wrapped.
pub open spec fn para_spec(text: Seq<char>, width: int) -> Seq<Seq<char>> {
    seq![Seq::<char>::empty()] + wrap_spec(spaces(4) + text, width)
}

/// One wrapped line centered within `width` by equal indentation on both
/// sides (one column short when the leftover is odd).
pub open spec fn center_line(l: Seq<char>, width: int) -> Seq<char> {
    spaces((width - l.len()) / 2) + l + spaces((width - l.len()) / 2)
}

/// The lines of a title: one blank spacer line, then the wrapped text with
/// every line centered.
pub open spec fn title_spec(text: Seq<char>, width: int) -> Seq<Seq<char>> {
    seq![Seq::<char>::empty()] + wrap_spec(text, width).map_values(
        |l: Seq<char>| center_line(l, width),
    )
}

/// A plain paragraph block.
pub struct Paragraph;

impl Paragraph {
    /// One blank line, then `text` indented by four columns and wrapped.
    /// Fails only when the text is too long for the machine to index.
    pub fn build(text: &str, width: usize) -> (r: Result<Vec<String>, LayoutError>)
        ensures
            r is Err <==> text@.len() + 5 > usize::MAX,
            r matches Err(e) ==> e is Overflow,
            r matches Ok(v) ==> v.deep_view() == para_spec(text@, width as int),
    {
        let len = text.unicode_len();
        if len > usize::MAX - 5 {
            return Err(LayoutError::Overflow);
        }
        let mut indented = repeat_char(' ', 4);
        indented.append(text);
        proof {
            assert(indented@ =~= spaces(4) + text@);
        }
        let wrapped = wrap_text(indented.as_str(), width);
        let mut r: Vec<String> = Vec::new();
        r.push(String::new());
        let ghost first = r.deep_view();
        let mut rest = wrapped;
        r.append(&mut rest);
        proof {
            assert(r.deep_view() =~~= para_spec(text@, width as int));
        }
        Ok(r)
    }
}

/// A title block: centered lines, drawn emphasized.
pub struct Title;

impl Title {
    /// One blank line, then `text` wrapped and each line centered within
    /// `width`. Fails when a wrapped line (an oversized single word) is wider
    /// than `width`, or when the text is too long for the machine to index.
    pub fn build(text: &str, width: usize) -> (r: Result<Vec<String>, LayoutError>)
        ensures
            r is Ok <==> (text@.len() < usize::MAX && forall|i: int|
                0 <= i < wrap_spec(text@, width as int).len() ==> (#[trigger] wrap_spec(
                    text@,
                    width as int,
                )[i]).len() <= width),
            r matches Ok(v) ==> v.deep_view() == title_spec(text@, width as int),
            r matches Err(e) ==> (e is Overflow <==> text@.len() >= usize::MAX),
    {
        let len = text.unicode_len();
        if len == usize::MAX {
            return Err(LayoutError::Overflow);
        }
        let wrapped = wrap_text(text, width);
        let ghost ls = wrap_spec(text@, width as int);
        let n = wrapped.len();
        let mut r: Vec<String> = Vec::new();
        r.push(String::new());
        let mut i: usize = 0;
        proof {
            assert(r.deep_view() =~~= seq![Seq::<char>::empty()] + ls.take(0).map_values(
                |l: Seq<char>| center_line(l, width as int),
            ));
        }
        while i < n
            invariant
                i <= n,
                n == wrapped@.len(),
                text@.len() < usize::MAX,
                ls == wrap_spec(text@, width as int),
                wrapped.deep_view() == ls,
                forall|j: int| 0 <= j < i ==> (#[trigger] ls[j]).len() <= width,
                r.deep_view() == seq![Seq::<char>::empty()] + ls.take(i as int).map_values(
                    |l: Seq<char>| center_line(l, width as int),
                ),
            decreases n - i,
        {
            let line = &wrapped[i];
            let line_len = line.as_str().unicode_len();
            proof {
                assert(line@ == ls[i as int]);
            }
            if line_len > width {
                proof {
                    assert(0 <= i < ls.len() && ls[i as int].len() > width);
                }
                return Err(LayoutError::TooNarrow);
            }
            let ident = (width - line_len) / 2;
            let mut row = repeat_char(' ', ident);
            row.append(line.as_str());
            let pad = repeat_char(' ', ident);
            row.append(pad.as_str());
            proof {
                assert(row@ == center_line(ls[i as int], width as int));
            }
            let ghost prev = r.deep_view();
            r.push(row);
            proof {
                assert(r.deep_view() =~~= prev.push(center_line(ls[i as int], width as int)));
                assert(ls.take(i + 1) =~= ls.take(i as int).push(ls[i as int]));
                assert(ls.take(i + 1).map_values(|l: Seq<char>| center_line(l, width as int))
                    =~~= ls.take(i as int).map_values(
                    |l: Seq<char>| center_line(l, width as int),
                ).push(center_line(ls[i as int], width as int)));
                assert(r.deep_view() =~~= seq![Seq::<char>::empty()] + ls.take(
                    i + 1,
                ).map_values(|l: Seq<char>| center_line(l, width as int)));
            }
            i = i + 1;
        }
        proof {
            assert(ls.take(n as int) =~= ls);
            assert(r.deep_view() =~~= title_spec(text@, width as int));
        }
        Ok(r)
    }
}

/// A lead block: the lines of a paragraph, drawn emphasized.
pub struct Lead;

impl Lead {
    /// The same lines as [`Paragraph::build`]; the emphasis is presentation,
    /// carried by the block kind, not by the text.
    pub fn build(text: &str, width: usize) -> (r: Result<Vec<String>, LayoutError>)
        ensures
            r is Err <==> text@.len() + 5 > usize::MAX,
            r matches Err(e) ==> e is Overflow,
            r matches Ok(v) ==> v.deep_view() == para_spec(text@, width as int),
    {
        Paragraph::build(text, width)
    }
}

/// A subtitle block: an extra blank line, then an emphasized paragraph.
pub struct Subtitle;

impl Subtitle {
    /// One blank line, then the lines of [`Paragraph::build`].
    pub fn build(text: &str, width: usize) -> (r: Result<Vec<String>, LayoutError>)
        ensures
            r is Err <==> text@.len() + 5 > usize::MAX,
            r matches Err(e) ==> e is Overflow,
            r matches Ok(v) ==> v.deep_view() == seq![Seq::<char>::empty()] + para_spec(
                text@,
                width as int,
            ),
    {
        let para = Paragraph::build(text, width)?;
        let mut r: Vec<String> = Vec::new();
        r.push(String::new());
        let mut rest = para;
        r.append(&mut rest);
        proof {
            assert(r.deep_view() =~~= seq![Seq::<char>::empty()] + para_spec(
                text@,
                width as int,
            ));
        }
        Ok(r)
    }
}

/// The wrapped rows of one boxed paragraph: text is wrapped to the interior
/// width, and a leading empty line produced by the wrapper (a first word that
/// already fills the interior) is dropped.
pub open spec fn box_rows(p: Seq<char>, width: int) -> Seq<Seq<char>> {
    let ls = wrap_spec(p, width - 6);
    if ls.len() > 1 && ls[0].len() == 0 {
        ls.drop_first()
    } else {
        ls
    }
}

/// The interior rows of a box: each paragraph's rows in order, one blank row
/// between consecutive paragraphs.
pub open spec fn boxed_interior(ps: Seq<Seq<char>>, width: int) -> Seq<Seq<char>>
    decreases ps.len(),
{
    if ps.len() == 0 {
        Seq::<Seq<char>>::empty()
    } else if ps.len() == 1 {
        box_rows(ps[0], width)
    } else {
        boxed_interior(ps.drop_last(), width) + seq![Seq::<char>::empty()] + box_rows(
            ps.last(),
            width,
        )
    }
}

/// One interior row framed by the borders and padded to exactly `width`
/// columns.
pub open spec fn framed_row(r: Seq<char>, width: int) -> Seq<char> {
    seq![' ', '\u{2502}', ' '] + r + spaces(width - 6 - r.len()) + seq![' ', '\u{2502}', ' ']
}

/// The top border row, exactly `width` columns.
pub open spec fn box_top(width: int) -> Seq<char> {
    seq![' ', '\u{250c}'] + repeat_char_spec('\u{2500}', width - 4) + seq!['\u{2510}', ' ']
}

/// The bottom border row, exactly `width` columns.
pub open spec fn box_bottom(width: int) -> Seq<char> {
    seq![' ', '\u{2514}'] + repeat_char_spec('\u{2500}', width - 4) + seq!['\u{2518}', ' ']
}

/// Every row of the paragraph fits the box interior.
pub open spec fn rows_fit(p: Seq<char>, width: int) -> bool {
    forall|i: int|
        0 <= i < box_rows(p, width).len() ==> (#[trigger] box_rows(p, width)[i]).len() + 6
            <= width
}

/// The full output of a box: one blank row of spaces, the top border, every
/// interior row framed, and the bottom border.
pub open spec fn boxed_spec(text: Seq<char>, width: int) -> Seq<Seq<char>> {
    seq![spaces(width), box_top(width)] + boxed_interior(split_on(text, '\n'), width).map_values(
        |r: Seq<char>| framed_row(r, width),
    ) + seq![box_bottom(width)]
}

/// A boxed quote block, drawn inside a box-drawing frame.
pub struct Boxed;

impl Boxed {
    /// Frames `text` (paragraphs separated by newlines) in a box whose every
    /// row has exactly `width` columns. Fails when the frame itself does not
    /// fit (`width < 6`), when an interior row cannot be padded to the
    /// interior width, or when the text is too long for the machine to index.
    pub fn build(text: &str, width: usize) -> (r: Result<Vec<String>, LayoutError>)
        ensures
            width < 6 ==> r == Err::<Vec<String>, LayoutError>(LayoutError::TooNarrow),
            width >= 6 && text@.len() >= usize::MAX ==> r == Err::<Vec<String>, LayoutError>(
                LayoutError::Overflow,
            ),
            width >= 6 && text@.len() < usize::MAX ==> {
                &&& (r is Ok <==> forall|j: int|
                    0 <= j < split_on(text@, '\n').len() ==> rows_fit(
                        #[trigger] split_on(text@, '\n')[j],
                        width as int,
                    ))
                &&& (r matches Err(e) ==> e is TooNarrow)
            },
            r matches Ok(v) ==> {
                &&& v.deep_view() == boxed_spec(text@, width as int)
                &&& v@.len() == 3 + boxed_interior(split_on(text@, '\n'), width as int).len()
                &&& forall|i: int|
                    0 <= i < v.deep_view().len() ==> (#[trigger] v.deep_view()[i]).len()
                        == width
            },
    {
        if width < 6 {
            return Err(LayoutError::TooNarrow);
        }
        let len = text.unicode_len();
        if len == usize::MAX {
            return Err(LayoutError::Overflow);
        }
        let paragraphs = split_char(text, '\n');
        let ghost ps = split_on(text@, '\n');
        proof {
            crate::wrap::lemma_split_on_piece_len(text@, '\n');
        }
        let np = paragraphs.len();
        let mut interior: Vec<String> = Vec::new();
        let mut k: usize = 0;
        proof {
            assert(ps.take(0) =~= Seq::<Seq<char>>::empty());
        }
        while k < np
            invariant
                k <= np,
                np == paragraphs@.len(),
                6 <= width,
                text@.len() < usize::MAX,
                paragraphs.deep_view() == ps,
                ps == split_on(text@, '\n'),
                forall|j: int| 0 <= j < ps.len() ==> (#[trigger] ps[j]).len() <= text@.len(),
                forall|j: int| 0 <= j < k ==> rows_fit(#[trigger] ps[j], width as int),
                interior.deep_view() == boxed_interior(ps.take(k as int), width as int),
                forall|i: int|
                    0 <= i < interior.deep_view().len() ==> (#[trigger] interior.deep_view()[
                        i
                    ]).len() + 6 <= width,
            decreases np - k,
        {
            let p = &paragraphs[k];
            proof {
                assert(p@ == ps[k as int]);
            }
            let mut rows = wrap_text(p.as_str(), width - 6);
            if rows.len() > 1 && rows[0].as_str().is_empty() {
                let ghost before = rows.deep_view();
                rows.remove(0);
                proof {
                    assert(rows.deep_view() =~~= before.drop_first());
                }
            }
            proof {
                assert(rows.deep_view() == box_rows(ps[k as int], width as int));
            }
            let nr = rows.len();
            let mut m: usize = 0;
            while m < nr
                invariant
                    m <= nr,
                    nr == rows@.len(),
                    6 <= width,
                    text@.len() < usize::MAX,
                    rows.deep_view() == box_rows(ps[k as int], width as int),
                    k < np,
                    np == ps.len(),
                    ps == split_on(text@, '\n'),
                    forall|j: int|
                        0 <= j < m ==> (#[trigger] rows.deep_view()[j]).len() + 6 <= width,
                decreases nr - m,
            {
                let row_len = rows[m].as_str().unicode_len();
                if row_len > width - 6 {
                    proof {
                        assert(box_rows(ps[k as int], width as int)[m as int].len() + 6
                            > width);
                        assert(!rows_fit(ps[k as int], width as int));
                    }
                    return Err(LayoutError::TooNarrow);
                }
                m = m + 1;
            }
            let ghost prev_interior = interior.deep_view();
            if k > 0 {
                interior.push(String::new());
            }
            interior.append(&mut rows);
            proof {
                assert(ps.take(k + 1).drop_last() =~= ps.take(k as int));
                assert(ps.take(k + 1).last() == ps[k as int]);
                if k == 0 {
                    assert(interior.deep_view() =~~= boxed_interior(
                        ps.take(k + 1),
                        width as int,
                    ));
                } else {
                    assert(interior.deep_view() =~~= prev_interior + seq![
                        Seq::<char>::empty(),
                    ] + box_rows(ps[k as int], width as int));
                    assert(interior.deep_view() =~~= boxed_interior(
                        ps.take(k + 1),
                        width as int,
                    ));
                }
            }
            k = k + 1;
        }
        proof {
            assert(ps.take(np as int) =~= ps);
        }
        let dashes = repeat_char('\u{2500}', width - 4);
        let mut top = String::new();
        top.append(" \u{250c}");
        top.append(dashes.as_str());
        top.append("\u{2510} ");
        let mut bottom = String::new();
        bottom.append(" \u{2514}");
        bottom.append(dashes.as_str());
        bottom.append("\u{2518} ");
        proof {
            reveal_strlit(" \u{250c}");
            reveal_strlit("\u{2510} ");
            reveal_strlit(" \u{2514}");
            reveal_strlit("\u{2518} ");
            assert(top@ =~= box_top(width as int));
            assert(bottom@ =~= box_bottom(width as int));
        }
        let mut out: Vec<String> = Vec::new();
        out.push(repeat_char(' ', width));
        out.push(top);
        let ni = interior.len();
        let mut m: usize = 0;
        proof {
            assert(out.deep_view() =~~= seq![spaces(width as int), box_top(width as int)]
                + interior.deep_view().take(0).map_values(
                |r: Seq<char>| framed_row(r, width as int),
            ));
        }
        while m < ni
            invariant
                m <= ni,
                ni == interior@.len(),
                6 <= width,
                interior.deep_view() == boxed_interior(ps, width as int),
                forall|i: int|
                    0 <= i < interior.deep_view().len() ==> (#[trigger] interior.deep_view()[
                        i
                    ]).len() + 6 <= width,
                out.deep_view() == seq![spaces(width as int), box_top(width as int)]
                    + interior.deep_view().take(m as int).map_values(
                    |r: Seq<char>| framed_row(r, width as int),
                ),
            decreases ni - m,
        {
            let row = &interior[m];
            let row_len = row.as_str().unicode_len();
            proof {
                assert(row@ == interior.deep_view()[m as int]);
            }
            let pad = repeat_char(' ', width - 6 - row_len);
            let mut framed = String::new();
            framed.append(" \u{2502} ");
            framed.append(row.as_str());
            framed.append(pad.as_str());
            framed.append(" \u{2502} ");
            proof {
                reveal_strlit(" \u{2502} ");
                assert(framed@ =~= framed_row(interior.deep_view()[m as int], width as int));
            }
            let ghost prev_out = out.deep_view();
            out.push(framed);
            proof {
                let f = |r: Seq<char>| framed_row(r, width as int);
                assert(out.deep_view() =~~= prev_out.push(
                    framed_row(interior.deep_view()[m as int], width as int),
                ));
                assert(interior.deep_view().take(m + 1) =~= interior.deep_view().take(
                    m as int,
                ).push(interior.deep_view()[m as int]));
                assert(interior.deep_view().take(m + 1).map_values(f)
                    =~~= interior.deep_view().take(m as int).map_values(f).push(
                    f(interior.deep_view()[m as int]),
                ));
                assert(out.deep_view() =~~= seq![
                    spaces(width as int),
                    box_top(width as int),
                ] + interior.deep_view().take(m + 1).map_values(f));
            }
            m = m + 1;
        }
        let ghost prev_out = out.deep_view();
        out.push(bottom);
        proof {
        let f = |r: Seq<char>| framed_row(r, width as int);
            assert(interior.deep_view().take(ni as int) =~= interior.deep_view());
            assert(out.deep_view() =~~= boxed_spec(text@, width as int));
            assert forall|i: int| 0 <= i < out.deep_view().len() implies (
            #[trigger] out.deep_view()[i]).len() == width by {
                let v = out.deep_view();
                let inner = boxed_interior(ps, width as int).map_values(f);
                if i >= 2 && i < 2 + inner.len() {
                    assert(v[i] == inner[i - 2]);
                    assert(inner[i - 2] == f(boxed_interior(ps, width as int)[i - 2]));
                }
            }
        }
        Ok(out)
    }
}

} // verus!
