//! The reflow engine: a formatted text block is split into lines, fenced
//! code is kept verbatim and hard-wrapped, prose is word-wrapped, and no
//! emitted line is wider than the target column, measured in display
//! columns (a wide character fills two, a combining mark none). The one
//! unavoidable exception is a single character wider than the whole
//! column. Styling is per line: a line is either prose or code carrying
//! its fence's language tag.

use vstd::prelude::*;
use vstd::string::*;
use crate::text::{split_text_lines, split_lines, str_chars, chars_to_string};

verus! {

/// How one display line is styled.
#[derive(Debug, PartialEq)]
pub enum LineKind {
    Paragraph,
    Code { tag: String },
}

/// One wrapped display line.
#[derive(Debug, PartialEq)]
pub struct StyledLine {
    pub kind: LineKind,
    pub body: String,
}

pub enum LineKindView {
    Paragraph,
    Code { tag: Seq<char> },
}

pub struct StyledLineView {
    pub kind: LineKindView,
    pub body: Seq<char>,
}

impl View for LineKind {
    type V = LineKindView;

    open spec fn view(&self) -> LineKindView {
        match self {
            LineKind::Paragraph => LineKindView::Paragraph,
            LineKind::Code { tag } => LineKindView::Code { tag: tag@ },
        }
    }
}

impl View for StyledLine {
    type V = StyledLineView;

    open spec fn view(&self) -> StyledLineView {
        StyledLineView { kind: self.kind@, body: self.body@ }
    }
}

/// The views of a vector of styled lines.
pub open spec fn lines_view(v: Seq<StyledLine>) -> Seq<StyledLineView> {
    v.map_values(|l: StyledLine| l@)
}

/// How many terminal columns one character occupies when displayed;
/// a control character occupies none.
pub uninterp spec fn col_width(c: char) -> nat;

/// Relies on `unicode_width::UnicodeWidthChar::width`: the displayed
/// width of a character in columns, a function of the character alone;
/// the crate's tables hand back at most three columns, and none for a
/// control character.
#[verifier::external_body]
fn char_columns(c: char) -> (r: usize)
    ensures
        r as nat == col_width(c),
        r <= 3,
{
    unicode_width::UnicodeWidthChar::width(c).unwrap_or(0)
}

/// The display columns a text occupies.
pub open spec fn cols_of(s: Seq<char>) -> nat
    decreases s.len(),
{
    if s.len() == 0 {
        0
    } else {
        cols_of(s.drop_last()) + col_width(s.last())
    }
}

pub proof fn lemma_cols_of_concat(a: Seq<char>, b: Seq<char>)
    ensures
        cols_of(a + b) == cols_of(a) + cols_of(b),
    decreases b.len(),
{
    if b.len() == 0 {
        assert(a + b =~= a);
    } else {
        assert((a + b).drop_last() =~= a + b.drop_last());
        assert((a + b).last() == b.last());
        lemma_cols_of_concat(a, b.drop_last());
    }
}

pub proof fn lemma_cols_of_prefix(s: Seq<char>, i: int)
    requires
        0 <= i <= s.len(),
    ensures
        cols_of(s.take(i)) <= cols_of(s),
{
    assert(s =~= s.take(i) + s.skip(i));
    lemma_cols_of_concat(s.take(i), s.skip(i));
}

/// Measure a text in columns, exactly up to a generous cap, and learn
/// that no character reports more than three columns.
fn text_columns(v: &Vec<char>) -> (r: usize)
    ensures
        cols_of(v@) <= 3 * v@.len(),
        r as nat == (if cols_of(v@) <= 0x4000_0000 {
            cols_of(v@)
        } else {
            0x4000_0000 as nat
        }),
{
    let mut sum: usize = 0;
    let mut i: usize = 0;
    while i < v.len()
        invariant
            i <= v@.len(),
            cols_of(v@.take(i as int)) <= 3 * i,
            sum as nat == (if cols_of(v@.take(i as int)) <= 0x4000_0000 {
                cols_of(v@.take(i as int))
            } else {
                0x4000_0000 as nat
            }),
        decreases v.len() - i,
    {
        proof {
            assert(v@.take(i as int + 1).drop_last() =~= v@.take(i as int));
            assert(v@.take(i as int + 1).last() == v@[i as int]);
        }
        let cw = char_columns(v[i]);
        if sum >= 0x4000_0000 || cw > 0x4000_0000 - sum {
            sum = 0x4000_0000;
        } else {
            sum = sum + cw;
        }
        i = i + 1;
    }
    proof {
        assert(v@.take(v@.len() as int) =~= v@);
    }
    sum
}

/// Index of the first space in `s`, or `s.len()` if there is none.
pub open spec fn word_end_at(s: Seq<char>) -> int
    decreases s.len(),
{
    if s.len() == 0 {
        0
    } else if s[0] == ' ' {
        0
    } else {
        1 + word_end_at(s.drop_first())
    }
}

pub proof fn lemma_word_end_at_range(s: Seq<char>)
    ensures
        0 <= word_end_at(s) <= s.len(),
        s.len() > 0 && s[0] != ' ' ==> word_end_at(s) >= 1,
        forall|k: int| 0 <= k < word_end_at(s) ==> s[k] != ' ',
        word_end_at(s) < s.len() ==> s[word_end_at(s)] == ' ',
    decreases s.len(),
{
    if s.len() > 0 && s[0] != ' ' {
        lemma_word_end_at_range(s.drop_first());
        assert(forall|k: int| 1 <= k < word_end_at(s) ==> s[k] == s.drop_first()[k - 1]);
    }
}

/// `word_end_at` is determined by the position of the first space.
pub proof fn lemma_word_end_at_is(s: Seq<char>, i: int)
    requires
        0 <= i <= s.len(),
        forall|k: int| 0 <= k < i ==> s[k] != ' ',
        i < s.len() ==> s[i] == ' ',
    ensures
        word_end_at(s) == i,
    decreases i,
{
    if i > 0 {
        assert(forall|k: int| 0 <= k < i - 1 ==> s.drop_first()[k] == s[k + 1]);
        lemma_word_end_at_is(s.drop_first(), i - 1);
    }
}

/// The space-separated words of a line, in order, without empties.
pub open spec fn words_of(s: Seq<char>) -> Seq<Seq<char>>
    decreases s.len(), via words_of_dec
{
    if s.len() == 0 {
        Seq::empty()
    } else if s[0] == ' ' {
        words_of(s.drop_first())
    } else {
        seq![s.take(word_end_at(s))] + words_of(s.skip(word_end_at(s)))
    }
}

#[via_fn]
proof fn words_of_dec(s: Seq<char>) {
    if s.len() > 0 && s[0] != ' ' {
        lemma_word_end_at_range(s);
    }
}

/// Every word of a line is non-empty and has no space in it.
pub proof fn lemma_words_of_plain(s: Seq<char>)
    ensures
        forall|m: int| 0 <= m < words_of(s).len() ==> #[trigger] words_of(s)[m].len() >= 1,
    decreases s.len(),
{
    if s.len() > 0 {
        if s[0] == ' ' {
            lemma_words_of_plain(s.drop_first());
            assert(words_of(s) == words_of(s.drop_first()));
        } else {
            lemma_word_end_at_range(s);
            lemma_words_of_plain(s.skip(word_end_at(s)));
            let e = word_end_at(s);
            assert forall|m: int| 0 <= m < words_of(s).len() implies #[trigger] words_of(
                s,
            )[m].len() >= 1 by {
                if m > 0 {
                    assert(words_of(s)[m] == words_of(s.skip(e))[m - 1]);
                } else {
                    assert(words_of(s)[0] == s.take(e));
                }
            }
        }
    }
}

/// How many leading characters of `s` fit within `w` columns.
pub open spec fn chunk_take(s: Seq<char>, w: int) -> int
    decreases s.len(),
{
    if s.len() == 0 {
        0
    } else if col_width(s[0]) > w {
        0
    } else {
        1 + chunk_take(s.drop_first(), w - col_width(s[0]))
    }
}

pub proof fn lemma_chunk_take(s: Seq<char>, w: int)
    ensures
        0 <= chunk_take(s, w) <= s.len(),
        w >= 0 ==> cols_of(s.take(chunk_take(s, w))) <= w,
    decreases s.len(),
{
    if s.len() > 0 && col_width(s[0]) <= w {
        lemma_chunk_take(s.drop_first(), w - col_width(s[0]));
        let k = chunk_take(s, w);
        if w >= 0 {
            assert(s.take(k) =~= seq![s[0]] + s.drop_first().take(k - 1));
            lemma_cols_of_concat(seq![s[0]], s.drop_first().take(k - 1));
            assert(cols_of(seq![s[0]]) == col_width(s[0])) by {
                assert(seq![s[0]].drop_last() =~= Seq::<char>::empty());
                assert(cols_of(Seq::<char>::empty()) == 0);
            }
        }
    }
    if s.len() == 0 && w >= 0 {
        assert(s.take(0) =~= s);
    }
}

/// Whether one display line fits `w` columns; a lone character wider
/// than the whole column is the unavoidable exception.
pub open spec fn line_fits(body: Seq<char>, w: int) -> bool {
    cols_of(body) <= w || body.len() == 1
}

/// A text cut into pieces, each filling at most `w` columns (except a
/// lone over-wide character); the concatenation of the pieces is the
/// text, and an empty text is one empty piece.
pub open spec fn chunks_of(s: Seq<char>, w: int) -> Seq<Seq<char>>
    decreases s.len(), via chunks_of_dec
{
    let k = chunk_take(s, w);
    let k1 = if k < 1 {
        1
    } else {
        k
    };
    if s.len() <= k1 {
        seq![s]
    } else {
        seq![s.take(k1)] + chunks_of(s.skip(k1), w)
    }
}

#[via_fn]
proof fn chunks_of_dec(s: Seq<char>, w: int) {
    lemma_chunk_take(s, w);
}

pub proof fn lemma_chunks_of_cols(s: Seq<char>, w: int)
    requires
        w >= 1,
    ensures
        forall|m: int| 0 <= m < chunks_of(s, w).len() ==> line_fits(
            #[trigger] chunks_of(s, w)[m],
            w,
        ),
        s.len() >= 1 ==> forall|m: int|
            0 <= m < chunks_of(s, w).len() ==> #[trigger] chunks_of(s, w)[m].len() >= 1,
    decreases s.len(),
{
    lemma_chunk_take(s, w);
    let k = chunk_take(s, w);
    let k1: int = if k < 1 {
        1
    } else {
        k
    };
    if s.len() <= k1 {
        if k >= 1 {
            assert(s.take(s.len() as int) =~= s);
            lemma_cols_of_prefix(s.take(k), s.len() as int);
            assert(s.take(k).take(s.len() as int) =~= s);
            assert(cols_of(s) <= w);
        }
    } else {
        if k >= 1 {
            assert(line_fits(s.take(k1), w));
        } else {
            assert(s.take(k1).len() == 1);
        }
        lemma_chunks_of_cols(s.skip(k1), w);
        assert forall|m: int| 0 <= m < chunks_of(s, w).len() implies line_fits(
            #[trigger] chunks_of(s, w)[m],
            w,
        ) by {
            if m > 0 {
                assert(chunks_of(s, w)[m] == chunks_of(s.skip(k1), w)[m - 1]);
            }
        }
        assert forall|m: int| 0 <= m < chunks_of(s, w).len() implies #[trigger] chunks_of(
            s,
            w,
        )[m].len() >= 1 by {
            if m > 0 {
                assert(chunks_of(s, w)[m] == chunks_of(s.skip(k1), w)[m - 1]);
            }
        }
    }
}

/// The words of a paragraph with every over-wide word already cut into
/// pieces that fit the column.
pub open spec fn chunked_words(ws: Seq<Seq<char>>, w: int) -> Seq<Seq<char>>
    decreases ws.len(),
{
    if ws.len() == 0 {
        Seq::empty()
    } else {
        chunks_of(ws[0], w) + chunked_words(ws.drop_first(), w)
    }
}

pub proof fn lemma_chunked_words_width(ws: Seq<Seq<char>>, w: int)
    requires
        w >= 1,
        forall|m: int| 0 <= m < ws.len() ==> #[trigger] ws[m].len() >= 1,
    ensures
        forall|m: int|
            0 <= m < chunked_words(ws, w).len() ==> #[trigger] chunked_words(ws, w)[m].len() >= 1
                && line_fits(chunked_words(ws, w)[m], w),
    decreases ws.len(),
{
    if ws.len() > 0 {
        lemma_chunks_of_cols(ws[0], w);
        assert(forall|m: int| 0 <= m < ws.len() - 1 ==> ws.drop_first()[m] == ws[m + 1]);
        lemma_chunked_words_width(ws.drop_first(), w);
        let head = chunks_of(ws[0], w);
        let tail = chunked_words(ws.drop_first(), w);
        assert forall|m: int| 0 <= m < chunked_words(ws, w).len() implies #[trigger] chunked_words(
            ws,
            w,
        )[m].len() >= 1 && line_fits(chunked_words(ws, w)[m], w) by {
            if m < head.len() {
                assert(chunked_words(ws, w)[m] == head[m]);
            } else {
                assert(chunked_words(ws, w)[m] == tail[m - head.len()]);
            }
        }
    }
}

/// Greedy filling of lines from words, single spaces between words.
pub open spec fn fill_from(ws: Seq<Seq<char>>, k: int, cur: Seq<char>, w: int) -> Seq<Seq<char>>
    decreases ws.len() - k,
{
    if k < 0 || k >= ws.len() {
        if cur.len() == 0 {
            Seq::empty()
        } else {
            seq![cur]
        }
    } else {
        if cur.len() == 0 {
            fill_from(ws, k + 1, ws[k], w)
        } else if cols_of(cur) + col_width(' ') + cols_of(ws[k]) <= w {
            fill_from(ws, k + 1, cur + seq![' '] + ws[k], w)
        } else {
            seq![cur] + fill_from(ws, k + 1, ws[k], w)
        }
    }
}

pub proof fn lemma_fill_from_width(ws: Seq<Seq<char>>, k: int, cur: Seq<char>, w: int)
    requires
        w >= 1,
        line_fits(cur, w),
        forall|m: int| 0 <= m < ws.len() ==> #[trigger] ws[m].len() >= 1 && line_fits(ws[m], w),
    ensures
        forall|m: int|
            0 <= m < fill_from(ws, k, cur, w).len() ==> line_fits(
                #[trigger] fill_from(ws, k, cur, w)[m],
                w,
            ),
    decreases ws.len() - k,
{
    if 0 <= k < ws.len() {
        if cur.len() == 0 {
            lemma_fill_from_width(ws, k + 1, ws[k], w);
            assert(fill_from(ws, k, cur, w) == fill_from(ws, k + 1, ws[k], w));
        } else if cols_of(cur) + col_width(' ') + cols_of(ws[k]) <= w {
            lemma_cols_of_glue(cur, ws[k]);
            lemma_fill_from_width(ws, k + 1, cur + seq![' '] + ws[k], w);
            assert(fill_from(ws, k, cur, w) == fill_from(ws, k + 1, cur + seq![' '] + ws[k], w));
        } else {
            lemma_fill_from_width(ws, k + 1, ws[k], w);
            let tail = fill_from(ws, k + 1, ws[k], w);
            assert forall|m: int| 0 <= m < fill_from(ws, k, cur, w).len() implies line_fits(
                #[trigger] fill_from(ws, k, cur, w)[m],
                w,
            ) by {
                if m > 0 {
                    assert(fill_from(ws, k, cur, w)[m] == tail[m - 1]);
                }
            }
        }
    }
}

/// Gluing a word onto a line with one space costs the space's column
/// plus the word's columns.
pub proof fn lemma_cols_of_glue(cur: Seq<char>, word: Seq<char>)
    ensures
        cols_of(cur + seq![' '] + word) == cols_of(cur) + col_width(' ') + cols_of(word),
{
    lemma_cols_of_concat(cur + seq![' '], word);
    lemma_cols_of_concat(cur, seq![' ']);
    assert(cols_of(seq![' ']) == col_width(' ')) by {
        assert(seq![' '].drop_last() =~= Seq::<char>::empty());
        assert(cols_of(Seq::<char>::empty()) == 0);
    }
}

/// A prose line, word-wrapped; a blank line stays one blank line.
pub open spec fn wrap_paragraph(l: Seq<char>, w: int) -> Seq<Seq<char>> {
    let ws = chunked_words(words_of(l), w);
    if ws.len() == 0 {
        seq![Seq::<char>::empty()]
    } else {
        fill_from(ws, 0, Seq::empty(), w)
    }
}

pub proof fn lemma_wrap_paragraph_width(l: Seq<char>, w: int)
    requires
        w >= 1,
    ensures
        forall|m: int|
            0 <= m < wrap_paragraph(l, w).len() ==> line_fits(
                #[trigger] wrap_paragraph(l, w)[m],
                w,
            ),
{
    lemma_words_of_plain(l);
    lemma_chunked_words_width(words_of(l), w);
    lemma_fill_from_width(chunked_words(words_of(l), w), 0, Seq::empty(), w);
}

/// Whether a source line opens or closes a fence.
pub open spec fn is_fence_line(l: Seq<char>) -> bool {
    l.len() >= 3 && l[0] == '`' && l[1] == '`' && l[2] == '`'
}

/// The language tag on a fence-opening line.
pub open spec fn fence_tag(l: Seq<char>) -> Seq<char> {
    l.skip(3)
}

/// Prose lines wrapped to the column.
pub open spec fn paragraph_lines(l: Seq<char>, w: int) -> Seq<StyledLineView> {
    wrap_paragraph(l, w).map_values(
        |b: Seq<char>| StyledLineView { kind: LineKindView::Paragraph, body: b },
    )
}

/// Code lines kept verbatim, hard-wrapped to the column.
pub open spec fn code_lines(l: Seq<char>, tag: Seq<char>, w: int) -> Seq<StyledLineView> {
    chunks_of(l, w).map_values(
        |b: Seq<char>| StyledLineView { kind: LineKindView::Code { tag }, body: b },
    )
}

/// The whole reflow, walking the source lines with the fence state.
pub open spec fn spec_reflow_lines(
    ls: Seq<Seq<char>>,
    k: int,
    fence: Option<Seq<char>>,
    w: int,
) -> Seq<StyledLineView>
    decreases ls.len() - k,
{
    if k < 0 || k >= ls.len() {
        Seq::empty()
    } else {
        let l = ls[k];
        match fence {
            Option::None => {
                if is_fence_line(l) {
                    spec_reflow_lines(ls, k + 1, Option::Some(fence_tag(l)), w)
                } else {
                    paragraph_lines(l, w) + spec_reflow_lines(ls, k + 1, Option::None, w)
                }
            },
            Option::Some(tag) => {
                if is_fence_line(l) {
                    spec_reflow_lines(ls, k + 1, Option::None, w)
                } else {
                    code_lines(l, tag, w) + spec_reflow_lines(ls, k + 1, Option::Some(tag), w)
                }
            },
        }
    }
}

/// The reflow of a text block at a column width.
pub open spec fn spec_reflow(text: Seq<char>, w: int) -> Seq<StyledLineView> {
    spec_reflow_lines(split_text_lines(text), 0, Option::None, w)
}

pub proof fn lemma_reflow_lines_width(ls: Seq<Seq<char>>, k: int, fence: Option<Seq<char>>, w: int)
    requires
        w >= 1,
    ensures
        forall|m: int|
            0 <= m < spec_reflow_lines(ls, k, fence, w).len() ==> line_fits(
                #[trigger] spec_reflow_lines(ls, k, fence, w)[m].body,
                w,
            ),
    decreases ls.len() - k,
{
    if 0 <= k < ls.len() {
        let l = ls[k];
        match fence {
            Option::None => {
                if is_fence_line(l) {
                    lemma_reflow_lines_width(ls, k + 1, Option::Some(fence_tag(l)), w);
                } else {
                    lemma_wrap_paragraph_width(l, w);
                    lemma_reflow_lines_width(ls, k + 1, Option::None, w);
                }
            },
            Option::Some(tag) => {
                if is_fence_line(l) {
                    lemma_reflow_lines_width(ls, k + 1, Option::None, w);
                } else {
                    lemma_chunks_of_cols(l, w);
                    lemma_reflow_lines_width(ls, k + 1, Option::Some(tag), w);
                }
            },
        }
    }
}

/// No line that the reflow produces fills more display columns than the
/// target, whatever the text, for any column width of at least one —
/// except a line that is one single character wider than the whole
/// column, which nothing can narrow.
pub proof fn lemma_reflow_width_bound(text: Seq<char>, w: int)
    requires
        w >= 1,
    ensures
        forall|m: int|
            0 <= m < spec_reflow(text, w).len() ==> line_fits(
                #[trigger] spec_reflow(text, w)[m].body,
                w,
            ),
{
    lemma_reflow_lines_width(split_text_lines(text), 0, Option::None, w);
}

fn exec_is_fence_line(cs: &Vec<char>) -> (r: bool)
    ensures
        r == is_fence_line(cs@),
{
    cs.len() >= 3 && cs[0] == '`' && cs[1] == '`' && cs[2] == '`'
}

/// How many leading characters of `v` fit within `w` columns.
fn chunk_boundary(v: &Vec<char>, w: usize) -> (k: usize)
    requires
        w <= 0x3fff_ffff,
    ensures
        k as int == chunk_take(v@, w as int),
{
    let mut k: usize = 0;
    let mut rem: usize = w;
    proof {
        assert(v@.skip(0) =~= v@);
    }
    while k < v.len()
        invariant
            k <= v@.len(),
            rem <= w,
            chunk_take(v@, w as int) == k + chunk_take(v@.skip(k as int), rem as int),
        decreases v.len() - k,
    {
        proof {
            assert(v@.skip(k as int)[0] == v@[k as int]);
            assert(v@.skip(k as int).drop_first() =~= v@.skip(k as int + 1));
        }
        let cw = char_columns(v[k]);
        if cw > rem {
            proof {
                assert(chunk_take(v@.skip(k as int), rem as int) == 0);
            }
            return k;
        }
        rem = rem - cw;
        k = k + 1;
    }
    proof {
        assert(v@.skip(k as int) =~= Seq::<char>::empty());
    }
    k
}

/// Cut one verbatim line into column-sized pieces.
fn exec_chunks(cs: &Vec<char>, w: usize) -> (r: Vec<String>)
    requires
        1 <= w <= 0x3fff_ffff,
    ensures
        r.deep_view() == chunks_of(cs@, w as int),
    decreases cs@.len(),
{
    let k = chunk_boundary(cs, w);
    let k1: usize = if k < 1 {
        1
    } else {
        k
    };
    proof {
        lemma_chunk_take(cs@, w as int);
    }
    if cs.len() <= k1 {
        let piece = chars_to_string(cs);
        let mut out: Vec<String> = Vec::new();
        out.push(piece);
        proof {
            assert(out.deep_view() =~= seq![cs@]);
        }
        out
    } else {
        let mut head: Vec<char> = Vec::new();
        let mut tail: Vec<char> = Vec::new();
        let mut q: usize = 0;
        while q < cs.len()
            invariant
                q <= cs@.len(),
                1 <= k1,
                (k1 as int) < cs@.len(),
                q <= k1 ==> head@ == cs@.take(q as int) && tail@ == Seq::<char>::empty(),
                q > k1 ==> head@ == cs@.take(k1 as int) && tail@ == cs@.subrange(
                    k1 as int,
                    q as int,
                ),
            decreases cs.len() - q,
        {
            if q < k1 {
                head.push(cs[q]);
                proof {
                    assert(head@ =~= cs@.take(q as int + 1));
                }
            } else {
                tail.push(cs[q]);
                proof {
                    if q == k1 {
                        assert(head@ == cs@.take(k1 as int));
                    }
                    assert(tail@ =~= cs@.subrange(k1 as int, q as int + 1));
                }
            }
            q = q + 1;
        }
        proof {
            assert(tail@ =~= cs@.skip(k1 as int));
        }
        let piece = chars_to_string(&head);
        let mut rest = exec_chunks(&tail, w);
        let ghost restdv = rest.deep_view();
        let mut out: Vec<String> = Vec::new();
        out.push(piece);
        out.append(&mut rest);
        proof {
            assert(out.deep_view() =~= seq![cs@.take(k1 as int)] + restdv);
        }
        out
    }
}

/// The space-separated words of one prose line.
fn exec_words(cs: &Vec<char>) -> (r: Vec<String>)
    ensures
        r.deep_view() == words_of(cs@),
{
    let n = cs.len();
    let ghost s = cs@;
    let mut out: Vec<String> = Vec::new();
    let mut cur: Vec<char> = Vec::new();
    let ghost mut start: int = 0;
    proof {
        assert(s.skip(0) =~= s);
        assert(out.deep_view() =~= Seq::<Seq<char>>::empty());
        assert(out.deep_view() + words_of(s) =~= words_of(s));
    }
    let mut j: usize = 0;
    while j < n
        invariant
            0 <= start <= j <= n,
            n == s.len(),
            cs@ == s,
            start == j - cur@.len(),
            cur@ == s.subrange(start, j as int),
            forall|k: int| start <= k < j ==> s[k] != ' ',
            words_of(s) == out.deep_view() + words_of(s.skip(start)),
        decreases n - j,
    {
        let c = cs[j];
        if c == ' ' {
            if cur.len() > 0 {
                proof {
                    let t = s.skip(start);
                    assert(forall|k: int| 0 <= k < j - start ==> t[k] == s[k + start]);
                    lemma_word_end_at_is(t, j - start);
                    assert(t.take(j - start) =~= cur@);
                    assert(t.skip(j - start) =~= s.skip(j as int));
                    assert(words_of(t) == seq![cur@] + words_of(s.skip(j as int)));
                    assert(s.skip(j as int)[0] == ' ');
                    assert(s.skip(j as int).drop_first() =~= s.skip(j as int + 1));
                }
                let ghost prev = out.deep_view();
                let word = chars_to_string(&cur);
                out.push(word);
                cur = Vec::new();
                proof {
                    assert(out.deep_view() =~= prev + seq![s.subrange(start, j as int)]);
                    assert((prev + seq![s.subrange(start, j as int)]) + words_of(
                        s.skip(j as int + 1),
                    ) =~= prev + (seq![s.subrange(start, j as int)] + words_of(
                        s.skip(j as int + 1),
                    )));
                    start = j + 1;
                    assert(cur@ =~= s.subrange(start, j as int + 1));
                }
            } else {
                proof {
                    assert(s.skip(start)[0] == ' ');
                    assert(s.skip(start).drop_first() =~= s.skip(start + 1));
                    start = j + 1;
                    assert(cur@ =~= s.subrange(start, j as int + 1));
                }
            }
        } else {
            cur.push(c);
            proof {
                assert(cur@ =~= s.subrange(start, j as int + 1));
            }
        }
        j = j + 1;
    }
    if cur.len() > 0 {
        proof {
            let t = s.skip(start);
            assert(forall|k: int| 0 <= k < n - start ==> t[k] == s[k + start]);
            lemma_word_end_at_is(t, n - start);
            assert(t.take(n - start) =~= t);
            assert(t =~= cur@);
            assert(t.skip(n - start) =~= Seq::<char>::empty());
            assert(words_of(t) == seq![cur@] + words_of(Seq::<char>::empty()));
        }
        let ghost prev = out.deep_view();
        let word = chars_to_string(&cur);
        out.push(word);
        proof {
            assert(out.deep_view() =~= prev + seq![cur@]);
            assert(prev + (seq![cur@] + words_of(Seq::<char>::empty())) =~= prev + seq![cur@]);
        }
    } else {
        proof {
            assert(s.skip(start) =~= Seq::<char>::empty());
            assert(out.deep_view() + words_of(s.skip(start)) =~= out.deep_view());
        }
    }
    proof {
        assert(out.deep_view() =~= words_of(s));
    }
    out
}

/// Pre-cut every over-wide word.
fn exec_chunked_words(ws: Vec<String>, w: usize) -> (r: Vec<String>)
    requires
        1 <= w <= 0x3fff_ffff,
    ensures
        r.deep_view() == chunked_words(ws.deep_view(), w as int),
{
    let ghost orig = ws.deep_view();
    let mut out: Vec<String> = Vec::new();
    let mut k: usize = 0;
    proof {
        assert(orig.skip(0) =~= orig);
        assert(out.deep_view() + chunked_words(orig, w as int) =~= chunked_words(orig, w as int));
    }
    while k < ws.len()
        invariant
            1 <= w <= 0x3fff_ffff,
            k <= ws@.len(),
            orig == ws.deep_view(),
            orig.len() == ws@.len(),
            chunked_words(orig, w as int) == out.deep_view() + chunked_words(
                orig.skip(k as int),
                w as int,
            ),
        decreases ws.len() - k,
    {
        proof {
            assert(orig.skip(k as int)[0] == orig[k as int]);
            assert(orig.skip(k as int).drop_first() =~= orig.skip(k as int + 1));
        }
        let cs = str_chars(ws[k].as_str());
        proof {
            assert(cs@ == orig[k as int]);
        }
        let mut pieces = exec_chunks(&cs, w);
        let ghost prev = out.deep_view();
        let ghost piece_views = pieces.deep_view();
        out.append(&mut pieces);
        proof {
            assert(out.deep_view() =~= prev + piece_views);
            assert((prev + piece_views) + chunked_words(orig.skip(k as int + 1), w as int) =~= prev
                + (piece_views + chunked_words(orig.skip(k as int + 1), w as int)));
        }
        k = k + 1;
    }
    proof {
        assert(orig.skip(ws@.len() as int) =~= Seq::<Seq<char>>::empty());
        assert(out.deep_view() + chunked_words(Seq::<Seq<char>>::empty(), w as int)
            =~= out.deep_view());
    }
    out
}

/// Greedy fill of words into lines of at most `w` columns.
fn exec_fill(ws: &Vec<String>, w: usize) -> (r: Vec<String>)
    requires
        1 <= w <= 0x3fff_ffff,
        forall|m: int| 0 <= m < ws.deep_view().len() ==> #[trigger] ws.deep_view()[m].len() >= 1
            && line_fits(ws.deep_view()[m], w as int),
    ensures
        r.deep_view() == fill_from(ws.deep_view(), 0, Seq::empty(), w as int),
{
    let ghost wsv = ws.deep_view();
    let mut out: Vec<String> = Vec::new();
    let mut cur: String = String::new();
    let mut cur_cols: usize = 0;
    let sp = char_columns(' ');
    let mut k: usize = 0;
    proof {
        assert(out.deep_view() + fill_from(wsv, 0, Seq::empty(), w as int) =~= fill_from(
            wsv,
            0,
            Seq::empty(),
            w as int,
        ));
    }
    while k < ws.len()
        invariant
            1 <= w <= 0x3fff_ffff,
            k <= ws@.len(),
            wsv == ws.deep_view(),
            wsv.len() == ws@.len(),
            sp as nat == col_width(' '),
            sp <= 3,
            cur_cols as nat == cols_of(cur@),
            cur_cols <= w + 3,
            forall|m: int| 0 <= m < wsv.len() ==> #[trigger] wsv[m].len() >= 1 && line_fits(
                wsv[m],
                w as int,
            ),
            fill_from(wsv, 0, Seq::empty(), w as int) == out.deep_view() + fill_from(
                wsv,
                k as int,
                cur@,
                w as int,
            ),
        decreases ws.len() - k,
    {
        proof {
            assert(wsv[k as int] == ws@[k as int]@);
        }
        let word_chars = str_chars(ws[k].as_str());
        proof {
            assert(word_chars@ == wsv[k as int]);
        }
        let word_cols = text_columns(&word_chars);
        proof {
            assert(cols_of(wsv[k as int]) <= 0x4000_0000) by {
                if wsv[k as int].len() == 1 {
                    assert(cols_of(wsv[k as int]) <= 3 * wsv[k as int].len());
                }
            }
            assert(word_cols as nat == cols_of(wsv[k as int]));
            assert(word_cols <= w + 3) by {
                if wsv[k as int].len() == 1 {
                    assert(cols_of(wsv[k as int]) <= 3 * wsv[k as int].len());
                }
            }
        }
        let ghost old_curv = cur@;
        if cur.unicode_len() == 0 {
            cur = ws[k].as_str().to_owned();
            cur_cols = word_cols;
        } else if cur_cols + sp + word_cols <= w {
            proof {
                reveal_strlit(" ");
                assert(" "@ =~= seq![' ']);
            }
            cur.append(" ");
            cur.append(ws[k].as_str());
            cur_cols = cur_cols + sp + word_cols;
            proof {
                assert(cur@ =~= old_curv + seq![' '] + wsv[k as int]);
                lemma_cols_of_glue(old_curv, wsv[k as int]);
            }
        } else {
            let ghost prev = out.deep_view();
            out.push(cur);
            cur = ws[k].as_str().to_owned();
            cur_cols = word_cols;
            proof {
                assert(out.deep_view() =~= prev + seq![old_curv]);
                assert((prev + seq![old_curv]) + fill_from(wsv, k as int + 1, wsv[k as int], w as int)
                    =~= prev + (seq![old_curv] + fill_from(wsv, k as int + 1, wsv[k as int], w as int)));
            }
        }
        k = k + 1;
    }
    if cur.unicode_len() > 0 {
        let ghost old_curv = cur@;
        let ghost prev = out.deep_view();
        out.push(cur);
        proof {
            assert(out.deep_view() =~= prev + seq![old_curv]);
        }
    } else {
        proof {
            assert(out.deep_view() + Seq::<Seq<char>>::empty() =~= out.deep_view());
        }
    }
    out
}

/// Wrap one prose line.
fn exec_wrap_paragraph(cs: &Vec<char>, w: usize) -> (r: Vec<String>)
    requires
        1 <= w <= 0x3fff_ffff,
    ensures
        r.deep_view() == wrap_paragraph(cs@, w as int),
{
    let ws = exec_words(cs);
    let chunked = exec_chunked_words(ws, w);
    if chunked.len() == 0 {
        let mut out: Vec<String> = Vec::new();
        out.push(String::new());
        proof {
            assert(out.deep_view() =~= seq![Seq::<char>::empty()]);
        }
        out
    } else {
        proof {
            lemma_words_of_plain(cs@);
            lemma_chunked_words_width(words_of(cs@), w as int);
        }
        exec_fill(&chunked, w)
    }
}

/// The fence state as the spec sees it.
pub open spec fn fence_view(f: Option<String>) -> Option<Seq<char>> {
    match f {
        Option::Some(t) => Option::Some(t@),
        Option::None => Option::None,
    }
}

/// Reflow a formatted text block to a column width: fence markers are
/// consumed, fenced lines come out verbatim (hard-wrapped) as code with
/// the fence's tag, and prose is word-wrapped. No produced line is wider
/// than the column.
pub fn reflow(text: &str, width: usize) -> (r: Vec<StyledLine>)
    requires
        1 <= width <= 0x3fff_ffff,
    ensures
        lines_view(r@) == spec_reflow(text@, width as int),
        forall|m: int| 0 <= m < r@.len() ==> line_fits(#[trigger] r@[m].body@, width as int),
{
    let ls = split_lines(text);
    let ghost lsv = ls.deep_view();
    let mut out: Vec<StyledLine> = Vec::new();
    let mut fence: Option<String> = Option::None;
    let mut k: usize = 0;
    proof {
        assert(lines_view(out@) + spec_reflow_lines(lsv, 0, Option::None, width as int)
            =~= spec_reflow_lines(lsv, 0, Option::None, width as int));
    }
    while k < ls.len()
        invariant
            1 <= width <= 0x3fff_ffff,
            k <= ls@.len(),
            lsv == ls.deep_view(),
            lsv.len() == ls@.len(),
            lsv == split_text_lines(text@),
            spec_reflow_lines(lsv, 0, Option::None, width as int) == lines_view(out@)
                + spec_reflow_lines(lsv, k as int, fence_view(fence), width as int),
        decreases ls.len() - k,
    {
        let cs = str_chars(ls[k].as_str());
        proof {
            assert(cs@ == lsv[k as int]);
        }
        let line_is_fence = exec_is_fence_line(&cs);
        let taken = fence;
        match taken {
            Option::None => {
                if line_is_fence {
                    let mut tag: Vec<char> = Vec::new();
                    let mut q: usize = 3;
                    while q < cs.len()
                        invariant
                            3 <= q <= cs@.len(),
                            tag@ == cs@.subrange(3, q as int),
                        decreases cs.len() - q,
                    {
                        tag.push(cs[q]);
                        proof {
                            assert(tag@ =~= cs@.subrange(3, q as int + 1));
                        }
                        q = q + 1;
                    }
                    proof {
                        assert(tag@ =~= fence_tag(cs@));
                    }
                    let tag_text = chars_to_string(&tag);
                    fence = Option::Some(tag_text);
                } else {
                    let pieces = exec_wrap_paragraph(&cs, width);
                    let ghost prev = lines_view(out@);
                    let mut q: usize = 0;
                    while q < pieces.len()
                        invariant
                            q <= pieces@.len(),
                            pieces@.len() == pieces.deep_view().len(),
                            lines_view(out@) =~= prev + pieces.deep_view().take(
                                q as int,
                            ).map_values(
                                |b: Seq<char>| StyledLineView {
                                    kind: LineKindView::Paragraph,
                                    body: b,
                                },
                            ),
                        decreases pieces.len() - q,
                    {
                        let ghost prev2 = lines_view(out@);
                        let piece = StyledLine { kind: LineKind::Paragraph, body: pieces[q].clone() };
                        let ghost piecev = piece@;
                        out.push(piece);
                        proof {
                            assert(lines_view(out@) =~= prev2 + seq![piecev]);
                            assert(pieces.deep_view().take(q as int + 1).drop_last()
                                =~= pieces.deep_view().take(q as int));
                            assert(lines_view(out@) =~= prev + pieces.deep_view().take(
                                q as int + 1,
                            ).map_values(
                                |b: Seq<char>| StyledLineView {
                                    kind: LineKindView::Paragraph,
                                    body: b,
                                },
                            ));
                        }
                        q = q + 1;
                    }
                    proof {
                        assert(pieces.deep_view().take(pieces@.len() as int)
                            =~= pieces.deep_view());
                        assert(lines_view(out@) =~= prev + paragraph_lines(
                            lsv[k as int],
                            width as int,
                        ));
                        assert((prev + paragraph_lines(lsv[k as int], width as int))
                            + spec_reflow_lines(lsv, k as int + 1, Option::None, width as int)
                            =~= prev + (paragraph_lines(lsv[k as int], width as int)
                            + spec_reflow_lines(lsv, k as int + 1, Option::None, width as int)));
                    }
                    fence = Option::None;
                }
            },
            Option::Some(tag) => {
                if line_is_fence {
                    fence = Option::None;
                } else {
                    let pieces = exec_chunks(&cs, width);
                    let ghost tagv = tag@;
                    let ghost prev = lines_view(out@);
                    let mut q: usize = 0;
                    while q < pieces.len()
                        invariant
                            q <= pieces@.len(),
                            pieces@.len() == pieces.deep_view().len(),
                            tagv == tag@,
                            lines_view(out@) =~= prev + pieces.deep_view().take(
                                q as int,
                            ).map_values(
                                |b: Seq<char>| StyledLineView {
                                    kind: LineKindView::Code { tag: tagv },
                                    body: b,
                                },
                            ),
                        decreases pieces.len() - q,
                    {
                        let ghost prev2 = lines_view(out@);
                        let piece = StyledLine {
                            kind: LineKind::Code { tag: tag.clone() },
                            body: pieces[q].clone(),
                        };
                        let ghost piecev = piece@;
                        out.push(piece);
                        proof {
                            assert(lines_view(out@) =~= prev2 + seq![piecev]);
                            assert(lines_view(out@) =~= prev + pieces.deep_view().take(
                                q as int + 1,
                            ).map_values(
                                |b: Seq<char>| StyledLineView {
                                    kind: LineKindView::Code { tag: tagv },
                                    body: b,
                                },
                            ));
                        }
                        q = q + 1;
                    }
                    proof {
                        assert(pieces.deep_view().take(pieces@.len() as int)
                            =~= pieces.deep_view());
                        assert(lines_view(out@) =~= prev + code_lines(
                            lsv[k as int],
                            tagv,
                            width as int,
                        ));
                        assert((prev + code_lines(lsv[k as int], tagv, width as int))
                            + spec_reflow_lines(lsv, k as int + 1, Option::Some(tagv), width as int)
                            =~= prev + (code_lines(lsv[k as int], tagv, width as int)
                            + spec_reflow_lines(lsv, k as int + 1, Option::Some(tagv), width as int)));
                    }
                    fence = Option::Some(tag);
                }
            },
        }
        k = k + 1;
    }
    proof {
        assert(spec_reflow_lines(lsv, k as int, fence_view(fence), width as int)
            =~= Seq::<StyledLineView>::empty());
        assert(lines_view(out@) + Seq::<StyledLineView>::empty() =~= lines_view(out@));
        assert(lines_view(out@) =~= spec_reflow(text@, width as int));
        lemma_reflow_width_bound(text@, width as int);
        assert forall|m: int| 0 <= m < out@.len() implies line_fits(
            #[trigger] out@[m].body@,
            width as int,
        ) by {
            assert(lines_view(out@)[m] == out@[m]@);
            assert(line_fits(spec_reflow(text@, width as int)[m].body, width as int));
        }
    }
    out
}

} // verus!
