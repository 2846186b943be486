//! The terminal layout engine: the two-column frame, the header, the
//! per-cell rows and the per-output rows, as one forward pass over the
//! document producing a plan of rows and image placements. The plan is
//! a pure function of the document, the file name and the geometry; a
//! caller prints the rows in order and places each picture where its
//! entry says, so the two writers never interleave.

use vstd::prelude::*;
use vstd::string::*;
use crate::notebook::{
    Notebook, NotebookCell, NotebookCellOutput, NotebookError, CellView, OutputView, NotebookView,
    ErrorView, spec_cell_label, spec_formatted_source, strs_view,
};
use crate::json::JsonValue;
use crate::text::{
    badge_of, badge_text, concat_all, split_text_lines, split_lines, escape_breaks,
    escape_line_breaks, chars_to_string,
};
use crate::wrap::{StyledLine, StyledLineView, LineKind, LineKindView, lines_view, spec_reflow, reflow};

verus! {

/// The fixed width of the label column.
pub const LABEL_WIDTH: usize = 7;

/// One entry of the render plan: a text row to print, or a picture to
/// place at column `x` inside a box of `max_w` cells by `max_h` cell
/// rows, with a marker row to print instead if the payload cannot be
/// decoded.
#[derive(Debug, PartialEq)]
pub enum RenderItem {
    Row(String),
    Picture { payload: String, max_w: u32, max_h: u32, x: u32, fallback: String },
}

pub enum RenderItemView {
    Row(Seq<char>),
    Picture { payload: Seq<char>, max_w: u32, max_h: u32, x: u32, fallback: Seq<char> },
}

impl View for RenderItem {
    type V = RenderItemView;

    open spec fn view(&self) -> RenderItemView {
        match self {
            RenderItem::Row(s) => RenderItemView::Row(s@),
            RenderItem::Picture { payload, max_w, max_h, x, fallback } => RenderItemView::Picture {
                payload: payload@,
                max_w: *max_w,
                max_h: *max_h,
                x: *x,
                fallback: fallback@,
            },
        }
    }
}

/// The views of a plan.
pub open spec fn items_view(v: Seq<RenderItem>) -> Seq<RenderItemView> {
    v.map_values(|it: RenderItem| it@)
}

/// `n` copies of one character.
pub open spec fn char_repeat(c: char, n: int) -> Seq<char> {
    Seq::new(if n < 0 {
        0
    } else {
        n as nat
    }, |i: int| c)
}

fn repeat_text(c: char, n: usize) -> (r: String)
    ensures
        r@ == char_repeat(c, n as int),
{
    let mut v: Vec<char> = Vec::new();
    let mut i: usize = 0;
    while i < n
        invariant
            i <= n,
            v@ == char_repeat(c, i as int),
        decreases n - i,
    {
        v.push(c);
        proof {
            assert(v@ =~= char_repeat(c, i as int + 1));
        }
        i = i + 1;
    }
    chars_to_string(&v)
}

/// A label centred in the label column; a longer label is not cut.
pub open spec fn center_label_spec(label: Seq<char>) -> Seq<char> {
    if label.len() >= LABEL_WIDTH {
        label
    } else {
        let left = (LABEL_WIDTH - label.len()) / 2;
        let right = LABEL_WIDTH - label.len() - left;
        char_repeat(' ', left) + label + char_repeat(' ', right)
    }
}

fn center_label(label: &str) -> (r: String)
    ensures
        r@ == center_label_spec(label@),
{
    let n = label.unicode_len();
    if n >= LABEL_WIDTH {
        label.to_owned()
    } else {
        let left = (LABEL_WIDTH - n) / 2;
        let right = LABEL_WIDTH - n - left;
        let mut s = repeat_text(' ', left);
        s.append(label);
        let tail = repeat_text(' ', right);
        s.append(tail.as_str());
        s
    }
}

/// A full-width horizontal separator with a junction glyph over the
/// column divider.
pub open spec fn sep_row(width: int, mid: char) -> Seq<char> {
    "\x1b[38;5;238m"@ + char_repeat('─', LABEL_WIDTH as int) + seq![mid] + char_repeat(
        '─',
        width - LABEL_WIDTH - 1,
    ) + "\x1b[0m"@
}

fn build_sep(width: usize, mid: char) -> (r: String)
    requires
        width >= 8,
    ensures
        r@ == sep_row(width as int, mid),
{
    let mut s: String = "\x1b[38;5;238m".to_owned();
    let dashes = repeat_text('─', LABEL_WIDTH);
    s.append(dashes.as_str());
    let mut midv: Vec<char> = Vec::new();
    midv.push(mid);
    let mids = chars_to_string(&midv);
    s.append(mids.as_str());
    let dashes2 = repeat_text('─', width - LABEL_WIDTH - 1);
    s.append(dashes2.as_str());
    s.append("\x1b[0m");
    proof {
        assert(midv@ =~= seq![mid]);
    }
    s
}

/// The header row: the file name and the kernel's display name.
pub open spec fn header_row(file_name: Seq<char>, kernel: Seq<char>) -> Seq<char> {
    center_label_spec(Seq::empty()) + "\x1b[38;5;238m"@ + "│"@ + "\x1b[0m"@ + " File: "@
        + "\x1b[1m"@ + "\""@ + file_name + "\""@ + "\x1b[0m"@ + "  Kernel: "@ + "\x1b[1m"@ + kernel
        + "\x1b[0m"@
}

fn build_header(file_name: &str, kernel: &str) -> (r: String)
    ensures
        r@ == header_row(file_name@, kernel@),
{
    proof {
        reveal_strlit("");
        assert(""@ =~= Seq::<char>::empty());
    }
    let mut s = center_label("");
    s.append("\x1b[38;5;238m");
    s.append("│");
    s.append("\x1b[0m");
    s.append(" File: ");
    s.append("\x1b[1m");
    s.append("\"");
    s.append(file_name);
    s.append("\"");
    s.append("\x1b[0m");
    s.append("  Kernel: ");
    s.append("\x1b[1m");
    s.append(kernel);
    s.append("\x1b[0m");
    s
}

/// One ordinary content row: a centred label, the column divider, and
/// the content.
pub open spec fn content_row(label: Seq<char>, body: Seq<char>) -> Seq<char> {
    center_label_spec(label) + "\x1b[38;5;238m"@ + "│"@ + "\x1b[0m"@ + " "@ + body
}

fn build_content_row(label: &str, body: &str) -> (r: String)
    ensures
        r@ == content_row(label@, body@),
{
    let mut s = center_label(label);
    s.append("\x1b[38;5;238m");
    s.append("│");
    s.append("\x1b[0m");
    s.append(" ");
    s.append(body);
    s
}

/// A reflowed line as displayed: code is tinted, prose is plain.
pub open spec fn styled_body(l: StyledLineView) -> Seq<char> {
    match l.kind {
        LineKindView::Paragraph => l.body,
        LineKindView::Code { .. } => "\x1b[36m"@ + l.body + "\x1b[0m"@,
    }
}

fn build_styled_row(label: &str, l: &StyledLine) -> (r: String)
    ensures
        r@ == content_row(label@, styled_body(l@)),
{
    match &l.kind {
        LineKind::Paragraph => build_content_row(label, l.body.as_str()),
        LineKind::Code { .. } => {
            let mut b: String = "\x1b[36m".to_owned();
            b.append(l.body.as_str());
            b.append("\x1b[0m");
            build_content_row(label, b.as_str())
        },
    }
}

/// The lighter dashed separator above each output.
pub open spec fn output_sep_row(width: int) -> Seq<char> {
    center_label_spec(Seq::empty()) + "\x1b[38;5;238m"@ + "├"@ + char_repeat(
        '╌',
        width - LABEL_WIDTH - 1,
    )
}

fn build_output_sep(width: usize) -> (r: String)
    requires
        width >= 8,
    ensures
        r@ == output_sep_row(width as int),
{
    proof {
        reveal_strlit("");
        assert(""@ =~= Seq::<char>::empty());
    }
    let mut s = center_label("");
    s.append("\x1b[38;5;238m");
    s.append("├");
    let dashes = repeat_text('╌', width - LABEL_WIDTH - 1);
    s.append(dashes.as_str());
    s
}

/// A plain-text display-data row, shown slanted.
pub open spec fn plain_text_row(label: Seq<char>, body: Seq<char>) -> Seq<char> {
    center_label_spec(label) + "\x1b[38;5;238m"@ + "│ "@ + "\x1b[3m"@ + body + "\x1b[0m"@
}

fn build_plain_row(label: &str, body: &str) -> (r: String)
    ensures
        r@ == plain_text_row(label@, body@),
{
    let mut s = center_label(label);
    s.append("\x1b[38;5;238m");
    s.append("│ ");
    s.append("\x1b[3m");
    s.append(body);
    s.append("\x1b[0m");
    s
}

/// The visible marker for a display-data entry nothing can render.
pub open spec fn unsupported_row(label: Seq<char>) -> Seq<char> {
    center_label_spec(label) + "\x1b[38;5;238m"@ + "│ "@ + "\x1b[93m"@
        + "Unsupported data output"@ + "\x1b[0m"@
}

fn build_unsupported_row(label: &str) -> (r: String)
    ensures
        r@ == unsupported_row(label@),
{
    let mut s = center_label(label);
    s.append("\x1b[38;5;238m");
    s.append("│ ");
    s.append("\x1b[93m");
    s.append("Unsupported data output");
    s.append("\x1b[0m");
    s
}

/// The visible marker printed in place of an image that cannot be
/// decoded.
pub open spec fn image_fallback_row() -> Seq<char> {
    center_label_spec(Seq::empty()) + "\x1b[38;5;238m"@ + "│ "@ + "\x1b[93m"@
        + "Unsupported or corrupt image"@ + "\x1b[0m"@
}

fn build_image_fallback_row() -> (r: String)
    ensures
        r@ == image_fallback_row(),
{
    proof {
        reveal_strlit("");
        assert(""@ =~= Seq::<char>::empty());
    }
    let mut s = center_label("");
    s.append("\x1b[38;5;238m");
    s.append("│ ");
    s.append("\x1b[93m");
    s.append("Unsupported or corrupt image");
    s.append("\x1b[0m");
    s
}

/// Whether a MIME type names a raster image.
pub open spec fn is_image_mime(m: Seq<char>) -> bool {
    m.len() >= 6 && m.take(6) == "image/"@
}

fn starts_with_image(m: &String) -> (r: bool)
    ensures
        r == is_image_mime(m@),
{
    let n = m.as_str().unicode_len();
    if n < 6 {
        return false;
    }
    let prefix = m.as_str().substring_char(0, 6).to_owned();
    let wanted: String = "image/".to_owned();
    let r = prefix == wanted;
    proof {
        assert(m@.take(6) =~= m@.subrange(0, 6));
    }
    r
}

/// The concatenation of the text fragments of a display-data value;
/// fragments that are not text are passed over.
pub open spec fn frag_concat(a: Seq<JsonValue>) -> Seq<char>
    decreases a.len(),
{
    if a.len() == 0 {
        Seq::empty()
    } else {
        frag_concat(a.drop_last()) + (if a.last() is Text {
            a.last()->Text_0@
        } else {
            Seq::empty()
        })
    }
}

fn exec_frag_concat(a: &Vec<JsonValue>) -> (r: String)
    ensures
        r@ == frag_concat(a@),
{
    let mut s = String::new();
    let mut k: usize = 0;
    while k < a.len()
        invariant
            k <= a@.len(),
            s@ == frag_concat(a@.take(k as int)),
        decreases a.len() - k,
    {
        proof {
            assert(a@.take(k as int + 1).drop_last() =~= a@.take(k as int));
            assert(a@.take(k as int + 1).last() == a@[k as int]);
        }
        match &a[k] {
            JsonValue::Text(t) => {
                s.append(t.as_str());
            },
            _ => {
                proof {
                    assert(s@ =~= frag_concat(a@.take(k as int + 1)));
                }
            },
        }
        k = k + 1;
    }
    proof {
        assert(a@.take(a@.len() as int) =~= a@);
    }
    s
}

/// The payload of an image entry: its text value, or nothing.
pub open spec fn image_payload(v: JsonValue) -> Seq<char> {
    if v is Text {
        v->Text_0@
    } else {
        Seq::empty()
    }
}

/// The items of an array value, or nothing.
pub open spec fn items_of(v: JsonValue) -> Seq<JsonValue> {
    if v is Items {
        v->Items_0@
    } else {
        Seq::empty()
    }
}

/// The rows of one stream output: the fragments concatenated and split
/// again on line breaks, the badge on the first row only if it is still
/// owed.
pub open spec fn spec_stream_rows(text: Seq<String>, badge: Seq<char>, used: bool) -> (
    Seq<RenderItemView>,
    bool,
) {
    let lines = split_text_lines(concat_all(strs_view(text)));
    (
        Seq::new(
            lines.len(),
            |i: int|
                RenderItemView::Row(
                    content_row(
                        if i == 0 && !used {
                            badge
                        } else {
                            Seq::empty()
                        },
                        lines[i],
                    ),
                ),
        ),
        used || lines.len() > 0,
    )
}

/// The rows of the entries of one display-data output, in document
/// order: an image entry becomes a placement, a plain-text entry one
/// slanted row with line breaks made visible, and any other entry a
/// visible marker row.
pub open spec fn spec_data_rows(
    entries: Seq<(String, JsonValue)>,
    badge: Seq<char>,
    used: bool,
    width: int,
    height: int,
) -> (Seq<RenderItemView>, bool)
    decreases entries.len(),
{
    if entries.len() == 0 {
        (Seq::empty(), used)
    } else {
        let mime = entries[0].0;
        let value = entries[0].1;
        let head: (Seq<RenderItemView>, bool) = if is_image_mime(mime@) {
            (
                seq![
                    RenderItemView::Picture {
                        payload: image_payload(value),
                        max_w: (width - 10) as u32,
                        max_h: (height / 2) as u32,
                        x: (LABEL_WIDTH + 2) as u32,
                        fallback: image_fallback_row(),
                    },
                ],
                used,
            )
        } else if mime@ == "text/plain"@ {
            (
                seq![
                    RenderItemView::Row(
                        plain_text_row(
                            if used {
                                Seq::empty()
                            } else {
                                badge
                            },
                            escape_breaks(frag_concat(items_of(value))),
                        ),
                    ),
                ],
                true,
            )
        } else {
            (
                seq![
                    RenderItemView::Row(
                        unsupported_row(
                            if used {
                                Seq::empty()
                            } else {
                                badge
                            },
                        ),
                    ),
                ],
                true,
            )
        };
        let tail = spec_data_rows(entries.drop_first(), badge, head.1, width, height);
        (head.0 + tail.0, tail.1)
    }
}

/// The rows of one output.
pub open spec fn spec_output_rows(
    o: OutputView,
    badge: Seq<char>,
    used: bool,
    width: int,
    height: int,
) -> (Seq<RenderItemView>, bool) {
    match o {
        OutputView::Stream { text, .. } => spec_stream_rows(text, badge, used),
        OutputView::DisplayData { data } => spec_data_rows(data, badge, used, width, height),
    }
}

/// The rows of all outputs of a code cell, each under its own dashed
/// separator, the badge owed until some row shows it.
pub open spec fn spec_outputs_rows(
    outs: Seq<OutputView>,
    badge: Seq<char>,
    used: bool,
    width: int,
    height: int,
) -> (Seq<RenderItemView>, bool)
    decreases outs.len(),
{
    if outs.len() == 0 {
        (Seq::empty(), used)
    } else {
        let head = spec_output_rows(outs[0], badge, used, width, height);
        let tail = spec_outputs_rows(outs.drop_first(), badge, head.1, width, height);
        (seq![RenderItemView::Row(output_sep_row(width))] + head.0 + tail.0, tail.1)
    }
}

/// The rows of one cell: its reflowed source, the label on the first
/// row only; then, for a code cell, its outputs.
pub open spec fn spec_cell_rows(c: CellView, language: Seq<char>, width: int, height: int) -> Seq<
    RenderItemView,
> {
    let lines = spec_reflow(spec_formatted_source(c, language), width - 9);
    let content = Seq::new(
        lines.len(),
        |i: int|
            RenderItemView::Row(
                content_row(
                    if i == 0 {
                        spec_cell_label(c)
                    } else {
                        Seq::empty()
                    },
                    styled_body(lines[i]),
                ),
            ),
    );
    match c {
        CellView::Code { execution_count, outputs, .. } => content + spec_outputs_rows(
            outputs,
            badge_of(execution_count),
            false,
            width,
            height,
        ).0,
        _ => content,
    }
}

/// The rows of all cells, each under its own separator.
pub open spec fn spec_cells_rows(
    cells: Seq<CellView>,
    language: Seq<char>,
    width: int,
    height: int,
) -> Seq<RenderItemView>
    decreases cells.len(),
{
    if cells.len() == 0 {
        Seq::empty()
    } else {
        seq![RenderItemView::Row(sep_row(width, '┼'))] + spec_cell_rows(
            cells[0],
            language,
            width,
            height,
        ) + spec_cells_rows(cells.drop_first(), language, width, height)
    }
}

/// The whole plan: a document with an unsupported version produces no
/// row at all, only the distinct error; otherwise the top border, the
/// header, every cell in order, and the bottom border.
pub open spec fn spec_render(
    nb: NotebookView,
    file_name: Seq<char>,
    width: int,
    height: int,
) -> Result<Seq<RenderItemView>, ErrorView> {
    if !nb.version.spec_supported() {
        Result::Err(ErrorView::UnsupportedVersion)
    } else {
        Result::Ok(
            seq![
                RenderItemView::Row(sep_row(width, '┬')),
                RenderItemView::Row(
                    header_row(file_name, nb.metadata.kernel_spec.display_name@),
                ),
            ] + spec_cells_rows(nb.cells, nb.metadata.kernel_spec.language@, width, height) + seq![
                RenderItemView::Row(sep_row(width, '┴')),
            ],
        )
    }
}

/// Emit the rows of one stream output, returning whether the badge has
/// now been shown.
fn push_stream_rows(
    out: &mut Vec<RenderItem>,
    text: &Vec<String>,
    badge: &String,
    used: bool,
) -> (u2: bool)
    ensures
        items_view(final(out)@) == items_view(old(out)@) + spec_stream_rows(
            text@,
            badge@,
            used,
        ).0,
        u2 == spec_stream_rows(text@, badge@, used).1,
{
    let joined = crate::text::concat_fragments(text);
    proof {
        assert(text.deep_view() =~= strs_view(text@));
    }
    let lines = split_lines(joined.as_str());
    let ghost linesv = split_text_lines(concat_all(strs_view(text@)));
    let ghost base = items_view(out@);
    let ghost wanted = spec_stream_rows(text@, badge@, used).0;
    proof {
        assert(lines.deep_view() == linesv);
        assert(items_view(out@) =~= base + wanted.take(0));
        assert(wanted =~~= Seq::new(
            linesv.len(),
            |q: int|
                RenderItemView::Row(
                    content_row(
                        if q == 0 && !used {
                            badge@
                        } else {
                            Seq::empty()
                        },
                        linesv[q],
                    ),
                ),
        ));
    }
    let mut i: usize = 0;
    while i < lines.len()
        invariant
            i <= lines@.len(),
            lines.deep_view() == linesv,
            lines@.len() == linesv.len(),
            linesv == split_text_lines(concat_all(strs_view(text@))),
            wanted == spec_stream_rows(text@, badge@, used).0,
            wanted.len() == linesv.len(),
            items_view(out@) =~= base + wanted.take(i as int),
        decreases lines.len() - i,
    {
        proof {
            reveal_strlit("");
            assert(""@ =~= Seq::<char>::empty());
            assert(lines@[i as int]@ == linesv[i as int]);
        }
        let label = if i == 0 && !used {
            badge.clone()
        } else {
            String::new()
        };
        let row = build_content_row(label.as_str(), lines[i].as_str());
        let ghost prev = items_view(out@);
        out.push(RenderItem::Row(row));
        proof {
            assert(items_view(out@) =~= prev + seq![
                RenderItemView::Row(content_row(label@, linesv[i as int])),
            ]);
            assert(wanted =~~= Seq::new(
                linesv.len(),
                |q: int|
                    RenderItemView::Row(
                        content_row(
                            if q == 0 && !used {
                                badge@
                            } else {
                                Seq::empty()
                            },
                            linesv[q],
                        ),
                    ),
            ));
            assert(wanted[i as int] == RenderItemView::Row(content_row(label@, linesv[i as int])));
            assert(items_view(out@) =~= base + wanted.take(i as int + 1));
        }
        i = i + 1;
    }
    proof {
        assert(wanted.take(linesv.len() as int) =~= wanted);
    }
    used || lines.len() > 0
}

/// Emit the rows of the entries of one display-data output.
fn push_data_rows(
    out: &mut Vec<RenderItem>,
    data: &Vec<(String, JsonValue)>,
    badge: &String,
    used: bool,
    width: usize,
    height: usize,
) -> (u2: bool)
    requires
        11 <= width <= 0x3fff_ffff,
        2 <= height <= 0xffff_ffff,
    ensures
        items_view(final(out)@) == items_view(old(out)@) + spec_data_rows(
            data@,
            badge@,
            used,
            width as int,
            height as int,
        ).0,
        u2 == spec_data_rows(data@, badge@, used, width as int, height as int).1,
{
    let ghost full = spec_data_rows(data@, badge@, used, width as int, height as int);
    let tp_key: String = "text/plain".to_owned();
    let ghost base = items_view(out@);
    let ghost mut built: Seq<RenderItemView> = Seq::empty();
    let mut cur = used;
    let mut k: usize = 0;
    proof {
        assert(data@.skip(0) =~= data@);
        assert(items_view(out@) =~= base + built);
        assert(built + full.0 =~= full.0);
    }
    while k < data.len()
        invariant
            k <= data@.len(),
            11 <= width <= 0x3fff_ffff,
            2 <= height <= 0xffff_ffff,
            tp_key@ == "text/plain"@,
            full == spec_data_rows(data@, badge@, used, width as int, height as int),
            items_view(out@) =~= base + built,
            full.0 == built + spec_data_rows(
                data@.skip(k as int),
                badge@,
                cur,
                width as int,
                height as int,
            ).0,
            full.1 == spec_data_rows(
                data@.skip(k as int),
                badge@,
                cur,
                width as int,
                height as int,
            ).1,
        decreases data.len() - k,
    {
        proof {
            assert(data@.skip(k as int)[0] == data@[k as int]);
            assert(data@.skip(k as int).drop_first() =~= data@.skip(k as int + 1));
            reveal_strlit("");
            assert(""@ =~= Seq::<char>::empty());
        }
        let ghost prev = items_view(out@);
        if starts_with_image(&data[k].0) {
            let payload = match &data[k].1 {
                JsonValue::Text(t) => t.clone(),
                _ => String::new(),
            };
            let fallback = build_image_fallback_row();
            out.push(
                RenderItem::Picture {
                    payload,
                    max_w: (width - 10) as u32,
                    max_h: (height / 2) as u32,
                    x: 9,
                    fallback,
                },
            );
            let ghost item = RenderItemView::Picture {
                payload: image_payload(data@[k as int].1),
                max_w: (width - 10) as u32,
                max_h: (height as int / 2) as u32,
                x: (LABEL_WIDTH + 2) as u32,
                fallback: image_fallback_row(),
            };
            proof {
                assert(items_view(out@) =~= prev + seq![item]);
                assert((built + seq![item]) + spec_data_rows(
                    data@.skip(k as int + 1),
                    badge@,
                    cur,
                    width as int,
                    height as int,
                ).0 =~= built + (seq![item] + spec_data_rows(
                    data@.skip(k as int + 1),
                    badge@,
                    cur,
                    width as int,
                    height as int,
                ).0));
                built = built + seq![item];
            }
        } else if data[k].0 == tp_key {
            let frags = match &data[k].1 {
                JsonValue::Items(a) => exec_frag_concat(a),
                _ => String::new(),
            };
            proof {
                assert(frags@ == frag_concat(items_of(data@[k as int].1)));
            }
            let escaped = escape_line_breaks(frags.as_str());
            let label = if cur {
                String::new()
            } else {
                badge.clone()
            };
            let row = build_plain_row(label.as_str(), escaped.as_str());
            out.push(RenderItem::Row(row));
            cur = true;
            let ghost item = RenderItemView::Row(
                plain_text_row(label@, escape_breaks(frag_concat(items_of(data@[k as int].1)))),
            );
            proof {
                assert(items_view(out@) =~= prev + seq![item]);
                assert((built + seq![item]) + spec_data_rows(
                    data@.skip(k as int + 1),
                    badge@,
                    true,
                    width as int,
                    height as int,
                ).0 =~= built + (seq![item] + spec_data_rows(
                    data@.skip(k as int + 1),
                    badge@,
                    true,
                    width as int,
                    height as int,
                ).0));
                built = built + seq![item];
            }
        } else {
            let label = if cur {
                String::new()
            } else {
                badge.clone()
            };
            let row = build_unsupported_row(label.as_str());
            out.push(RenderItem::Row(row));
            cur = true;
            let ghost item = RenderItemView::Row(unsupported_row(label@));
            proof {
                assert(items_view(out@) =~= prev + seq![item]);
                assert((built + seq![item]) + spec_data_rows(
                    data@.skip(k as int + 1),
                    badge@,
                    true,
                    width as int,
                    height as int,
                ).0 =~= built + (seq![item] + spec_data_rows(
                    data@.skip(k as int + 1),
                    badge@,
                    true,
                    width as int,
                    height as int,
                ).0));
                built = built + seq![item];
            }
        }
        k = k + 1;
    }
    proof {
        assert(data@.skip(data@.len() as int) =~= Seq::<(String, JsonValue)>::empty());
        assert(built + Seq::<RenderItemView>::empty() =~= built);
    }
    cur
}

/// Emit the rows of one output.
fn push_output_rows(
    out: &mut Vec<RenderItem>,
    o: &NotebookCellOutput,
    badge: &String,
    used: bool,
    width: usize,
    height: usize,
) -> (u2: bool)
    requires
        11 <= width <= 0x3fff_ffff,
        2 <= height <= 0xffff_ffff,
    ensures
        items_view(final(out)@) == items_view(old(out)@) + spec_output_rows(
            o@,
            badge@,
            used,
            width as int,
            height as int,
        ).0,
        u2 == spec_output_rows(o@, badge@, used, width as int, height as int).1,
{
    match o {
        NotebookCellOutput::Stream { text, .. } => push_stream_rows(out, text, badge, used),
        NotebookCellOutput::DisplayData { data } => push_data_rows(
            out,
            data,
            badge,
            used,
            width,
            height,
        ),
    }
}

/// Emit the rows of one cell.
fn render_cell_rows(c: &NotebookCell, language: &str, width: usize, height: usize) -> (r: Vec<
    RenderItem,
>)
    requires
        11 <= width <= 0x3fff_ffff,
        2 <= height <= 0xffff_ffff,
    ensures
        items_view(r@) == spec_cell_rows(c@, language@, width as int, height as int),
{
    let mut out: Vec<RenderItem> = Vec::new();
    let text = c.source(language);
    let styled = reflow(text.as_str(), width - 9);
    let ghost linesv = spec_reflow(
        spec_formatted_source(c@, language@),
        width as int - 9,
    );
    let ghost content = Seq::new(
        linesv.len(),
        |i: int|
            RenderItemView::Row(
                content_row(
                    if i == 0 {
                        spec_cell_label(c@)
                    } else {
                        Seq::empty()
                    },
                    styled_body(linesv[i]),
                ),
            ),
    );
    proof {
        assert(lines_view(styled@) == linesv);
        assert(items_view(out@) =~= content.take(0));
    }
    let label_text = c.name();
    let mut i: usize = 0;
    while i < styled.len()
        invariant
            i <= styled@.len(),
            lines_view(styled@) == linesv,
            styled@.len() == linesv.len(),
            label_text@ == spec_cell_label(c@),
            content == Seq::new(
                linesv.len(),
                |q: int|
                    RenderItemView::Row(
                        content_row(
                            if q == 0 {
                                spec_cell_label(c@)
                            } else {
                                Seq::empty()
                            },
                            styled_body(linesv[q]),
                        ),
                    ),
            ),
            items_view(out@) =~= content.take(i as int),
        decreases styled.len() - i,
    {
        proof {
            reveal_strlit("");
            assert(""@ =~= Seq::<char>::empty());
            assert(styled@[i as int]@ == linesv[i as int]);
        }
        let row = if i == 0 {
            build_styled_row(label_text, &styled[i])
        } else {
            build_styled_row("", &styled[i])
        };
        let ghost prev = items_view(out@);
        out.push(RenderItem::Row(row));
        proof {
            assert(items_view(out@) =~= prev + seq![content[i as int]]);
            assert(items_view(out@) =~= content.take(i as int + 1));
        }
        i = i + 1;
    }
    proof {
        assert(content.take(linesv.len() as int) =~= content);
    }
    match c {
        NotebookCell::Code { execution_count, outputs, .. } => {
            let badge = badge_text(*execution_count);
            let ghost badgev = badge_of(*execution_count);
            let ghost outsv = outputs@.map_values(|q: NotebookCellOutput| q@);
            let ghost full = spec_outputs_rows(
                outsv,
                badgev,
                false,
                width as int,
                height as int,
            );
            let ghost mut built: Seq<RenderItemView> = Seq::empty();
            let mut used = false;
            let mut k: usize = 0;
            proof {
                assert(outsv.skip(0) =~= outsv);
                assert(items_view(out@) =~= content + built);
                assert(built + full.0 =~= full.0);
            }
            while k < outputs.len()
                invariant
                    k <= outputs@.len(),
                    11 <= width <= 0x3fff_ffff,
                    2 <= height <= 0xffff_ffff,
                    8 <= width,
                    badge@ == badgev,
                    outsv == outputs@.map_values(|q: NotebookCellOutput| q@),
                    outsv.len() == outputs@.len(),
                    full == spec_outputs_rows(outsv, badgev, false, width as int, height as int),
                    items_view(out@) =~= content + built,
                    full.0 == built + spec_outputs_rows(
                        outsv.skip(k as int),
                        badgev,
                        used,
                        width as int,
                        height as int,
                    ).0,
                    full.1 == spec_outputs_rows(
                        outsv.skip(k as int),
                        badgev,
                        used,
                        width as int,
                        height as int,
                    ).1,
                decreases outputs.len() - k,
            {
                proof {
                    assert(outsv.skip(k as int)[0] == outsv[k as int]);
                    assert(outsv.skip(k as int).drop_first() =~= outsv.skip(k as int + 1));
                    assert(outsv[k as int] == outputs@[k as int]@);
                }
                let sep = build_output_sep(width);
                let ghost prev = items_view(out@);
                out.push(RenderItem::Row(sep));
                proof {
                    assert(items_view(out@) =~= prev + seq![
                        RenderItemView::Row(output_sep_row(width as int)),
                    ]);
                }
                let ghost before = items_view(out@);
                let u2 = push_output_rows(&mut out, &outputs[k], &badge, used, width, height);
                let ghost head = spec_output_rows(
                    outsv[k as int],
                    badgev,
                    used,
                    width as int,
                    height as int,
                );
                proof {
                    assert(items_view(out@) =~= before + head.0);
                    assert((built + (seq![
                        RenderItemView::Row(output_sep_row(width as int)),
                    ] + head.0)) + spec_outputs_rows(
                        outsv.skip(k as int + 1),
                        badgev,
                        head.1,
                        width as int,
                        height as int,
                    ).0 =~= built + ((seq![
                        RenderItemView::Row(output_sep_row(width as int)),
                    ] + head.0) + spec_outputs_rows(
                        outsv.skip(k as int + 1),
                        badgev,
                        head.1,
                        width as int,
                        height as int,
                    ).0));
                    assert(items_view(out@) =~= content + (built + (seq![
                        RenderItemView::Row(output_sep_row(width as int)),
                    ] + head.0)));
                    built = built + (seq![
                        RenderItemView::Row(output_sep_row(width as int)),
                    ] + head.0);
                }
                used = u2;
                k = k + 1;
            }
            proof {
                assert(outsv.skip(outsv.len() as int) =~= Seq::<OutputView>::empty());
                assert(built + Seq::<RenderItemView>::empty() =~= built);
                assert(items_view(out@) =~= spec_cell_rows(
                    c@,
                    language@,
                    width as int,
                    height as int,
                ));
            }
            out
        },
        _ => {
            proof {
                assert(items_view(out@) =~= spec_cell_rows(
                    c@,
                    language@,
                    width as int,
                    height as int,
                ));
            }
            out
        },
    }
}

/// Lay the whole document out as a plan of rows and image placements.
/// A document whose version is not the supported one yields no row at
/// all, only the distinct version error.
pub fn render_notebook(nb: &Notebook, file_name: &str, width: usize, height: usize) -> (r: Result<
    Vec<RenderItem>,
    NotebookError,
>)
    requires
        11 <= width <= 0x3fff_ffff,
        2 <= height <= 0xffff_ffff,
    ensures
        match r {
            Result::Ok(v) => spec_render(nb@, file_name@, width as int, height as int)
                == Result::Ok::<Seq<RenderItemView>, ErrorView>(items_view(v@)),
            Result::Err(e) => spec_render(nb@, file_name@, width as int, height as int)
                == Result::Err::<Seq<RenderItemView>, ErrorView>(e@),
        },
{
    if !nb.version.is_supported() {
        return Result::Err(NotebookError::UnsupportedVersion);
    }
    let mut out: Vec<RenderItem> = Vec::new();
    let top = build_sep(width, '┬');
    out.push(RenderItem::Row(top));
    let header = build_header(file_name, nb.metadata.kernel_spec.display_name.as_str());
    out.push(RenderItem::Row(header));
    let ghost lead = seq![
        RenderItemView::Row(sep_row(width as int, '┬')),
        RenderItemView::Row(header_row(file_name@, nb@.metadata.kernel_spec.display_name@)),
    ];
    let ghost cellsv = nb.cells@.map_values(|q: NotebookCell| q@);
    let ghost langv = nb@.metadata.kernel_spec.language@;
    let ghost mut built: Seq<RenderItemView> = Seq::empty();
    proof {
        assert(items_view(out@) =~= lead + built);
        assert(cellsv.skip(0) =~= cellsv);
        assert(built + spec_cells_rows(cellsv, langv, width as int, height as int)
            =~= spec_cells_rows(cellsv, langv, width as int, height as int));
    }
    let mut k: usize = 0;
    while k < nb.cells.len()
        invariant
            k <= nb.cells@.len(),
            11 <= width <= 0x3fff_ffff,
            2 <= height <= 0xffff_ffff,
            cellsv == nb.cells@.map_values(|q: NotebookCell| q@),
            cellsv.len() == nb.cells@.len(),
            langv == nb@.metadata.kernel_spec.language@,
            langv == nb.metadata.kernel_spec.language@,
            items_view(out@) =~= lead + built,
            lead == seq![
                RenderItemView::Row(sep_row(width as int, '┬')),
                RenderItemView::Row(
                    header_row(file_name@, nb@.metadata.kernel_spec.display_name@),
                ),
            ],
            spec_cells_rows(cellsv, langv, width as int, height as int) == built
                + spec_cells_rows(
                cellsv.skip(k as int),
                langv,
                width as int,
                height as int,
            ),
        decreases nb.cells.len() - k,
    {
        proof {
            assert(cellsv.skip(k as int)[0] == cellsv[k as int]);
            assert(cellsv.skip(k as int).drop_first() =~= cellsv.skip(k as int + 1));
            assert(cellsv[k as int] == nb.cells@[k as int]@);
        }
        let sep = build_sep(width, '┼');
        let ghost prev = items_view(out@);
        out.push(RenderItem::Row(sep));
        proof {
            assert(items_view(out@) =~= prev + seq![
                RenderItemView::Row(sep_row(width as int, '┼')),
            ]);
        }
        let mut rows = render_cell_rows(&nb.cells[k], nb.metadata.kernel_spec.language.as_str(), width, height);
        let ghost rowsv = items_view(rows@);
        let ghost before = items_view(out@);
        out.append(&mut rows);
        proof {
            assert(items_view(out@) =~= before + rowsv);
            let ghost cellpart = seq![
                RenderItemView::Row(sep_row(width as int, '┼')),
            ] + spec_cell_rows(cellsv[k as int], langv, width as int, height as int);
            assert((built + cellpart) + spec_cells_rows(
                cellsv.skip(k as int + 1),
                langv,
                width as int,
                height as int,
            ) =~= built + (cellpart + spec_cells_rows(
                cellsv.skip(k as int + 1),
                langv,
                width as int,
                height as int,
            )));
            assert(items_view(out@) =~= lead + (built + cellpart));
            built = built + cellpart;
        }
        k = k + 1;
    }
    let bottom = build_sep(width, '┴');
    let ghost prev = items_view(out@);
    out.push(RenderItem::Row(bottom));
    proof {
        assert(cellsv.skip(cellsv.len() as int) =~= Seq::<CellView>::empty());
        assert(built + Seq::<RenderItemView>::empty() =~= built);
        assert(items_view(out@) =~= prev + seq![
            RenderItemView::Row(sep_row(width as int, '┴')),
        ]);
        assert(items_view(out@) =~= (lead + spec_cells_rows(
            cellsv,
            langv,
            width as int,
            height as int,
        )) + seq![RenderItemView::Row(sep_row(width as int, '┴'))]);
        assert(nb@.cells == cellsv);
    }
    Result::Ok(out)
}

} // verus!
