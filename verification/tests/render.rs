use nbview::json::JsonValue;
use nbview::layout::{render_notebook, RenderItem};
use nbview::notebook::{
    DocumentFault, Notebook, NotebookCell, NotebookCellOutput, NotebookError, NotebookKernelSpec,
    NotebookMetadata, NotebookVersion,
};

const GRAY: &str = "\x1b[38;5;238m";
const RESET: &str = "\x1b[0m";
const BOLD: &str = "\x1b[1m";
const ITALIC: &str = "\x1b[3m";
const CODE: &str = "\x1b[36m";
const WARN: &str = "\x1b[93m";

fn meta() -> NotebookMetadata {
    NotebookMetadata {
        kernel_spec: NotebookKernelSpec {
            display_name: "Python 3".to_owned(),
            language: "python".to_owned(),
            name: "python3".to_owned(),
        },
    }
}

fn notebook_with(cells: Vec<NotebookCell>, major: u32, minor: u32) -> Notebook {
    Notebook {
        cells,
        metadata: meta(),
        version: NotebookVersion::new(major, minor),
    }
}

fn code_cell(ec: Option<u32>, outputs: Vec<NotebookCellOutput>) -> NotebookCell {
    NotebookCell::Code {
        id: "c1".to_owned(),
        source: vec![],
        execution_count: ec,
        outputs,
    }
}

fn rows_of(items: &[RenderItem]) -> Vec<String> {
    items
        .iter()
        .filter_map(|it| match it {
            RenderItem::Row(s) => Some(s.clone()),
            _ => None,
        })
        .collect()
}

#[test]
fn version_mismatch_aborts_with_no_rows() {
    let nb = notebook_with(vec![code_cell(Some(1), vec![])], 4, 4);
    let r = render_notebook(&nb, "nb.ipynb", 40, 20);
    match r {
        Err(NotebookError::UnsupportedVersion) => {}
        _ => panic!("expected the distinct version error"),
    }
    let nb2 = notebook_with(vec![], 5, 5);
    assert!(matches!(
        render_notebook(&nb2, "nb.ipynb", 40, 20),
        Err(NotebookError::UnsupportedVersion)
    ));
}

#[test]
fn supported_version_renders() {
    let nb = notebook_with(vec![], 4, 5);
    let items = render_notebook(&nb, "nb.ipynb", 12, 20).unwrap();
    let rows = rows_of(&items);
    assert_eq!(rows.len(), 3);
    assert_eq!(rows[0], format!("{GRAY}───────┬────{RESET}"));
    assert_eq!(
        rows[1],
        format!("       {GRAY}│{RESET} File: {BOLD}\"nb.ipynb\"{RESET}  Kernel: {BOLD}Python 3{RESET}")
    );
    assert_eq!(rows[2], format!("{GRAY}───────┴────{RESET}"));
}

#[test]
fn badge_is_star_when_never_executed() {
    assert_eq!(nbview::text::badge_text(None), "[*]");
}

#[test]
fn badge_is_the_count_when_executed() {
    assert_eq!(nbview::text::badge_text(Some(7)), "[7]");
    assert_eq!(nbview::text::badge_text(Some(12)), "[12]");
    assert_eq!(nbview::text::badge_text(Some(0)), "[0]");
}

#[test]
fn stream_lines_concatenate_then_split() {
    let out = NotebookCellOutput::Stream {
        name: "stdout".to_owned(),
        text: vec!["line1\n".to_owned(), "line2".to_owned()],
    };
    let nb = notebook_with(vec![code_cell(None, vec![out])], 4, 5);
    let items = render_notebook(&nb, "nb.ipynb", 40, 20).unwrap();
    let rows = rows_of(&items);
    // top, header, cell separator, one empty fenced source row,
    // output separator, two stream rows, bottom
    assert_eq!(rows.len(), 8);
    assert_eq!(rows[5], format!("  [*]  {GRAY}│{RESET} line1"));
    assert_eq!(rows[6], format!("       {GRAY}│{RESET} line2"));
}

#[test]
fn plain_text_output_escapes_line_breaks() {
    let out = NotebookCellOutput::DisplayData {
        data: vec![(
            "text/plain".to_owned(),
            JsonValue::Items(vec![
                JsonValue::Text("a\n".to_owned()),
                JsonValue::Text("b".to_owned()),
            ]),
        )],
    };
    let nb = notebook_with(vec![code_cell(None, vec![out])], 4, 5);
    let items = render_notebook(&nb, "nb.ipynb", 40, 20).unwrap();
    let rows = rows_of(&items);
    assert_eq!(rows[5], format!("  [*]  {GRAY}│ {ITALIC}a\\nb{RESET}"));
}

#[test]
fn unknown_mime_gets_a_visible_marker_and_render_goes_on() {
    let out = NotebookCellOutput::DisplayData {
        data: vec![
            ("application/json".to_owned(), JsonValue::Null),
            (
                "text/plain".to_owned(),
                JsonValue::Items(vec![JsonValue::Text("ok".to_owned())]),
            ),
        ],
    };
    let nb = notebook_with(vec![code_cell(Some(3), vec![out])], 4, 5);
    let items = render_notebook(&nb, "nb.ipynb", 40, 20).unwrap();
    let rows = rows_of(&items);
    assert_eq!(
        rows[5],
        format!("  [3]  {GRAY}│ {WARN}Unsupported data output{RESET}")
    );
    // entries render in document order; the badge is shown once
    assert_eq!(rows[6], format!("       {GRAY}│ {ITALIC}ok{RESET}"));
    // the bottom border still arrives: nothing aborted
    let dashes: String = std::iter::repeat('─').take(32).collect();
    assert_eq!(rows.last().unwrap(), &format!("{GRAY}───────┴{dashes}{RESET}"));
}

#[test]
fn code_cell_round_trips_through_formatter_and_reflow() {
    let cell = NotebookCell::Code {
        id: "c1".to_owned(),
        source: vec!["x = 1".to_owned(), "y = 2".to_owned()],
        execution_count: Some(1),
        outputs: vec![],
    };
    let text = cell.source("python");
    assert_eq!(text, "```python\nx = 1\ny = 2\n```\n");
    let carrying = NotebookCell::Code {
        id: "c2".to_owned(),
        source: vec!["x = 1\n".to_owned(), "y = 2".to_owned()],
        execution_count: Some(1),
        outputs: vec![],
    };
    assert_eq!(carrying.source("python"), "```python\nx = 1\ny = 2\n```\n");
    let lines = nbview::wrap::reflow(&text, 30);
    let code: Vec<_> = lines
        .iter()
        .filter_map(|l| match &l.kind {
            nbview::wrap::LineKind::Code { tag } => Some((tag.clone(), l.body.clone())),
            _ => None,
        })
        .collect();
    assert_eq!(code.len(), 2);
    assert_eq!(code[0], ("python".to_owned(), "x = 1".to_owned()));
    assert_eq!(code[1], ("python".to_owned(), "y = 2".to_owned()));
}

#[test]
fn no_reflowed_line_exceeds_the_column() {
    let text = "one two three four five six seven eight nine ten, and a veryverylongwordindeed\n\n```c\nsome unbroken code line that is rather long\n```\n";
    for width in [1usize, 2, 3, 7, 10, 80] {
        let lines = nbview::wrap::reflow(text, width);
        for l in &lines {
            assert!(l.body.chars().count() <= width, "width {width}: {:?}", l.body);
        }
    }
}

#[test]
fn paragraphs_word_wrap_greedily() {
    let lines = nbview::wrap::reflow("alpha beta gamma", 11);
    let bodies: Vec<_> = lines.iter().map(|l| l.body.clone()).collect();
    assert_eq!(bodies, vec!["alpha beta".to_owned(), "gamma".to_owned()]);
}

#[test]
fn fit_keeps_small_pictures_and_shrinks_large_ones() {
    // the documented example: 100x100 pixels into 40x15 cells
    assert_eq!(nbview::img::fit_within(100, 100, 40, 15), (30, 15));
    // a small picture is not scaled up
    assert_eq!(nbview::img::fit_within(4, 4, 40, 15), (4, 2));
    // wider than the box: width pinned, height follows the ratio
    let (w, h) = nbview::img::fit_within(200, 50, 40, 50);
    assert_eq!(w, 40);
    assert_eq!(h, 5);
}

#[test]
fn prepare_image_decodes_and_fits() {
    // a one-by-one transparent PNG
    let png_b64 = "iVBORw0KGgoAAAANSUhEUgAAAAEAAAABCAYAAAAfFcSJAAAADUlEQVR42mNkYPhfDwAChwGA60e6kgAAAABJRU5ErkJggg==\n";
    let placed = nbview::img::prepare_image(png_b64, 20, 10).unwrap();
    assert_eq!(placed.width_cells, 1);
    assert_eq!(placed.height_cells, 1);
}

#[test]
fn prepare_image_reports_bad_payloads() {
    match nbview::img::prepare_image("not//base64!!", 20, 10) {
        Err(f) => assert_eq!(f, nbview::img::ImageFault::NotBase64),
        Ok(_) => panic!("expected a base64 fault"),
    }
    match nbview::img::prepare_image("aGVsbG8=", 20, 10) {
        Err(f) => assert_eq!(f, nbview::img::ImageFault::NotAnImage),
        Ok(_) => panic!("expected an image fault"),
    }
}

#[test]
fn image_entries_become_placements() {
    let out = NotebookCellOutput::DisplayData {
        data: vec![(
            "image/png".to_owned(),
            JsonValue::Text("AAAA".to_owned()),
        )],
    };
    let nb = notebook_with(vec![code_cell(None, vec![out])], 4, 5);
    let items = render_notebook(&nb, "nb.ipynb", 30, 10).unwrap();
    let pic = items
        .iter()
        .find_map(|it| match it {
            RenderItem::Picture { payload, max_w, max_h, x, .. } => {
                Some((payload.clone(), *max_w, *max_h, *x))
            }
            _ => None,
        })
        .expect("a placement");
    assert_eq!(pic, ("AAAA".to_owned(), 20, 5, 9));
}

#[test]
fn parse_text_reads_a_whole_document() {
    let doc = r##"{
        "nbformat": 4, "nbformat_minor": 5,
        "metadata": {
            "kernelspec": {"display_name": "Python 3", "language": "python", "name": "python3"},
            "language_info": {"name": "python"}
        },
        "cells": [
            {"cell_type": "markdown", "id": "m1", "metadata": {}, "source": ["# Title"]},
            {"cell_type": "code", "id": "c1", "metadata": {}, "execution_count": 2,
             "source": ["print(1)"], "outputs": [
                {"output_type": "stream", "name": "stdout", "text": ["1\n"]}
             ]}
        ]
    }"##;
    let nb = Notebook::parse_text(doc).unwrap();
    assert_eq!(nb.version, NotebookVersion::new(4, 5));
    assert_eq!(nb.metadata.kernel_spec.display_name, "Python 3");
    assert_eq!(nb.cells.len(), 2);
    match &nb.cells[1] {
        NotebookCell::Code { execution_count, outputs, .. } => {
            assert_eq!(*execution_count, Some(2));
            assert_eq!(outputs.len(), 1);
        }
        _ => panic!("expected a code cell"),
    }
}

#[test]
fn parse_text_names_the_missing_field() {
    let doc = r#"{"nbformat": 4, "nbformat_minor": 5,
        "metadata": {"kernelspec": {"display_name": "d", "language": "l", "name": "n"},
                     "language_info": {}}}"#;
    match Notebook::parse_text(doc) {
        Err(NotebookError::MalformedDocument { fault, field }) => {
            assert_eq!(fault, DocumentFault::MissingField);
            assert_eq!(field, "cells");
        }
        _ => panic!("expected a malformed-document error"),
    }
}

#[test]
fn parse_text_rejects_unknown_cell_tags() {
    let doc = r#"{"nbformat": 4, "nbformat_minor": 5,
        "metadata": {"kernelspec": {"display_name": "d", "language": "l", "name": "n"},
                     "language_info": {}},
        "cells": [{"cell_type": "mystery", "id": "x", "metadata": {}, "source": []}]}"#;
    match Notebook::parse_text(doc) {
        Err(NotebookError::MalformedDocument { fault, field }) => {
            assert_eq!(fault, DocumentFault::UnknownTag);
            assert_eq!(field, "cell_type");
        }
        _ => panic!("expected an unknown-tag error"),
    }
}

#[test]
fn parse_text_keeps_execution_count_null_as_none() {
    let doc = r#"{"nbformat": 4, "nbformat_minor": 5,
        "metadata": {"kernelspec": {"display_name": "d", "language": "l", "name": "n"},
                     "language_info": {}},
        "cells": [{"cell_type": "code", "id": "c", "metadata": {}, "source": [],
                   "execution_count": null, "outputs": []}]}"#;
    let nb = Notebook::parse_text(doc).unwrap();
    match &nb.cells[0] {
        NotebookCell::Code { execution_count, .. } => assert_eq!(*execution_count, None),
        _ => panic!("expected a code cell"),
    }
}

#[test]
fn mime_entries_keep_document_order() {
    let doc = r#"{"nbformat": 4, "nbformat_minor": 5,
        "metadata": {"kernelspec": {"display_name": "d", "language": "l", "name": "n"},
                     "language_info": {}},
        "cells": [{"cell_type": "code", "id": "c", "metadata": {}, "source": [],
                   "execution_count": 1, "outputs": [
            {"output_type": "display_data",
             "data": {"text/html": "<b>x</b>", "text/plain": ["x"]}}
        ]}]}"#;
    let nb = Notebook::parse_text(doc).unwrap();
    match &nb.cells[0] {
        NotebookCell::Code { outputs, .. } => match &outputs[0] {
            NotebookCellOutput::DisplayData { data } => {
                assert_eq!(data[0].0, "text/html");
                assert_eq!(data[1].0, "text/plain");
            }
            _ => panic!("expected display data"),
        },
        _ => panic!("expected a code cell"),
    }
}

#[test]
fn raw_cells_render_their_source() {
    let raw = NotebookCell::Raw {
        id: "r1".to_owned(),
        source: vec!["plain words".to_owned()],
    };
    let nb = notebook_with(vec![raw], 4, 5);
    let items = render_notebook(&nb, "nb.ipynb", 30, 20).unwrap();
    let rows = rows_of(&items);
    assert_eq!(rows.len(), 5); // top, header, cell separator, one content row, bottom
    assert_eq!(rows[3], format!("  Raw  {GRAY}│{RESET} plain words"));
}

#[test]
fn markdown_cells_show_their_label_once() {
    let md = NotebookCell::Markdown {
        id: "m1".to_owned(),
        source: vec!["alpha beta gamma".to_owned()],
    };
    assert_eq!(md.name(), "MD");
    let nb = notebook_with(vec![md], 4, 5);
    let items = render_notebook(&nb, "nb.ipynb", 20, 20).unwrap();
    let rows = rows_of(&items);
    // content column is 11 wide: "alpha beta" / "gamma"
    assert_eq!(rows[3], format!("  MD   {GRAY}│{RESET} alpha beta"));
    assert_eq!(rows[4], format!("       {GRAY}│{RESET} gamma"));
}

#[test]
fn text_utilities_behave() {
    assert_eq!(
        nbview::text::split_lines("a\nb\n"),
        vec!["a".to_owned(), "b".to_owned()]
    );
    assert_eq!(nbview::text::split_lines(""), Vec::<String>::new());
    assert_eq!(nbview::text::split_lines("\n"), vec!["".to_owned()]);
    assert_eq!(nbview::text::escape_line_breaks("a\nb"), "a\\nb");
    assert_eq!(nbview::text::trim_end_blank("QUJD\n \t"), "QUJD");
    assert_eq!(
        nbview::text::concat_fragments(&vec!["ab".to_owned(), "cd".to_owned()]),
        "abcd"
    );
}

#[test]
fn kernel_defaults_and_args_hold_plain_data() {
    assert_eq!(
        nbview::kernel::InterruptMode::default(),
        nbview::kernel::InterruptMode::Signal
    );
    let a = nbview::args::Args {
        file: Some("nb.ipynb".to_owned()),
        run: false,
        kernel: None,
        list_kernels: false,
    };
    assert_eq!(a.file.as_deref(), Some("nb.ipynb"));
}

#[test]
fn kernel_spec_file_parses_with_defaults() {
    let doc = r#"{"argv": ["python", "-m", "ipykernel"],
                  "display_name": "Python 3", "language": "python"}"#;
    let spec = nbview::kernel::KernelSpec::parse_text(doc).unwrap();
    assert_eq!(spec.argv, vec!["python", "-m", "ipykernel"]);
    assert_eq!(spec.display_name, "Python 3");
    assert_eq!(spec.language, "python");
    assert_eq!(spec.interrupt_mode, nbview::kernel::InterruptMode::Signal);
    assert!(spec.env.is_empty());
}

#[test]
fn kernel_spec_file_reads_mode_and_env() {
    let doc = r#"{"argv": ["r"], "display_name": "R", "language": "r",
                  "interrupt_mode": "message",
                  "env": {"A": "1", "B": "2"}, "metadata": {"x": 1}}"#;
    let spec = nbview::kernel::KernelSpec::parse_text(doc).unwrap();
    assert_eq!(spec.interrupt_mode, nbview::kernel::InterruptMode::Message);
    assert_eq!(
        spec.env,
        vec![("A".to_owned(), "1".to_owned()), ("B".to_owned(), "2".to_owned())]
    );
}

#[test]
fn kernel_spec_file_names_its_faults() {
    let doc = r#"{"display_name": "d", "language": "l"}"#;
    match nbview::kernel::KernelSpec::parse_text(doc) {
        Err(NotebookError::MalformedDocument { fault, field }) => {
            assert_eq!(fault, DocumentFault::MissingField);
            assert_eq!(field, "argv");
        }
        _ => panic!("expected a missing-argv error"),
    }
    let doc2 = r#"{"argv": ["x"], "display_name": "d", "language": "l",
                   "interrupt_mode": "poke"}"#;
    match nbview::kernel::KernelSpec::parse_text(doc2) {
        Err(NotebookError::MalformedDocument { fault, field }) => {
            assert_eq!(fault, DocumentFault::UnknownTag);
            assert_eq!(field, "interrupt_mode");
        }
        _ => panic!("expected an unknown-tag error"),
    }
}

#[test]
fn version_and_kernel_show_as_text() {
    assert_eq!(NotebookVersion::new(4, 5).text(), "4.5");
    assert_eq!(NotebookVersion::new(10, 0).text(), "10.0");
    let spec = nbview::kernel::KernelSpec {
        argv: vec![],
        display_name: "Python 3".to_owned(),
        language: "python".to_owned(),
        interrupt_mode: nbview::kernel::InterruptMode::Signal,
        env: vec![],
    };
    assert_eq!(spec.display_text(), "Python 3");
}


#[test]
fn crlf_streams_lose_their_carriage_returns() {
    assert_eq!(
        nbview::text::split_lines("a\r\nb\r\n"),
        vec!["a".to_owned(), "b".to_owned()]
    );
    // a carriage return not followed by a line feed is content
    assert_eq!(nbview::text::split_lines("a\rb"), vec!["a\rb".to_owned()]);
}

#[test]
fn wide_characters_count_as_two_columns() {
    // two ideographs, two columns each, wrapped at two columns
    let lines = nbview::wrap::reflow("\u{65E5}\u{672C}", 2);
    let bodies: Vec<_> = lines.iter().map(|l| l.body.clone()).collect();
    assert_eq!(bodies, vec!["\u{65E5}".to_owned(), "\u{672C}".to_owned()]);
    // a wide character and a narrow one fit three columns together
    let lines3 = nbview::wrap::reflow("\u{65E5}a", 3);
    let bodies3: Vec<_> = lines3.iter().map(|l| l.body.clone()).collect();
    assert_eq!(bodies3, vec!["\u{65E5}a".to_owned()]);
}
