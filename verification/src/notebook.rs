//! The typed document model of a notebook, and its strict parser from the
//! plain JSON tree. Structural faults are reported precisely; an unknown
//! format version is a distinct error raised before any rendering.

use vstd::prelude::*;
use crate::json::{JsonValue, get_field, lemma_find_entry_is, field_scan, lemma_field_scan_done, json_of, json_model};
use crate::text::{concat_all, joined_lines};

verus! {

/// The notebook file format version, as the pair (major, minor).
#[derive(Debug, PartialEq, Eq, Clone, Copy)]
pub struct NotebookVersion {
    pub major: u32,
    pub minor: u32,
}

impl NotebookVersion {
    pub fn new(major: u32, minor: u32) -> (r: Self)
        ensures
            r.major == major,
            r.minor == minor,
    {
        Self { major, minor }
    }

    /// The single supported format version: rendering refuses any other.
    pub open spec fn spec_supported(self) -> bool {
        self.major == 4 && self.minor == 5
    }

    pub fn is_supported(&self) -> (r: bool)
        ensures
            r == self.spec_supported(),
    {
        self.major == 4 && self.minor == 5
    }

    /// The version as text, major dot minor.
    pub fn text(&self) -> (r: String)
        ensures
            r@ == crate::text::dec_str(self.major as nat) + seq!['.'] + crate::text::dec_str(
                self.minor as nat,
            ),
    {
        let mut s = crate::text::decimal_text(self.major);
        s.append(".");
        let tail = crate::text::decimal_text(self.minor);
        s.append(tail.as_str());
        proof {
            reveal_strlit(".");
            assert("."@ =~= seq!['.']);
        }
        s
    }
}

/// The kernel named by the document: its display name, language and name.
#[derive(Debug, PartialEq)]
pub struct NotebookKernelSpec {
    pub display_name: String,
    pub language: String,
    pub name: String,
}

/// Document metadata that the renderer reads.
#[derive(Debug, PartialEq)]
pub struct NotebookMetadata {
    pub kernel_spec: NotebookKernelSpec,
}

/// One recorded result of a code cell.
#[derive(Debug, PartialEq)]
pub enum NotebookCellOutput {
    /// Captured stream text; the fragments may split lines arbitrarily.
    Stream { name: String, text: Vec<String> },
    /// Rich display data: entries from MIME type to value, in document order.
    DisplayData { data: Vec<(String, JsonValue)> },
}

/// One cell of the document.
#[derive(Debug, PartialEq)]
pub enum NotebookCell {
    Code {
        id: String,
        source: Vec<String>,
        execution_count: Option<u32>,
        outputs: Vec<NotebookCellOutput>,
    },
    Markdown { id: String, source: Vec<String> },
    Raw { id: String, source: Vec<String> },
}

/// A parsed notebook document.
#[derive(Debug, PartialEq)]
pub struct Notebook {
    pub cells: Vec<NotebookCell>,
    pub metadata: NotebookMetadata,
    pub version: NotebookVersion,
}

/// Which structural expectation a malformed document violated.
#[derive(Debug, PartialEq, Eq, Clone, Copy)]
pub enum DocumentFault {
    MissingField,
    WrongType,
    UnknownTag,
}

/// Why a document cannot be rendered.
#[derive(Debug, PartialEq)]
pub enum NotebookError {
    /// A structural fault, naming the field where it was found.
    MalformedDocument { fault: DocumentFault, field: String },
    /// The document's version is not the supported one.
    UnsupportedVersion,
}

pub enum OutputView {
    Stream { name: String, text: Seq<String> },
    DisplayData { data: Seq<(String, JsonValue)> },
}

pub enum CellView {
    Code {
        id: String,
        source: Seq<String>,
        execution_count: Option<u32>,
        outputs: Seq<OutputView>,
    },
    Markdown { id: String, source: Seq<String> },
    Raw { id: String, source: Seq<String> },
}

pub struct NotebookView {
    pub cells: Seq<CellView>,
    pub metadata: NotebookMetadata,
    pub version: NotebookVersion,
}

pub enum ErrorView {
    Malformed { fault: DocumentFault, field: Seq<char> },
    UnsupportedVersion,
}

impl View for NotebookCellOutput {
    type V = OutputView;

    open spec fn view(&self) -> OutputView {
        match self {
            NotebookCellOutput::Stream { name, text } => OutputView::Stream {
                name: *name,
                text: text@,
            },
            NotebookCellOutput::DisplayData { data } => OutputView::DisplayData { data: data@ },
        }
    }
}

impl View for NotebookCell {
    type V = CellView;

    open spec fn view(&self) -> CellView {
        match self {
            NotebookCell::Code { id, source, execution_count, outputs } => CellView::Code {
                id: *id,
                source: source@,
                execution_count: *execution_count,
                outputs: outputs@.map_values(|o: NotebookCellOutput| o@),
            },
            NotebookCell::Markdown { id, source } => CellView::Markdown {
                id: *id,
                source: source@,
            },
            NotebookCell::Raw { id, source } => CellView::Raw { id: *id, source: source@ },
        }
    }
}

impl View for Notebook {
    type V = NotebookView;

    open spec fn view(&self) -> NotebookView {
        NotebookView {
            cells: self.cells@.map_values(|c: NotebookCell| c@),
            metadata: NotebookMetadata {
                kernel_spec: NotebookKernelSpec {
                    display_name: self.metadata.kernel_spec.display_name,
                    language: self.metadata.kernel_spec.language,
                    name: self.metadata.kernel_spec.name,
                },
            },
            version: self.version,
        }
    }
}

impl View for NotebookError {
    type V = ErrorView;

    open spec fn view(&self) -> ErrorView {
        match self {
            NotebookError::MalformedDocument { fault, field } => ErrorView::Malformed {
                fault: *fault,
                field: field@,
            },
            NotebookError::UnsupportedVersion => ErrorView::UnsupportedVersion,
        }
    }
}

/// A structural fault at `field`, as a spec-level error.
pub open spec fn fault_at(fault: DocumentFault, field: Seq<char>) -> ErrorView {
    ErrorView::Malformed { fault, field }
}

/// The strings of an array of JSON text values; `None` if any element
/// is not a text value.
pub open spec fn str_list_view(a: Seq<JsonValue>) -> Option<Seq<String>> {
    if forall|i: int| 0 <= i < a.len() ==> a[i] is Text {
        Option::Some(Seq::new(a.len(), |i: int| a[i]->Text_0))
    } else {
        Option::None
    }
}

/// What one recorded output must look like.
pub open spec fn spec_parse_output(j: JsonValue) -> Result<OutputView, ErrorView> {
    match j {
        JsonValue::Entries(e) => match get_field(e@, "output_type"@) {
            Option::Some(JsonValue::Text(t)) => {
                if t@ == "stream"@ {
                    match get_field(e@, "name"@) {
                        Option::Some(JsonValue::Text(nm)) => match get_field(e@, "text"@) {
                            Option::Some(JsonValue::Items(a)) => match str_list_view(a@) {
                                Option::Some(ss) => Result::Ok(OutputView::Stream {
                                    name: nm,
                                    text: ss,
                                }),
                                Option::None => Result::Err(
                                    fault_at(DocumentFault::WrongType, "text"@),
                                ),
                            },
                            Option::Some(_) => Result::Err(
                                fault_at(DocumentFault::WrongType, "text"@),
                            ),
                            Option::None => Result::Err(
                                fault_at(DocumentFault::MissingField, "text"@),
                            ),
                        },
                        Option::Some(_) => Result::Err(fault_at(DocumentFault::WrongType, "name"@)),
                        Option::None => Result::Err(fault_at(DocumentFault::MissingField, "name"@)),
                    }
                } else if t@ == "display_data"@ {
                    match get_field(e@, "data"@) {
                        Option::Some(JsonValue::Entries(d)) => Result::Ok(
                            OutputView::DisplayData { data: d@ },
                        ),
                        Option::Some(_) => Result::Err(fault_at(DocumentFault::WrongType, "data"@)),
                        Option::None => Result::Err(fault_at(DocumentFault::MissingField, "data"@)),
                    }
                } else {
                    Result::Err(fault_at(DocumentFault::UnknownTag, "output_type"@))
                }
            },
            Option::Some(_) => Result::Err(fault_at(DocumentFault::WrongType, "output_type"@)),
            Option::None => Result::Err(fault_at(DocumentFault::MissingField, "output_type"@)),
        },
        _ => Result::Err(fault_at(DocumentFault::WrongType, "outputs"@)),
    }
}

/// The outputs of a code cell, in order; the first fault wins.
pub open spec fn spec_parse_outputs(a: Seq<JsonValue>) -> Result<Seq<OutputView>, ErrorView>
    decreases a.len(),
{
    if a.len() == 0 {
        Result::Ok(Seq::empty())
    } else {
        match spec_parse_outputs(a.drop_last()) {
            Result::Ok(init) => match spec_parse_output(a.last()) {
                Result::Ok(o) => Result::Ok(init.push(o)),
                Result::Err(e) => Result::Err(e),
            },
            Result::Err(e) => Result::Err(e),
        }
    }
}

pub proof fn lemma_spec_parse_outputs_err(a: Seq<JsonValue>, i: int)
    requires
        0 <= i <= a.len(),
        spec_parse_outputs(a.take(i)) is Err,
    ensures
        spec_parse_outputs(a) == spec_parse_outputs(a.take(i)),
    decreases a.len() - i,
{
    if i == a.len() {
        assert(a.take(i) =~= a);
    } else {
        assert(a.take(i + 1).drop_last() =~= a.take(i));
        assert(a.take(i + 1).last() == a[i]);
        lemma_spec_parse_outputs_err(a, i + 1);
    }
}

/// The execution count of a code cell: absent or null means never
/// executed; a number must fit an unsigned 32-bit count.
pub open spec fn spec_parse_execution_count(e: Seq<(String, JsonValue)>) -> Result<
    Option<u32>,
    ErrorView,
> {
    match get_field(e, "execution_count"@) {
        Option::None => Result::Ok(Option::None),
        Option::Some(JsonValue::Null) => Result::Ok(Option::None),
        Option::Some(JsonValue::Int(n)) => {
            if 0 <= n <= u32::MAX as i64 {
                Result::Ok(Option::Some(n as u32))
            } else {
                Result::Err(fault_at(DocumentFault::WrongType, "execution_count"@))
            }
        },
        Option::Some(_) => Result::Err(fault_at(DocumentFault::WrongType, "execution_count"@)),
    }
}

/// The common fields every cell carries: its id and its source lines.
/// A present `metadata` field is also demanded, whatever it holds.
pub open spec fn spec_parse_cell_common(e: Seq<(String, JsonValue)>) -> Result<
    (String, Seq<String>),
    ErrorView,
> {
    match get_field(e, "id"@) {
        Option::Some(JsonValue::Text(id)) => match get_field(e, "source"@) {
            Option::Some(JsonValue::Items(a)) => match str_list_view(a@) {
                Option::Some(ss) => match get_field(e, "metadata"@) {
                    Option::Some(_) => Result::Ok((id, ss)),
                    Option::None => Result::Err(fault_at(DocumentFault::MissingField, "metadata"@)),
                },
                Option::None => Result::Err(fault_at(DocumentFault::WrongType, "source"@)),
            },
            Option::Some(_) => Result::Err(fault_at(DocumentFault::WrongType, "source"@)),
            Option::None => Result::Err(fault_at(DocumentFault::MissingField, "source"@)),
        },
        Option::Some(_) => Result::Err(fault_at(DocumentFault::WrongType, "id"@)),
        Option::None => Result::Err(fault_at(DocumentFault::MissingField, "id"@)),
    }
}

/// What one cell must look like, by its tag.
pub open spec fn spec_parse_cell(j: JsonValue) -> Result<CellView, ErrorView> {
    match j {
        JsonValue::Entries(e) => match get_field(e@, "cell_type"@) {
            Option::Some(JsonValue::Text(t)) => {
                if t@ == "code"@ {
                    match spec_parse_cell_common(e@) {
                        Result::Ok((id, ss)) => match spec_parse_execution_count(e@) {
                            Result::Ok(ec) => match get_field(e@, "outputs"@) {
                                Option::Some(JsonValue::Items(a)) => match spec_parse_outputs(a@) {
                                    Result::Ok(os) => Result::Ok(CellView::Code {
                                        id,
                                        source: ss,
                                        execution_count: ec,
                                        outputs: os,
                                    }),
                                    Result::Err(e2) => Result::Err(e2),
                                },
                                Option::Some(_) => Result::Err(
                                    fault_at(DocumentFault::WrongType, "outputs"@),
                                ),
                                Option::None => Result::Err(
                                    fault_at(DocumentFault::MissingField, "outputs"@),
                                ),
                            },
                            Result::Err(e2) => Result::Err(e2),
                        },
                        Result::Err(e2) => Result::Err(e2),
                    }
                } else if t@ == "markdown"@ {
                    match spec_parse_cell_common(e@) {
                        Result::Ok((id, ss)) => Result::Ok(CellView::Markdown { id, source: ss }),
                        Result::Err(e2) => Result::Err(e2),
                    }
                } else if t@ == "raw"@ {
                    match spec_parse_cell_common(e@) {
                        Result::Ok((id, ss)) => Result::Ok(CellView::Raw { id, source: ss }),
                        Result::Err(e2) => Result::Err(e2),
                    }
                } else {
                    Result::Err(fault_at(DocumentFault::UnknownTag, "cell_type"@))
                }
            },
            Option::Some(_) => Result::Err(fault_at(DocumentFault::WrongType, "cell_type"@)),
            Option::None => Result::Err(fault_at(DocumentFault::MissingField, "cell_type"@)),
        },
        _ => Result::Err(fault_at(DocumentFault::WrongType, "cells"@)),
    }
}

/// The cells of the document, in order; the first fault wins.
pub open spec fn spec_parse_cells(a: Seq<JsonValue>) -> Result<Seq<CellView>, ErrorView>
    decreases a.len(),
{
    if a.len() == 0 {
        Result::Ok(Seq::empty())
    } else {
        match spec_parse_cells(a.drop_last()) {
            Result::Ok(init) => match spec_parse_cell(a.last()) {
                Result::Ok(c) => Result::Ok(init.push(c)),
                Result::Err(e) => Result::Err(e),
            },
            Result::Err(e) => Result::Err(e),
        }
    }
}

pub proof fn lemma_spec_parse_cells_err(a: Seq<JsonValue>, i: int)
    requires
        0 <= i <= a.len(),
        spec_parse_cells(a.take(i)) is Err,
    ensures
        spec_parse_cells(a) == spec_parse_cells(a.take(i)),
    decreases a.len() - i,
{
    if i == a.len() {
        assert(a.take(i) =~= a);
    } else {
        assert(a.take(i + 1).drop_last() =~= a.take(i));
        assert(a.take(i + 1).last() == a[i]);
        lemma_spec_parse_cells_err(a, i + 1);
    }
}

/// What the kernelspec block must look like.
pub open spec fn spec_parse_kernelspec(j: JsonValue) -> Result<NotebookKernelSpec, ErrorView> {
    match j {
        JsonValue::Entries(e) => match get_field(e@, "display_name"@) {
            Option::Some(JsonValue::Text(dn)) => match get_field(e@, "language"@) {
                Option::Some(JsonValue::Text(lg)) => match get_field(e@, "name"@) {
                    Option::Some(JsonValue::Text(nm)) => Result::Ok(NotebookKernelSpec {
                        display_name: dn,
                        language: lg,
                        name: nm,
                    }),
                    Option::Some(_) => Result::Err(fault_at(DocumentFault::WrongType, "name"@)),
                    Option::None => Result::Err(fault_at(DocumentFault::MissingField, "name"@)),
                },
                Option::Some(_) => Result::Err(fault_at(DocumentFault::WrongType, "language"@)),
                Option::None => Result::Err(fault_at(DocumentFault::MissingField, "language"@)),
            },
            Option::Some(_) => Result::Err(fault_at(DocumentFault::WrongType, "display_name"@)),
            Option::None => Result::Err(fault_at(DocumentFault::MissingField, "display_name"@)),
        },
        _ => Result::Err(fault_at(DocumentFault::WrongType, "kernelspec"@)),
    }
}

/// What the metadata block must look like: a kernelspec, and a present
/// `language_info` blob, whose contents are ignored.
pub open spec fn spec_parse_metadata(j: JsonValue) -> Result<NotebookMetadata, ErrorView> {
    match j {
        JsonValue::Entries(e) => match get_field(e@, "kernelspec"@) {
            Option::Some(ks) => match spec_parse_kernelspec(ks) {
                Result::Ok(k) => match get_field(e@, "language_info"@) {
                    Option::Some(_) => Result::Ok(NotebookMetadata { kernel_spec: k }),
                    Option::None => Result::Err(
                        fault_at(DocumentFault::MissingField, "language_info"@),
                    ),
                },
                Result::Err(e2) => Result::Err(e2),
            },
            Option::None => Result::Err(fault_at(DocumentFault::MissingField, "kernelspec"@)),
        },
        _ => Result::Err(fault_at(DocumentFault::WrongType, "metadata"@)),
    }
}

/// A format version component, a non-negative number fitting 32 bits.
pub open spec fn spec_parse_version_part(e: Seq<(String, JsonValue)>, key: Seq<char>) -> Result<
    u32,
    ErrorView,
> {
    match get_field(e, key) {
        Option::Some(JsonValue::Int(n)) => {
            if 0 <= n <= u32::MAX as i64 {
                Result::Ok(n as u32)
            } else {
                Result::Err(fault_at(DocumentFault::WrongType, key))
            }
        },
        Option::Some(_) => Result::Err(fault_at(DocumentFault::WrongType, key)),
        Option::None => Result::Err(fault_at(DocumentFault::MissingField, key)),
    }
}

/// What the whole document must look like. The version is read here but
/// judged at render time, so that an unsupported version is its own error.
pub open spec fn spec_parse_notebook(j: JsonValue) -> Result<NotebookView, ErrorView> {
    match j {
        JsonValue::Entries(e) => match get_field(e@, "cells"@) {
            Option::Some(JsonValue::Items(a)) => match spec_parse_cells(a@) {
                Result::Ok(cs) => match get_field(e@, "metadata"@) {
                    Option::Some(m) => match spec_parse_metadata(m) {
                        Result::Ok(md) => match spec_parse_version_part(e@, "nbformat"@) {
                            Result::Ok(maj) => match spec_parse_version_part(
                                e@,
                                "nbformat_minor"@,
                            ) {
                                Result::Ok(min) => Result::Ok(NotebookView {
                                    cells: cs,
                                    metadata: md,
                                    version: NotebookVersion { major: maj, minor: min },
                                }),
                                Result::Err(e2) => Result::Err(e2),
                            },
                            Result::Err(e2) => Result::Err(e2),
                        },
                        Result::Err(e2) => Result::Err(e2),
                    },
                    Option::None => Result::Err(fault_at(DocumentFault::MissingField, "metadata"@)),
                },
                Result::Err(e2) => Result::Err(e2),
            },
            Option::Some(_) => Result::Err(fault_at(DocumentFault::WrongType, "cells"@)),
            Option::None => Result::Err(fault_at(DocumentFault::MissingField, "cells"@)),
        },
        _ => Result::Err(fault_at(DocumentFault::WrongType, "notebook"@)),
    }
}

/// The label shown for a cell in the label column.
pub open spec fn spec_cell_label(c: CellView) -> Seq<char> {
    match c {
        CellView::Code { .. } => "Code"@,
        CellView::Markdown { .. } => "MD"@,
        CellView::Raw { .. } => "Raw"@,
    }
}

/// The view of each string in a sequence of strings.
pub open spec fn strs_view(ss: Seq<String>) -> Seq<Seq<char>> {
    ss.map_values(|s: String| s@)
}

/// The text block handed to the reflow engine: markdown and raw sources
/// verbatim; a code source inside a fence carrying the language tag,
/// every source line on its own line whether or not the fragments carry
/// their own line breaks.
pub open spec fn spec_formatted_source(c: CellView, language: Seq<char>) -> Seq<char> {
    match c {
        CellView::Markdown { source, .. } => concat_all(strs_view(source)),
        CellView::Raw { source, .. } => concat_all(strs_view(source)),
        CellView::Code { source, .. } => "```"@ + language + "\n"@ + joined_lines(
            strs_view(source),
        ) + "\n```\n"@,
    }
}

impl NotebookCell {
    /// The cell-type label.
    pub fn name(&self) -> (r: &'static str)
        ensures
            r@ == spec_cell_label(self@),
    {
        match self {
            NotebookCell::Code { .. } => "Code",
            NotebookCell::Markdown { .. } => "MD",
            NotebookCell::Raw { .. } => "Raw",
        }
    }

    /// The cell's source as one text block ready for reflow.
    pub fn source(&self, language: &str) -> (r: String)
        ensures
            r@ == spec_formatted_source(self@, language@),
    {
        match self {
            NotebookCell::Markdown { source, .. } => {
                let r = crate::text::concat_fragments(source);
                proof {
                    assert(source.deep_view() =~= strs_view(source@));
                }
                r
            },
            NotebookCell::Raw { source, .. } => {
                let r = crate::text::concat_fragments(source);
                proof {
                    assert(source.deep_view() =~= strs_view(source@));
                }
                r
            },
            NotebookCell::Code { source, .. } => {
                let mut r = String::new();
                r.append("```");
                r.append(language);
                r.append("\n");
                let body = crate::text::join_fragment_lines(source);
                r.append(body.as_str());
                r.append("\n```\n");
                proof {
                    assert(source.deep_view() =~= strs_view(source@));
                }
                r
            },
        }
    }
}

fn doc_fault(fault: DocumentFault, field: &str) -> (r: NotebookError)
    ensures
        r@ == fault_at(fault, field@),
{
    NotebookError::MalformedDocument { fault, field: field.to_owned() }
}

/// Read the strings of an array of JSON text values.
pub(crate) fn parse_text_list(a: Vec<JsonValue>) -> (r: Option<Vec<String>>)
    ensures
        match r {
            Option::Some(v) => str_list_view(a@) == Option::Some(v@),
            Option::None => str_list_view(a@) is None,
        },
{
    let ghost orig = a@;
    let mut rest = a;
    let mut out: Vec<String> = Vec::new();
    let ghost mut i: int = 0;
    while rest.len() > 0
        invariant
            orig == a@,
            0 <= i <= orig.len(),
            i == out@.len(),
            rest@ == orig.skip(i),
            forall|m: int| 0 <= m < i ==> orig[m] is Text,
            forall|m: int| 0 <= m < i ==> out@[m] == orig[m]->Text_0,
        decreases rest.len(),
    {
        proof {
            assert(orig.skip(i)[0] == orig[i]);
            assert(orig.skip(i).remove(0) =~= orig.skip(i + 1));
        }
        let x = rest.remove(0);
        proof {
            assert(x == orig[i]);
        }
        match x {
            JsonValue::Text(s) => {
                proof {
                    assert(orig[i] is Text);
                    assert(orig[i]->Text_0 == s);
                }
                out.push(s);
                proof {
                    i = i + 1;
                }
            },
            _ => {
                proof {
                    assert(!(orig[i] is Text));
                    assert(!(forall|m: int| 0 <= m < orig.len() ==> orig[m] is Text));
                }
                return Option::None;
            },
        }
    }
    proof {
        assert(out@ =~= Seq::new(orig.len(), |m: int| orig[m]->Text_0));
    }
    Option::Some(out)
}

/// Read one recorded output.
fn parse_output(j: JsonValue) -> (r: Result<NotebookCellOutput, NotebookError>)
    ensures
        match r {
            Result::Ok(o) => spec_parse_output(j) == Result::Ok::<OutputView, ErrorView>(o@),
            Result::Err(e) => spec_parse_output(j) == Result::Err::<OutputView, ErrorView>(e@),
        },
{
    match j {
        JsonValue::Entries(entries) => {
            let ghost orig = entries@;
            let key_output_type: String = "output_type".to_owned();
            let key_name: String = "name".to_owned();
            let key_text: String = "text".to_owned();
            let key_data: String = "data".to_owned();
            proof {
                reveal_strlit("output_type");
                reveal_strlit("name");
                reveal_strlit("text");
                reveal_strlit("data");
                assert("output_type"@.len() == 11);
                assert("name"@.len() == 4);
                assert("text"@.len() == 4);
                assert("data"@.len() == 4);
                assert("name"@[0] == 'n');
                assert("text"@[0] == 't');
                assert("data"@[0] == 'd');
            }
            let mut s_output_type: Option<JsonValue> = Option::None;
            let mut s_name: Option<JsonValue> = Option::None;
            let mut s_text: Option<JsonValue> = Option::None;
            let mut s_data: Option<JsonValue> = Option::None;
            let mut rest = entries;
            let ghost mut i: int = 0;
            while rest.len() > 0
                invariant
                    0 <= i <= orig.len(),
                    rest@ == orig.skip(i),
                    key_output_type@ == "output_type"@,
                    key_name@ == "name"@,
                    key_text@ == "text"@,
                    key_data@ == "data"@,
                    "output_type"@ != "name"@ && "output_type"@ != "text"@
                        && "output_type"@ != "data"@ && "name"@ != "text"@
                        && "name"@ != "data"@ && "text"@ != "data"@,
                    field_scan(s_output_type, orig, i, "output_type"@),
                    field_scan(s_name, orig, i, "name"@),
                    field_scan(s_text, orig, i, "text"@),
                    field_scan(s_data, orig, i, "data"@),
                decreases rest.len(),
            {
                proof {
                    assert(orig.skip(i)[0] == orig[i]);
                    assert(orig.skip(i).remove(0) =~= orig.skip(i + 1));
                    reveal_strlit("output_type");
                    reveal_strlit("name");
                    reveal_strlit("text");
                    reveal_strlit("data");
                }
                let (k, v) = rest.remove(0);
                if k == key_output_type {
                    if s_output_type.is_none() {
                        proof {
                            lemma_find_entry_is(orig, "output_type"@, i);
                        }
                        s_output_type = Option::Some(v);
                    }
                } else if k == key_name {
                    if s_name.is_none() {
                        proof {
                            lemma_find_entry_is(orig, "name"@, i);
                        }
                        s_name = Option::Some(v);
                    }
                } else if k == key_text {
                    if s_text.is_none() {
                        proof {
                            lemma_find_entry_is(orig, "text"@, i);
                        }
                        s_text = Option::Some(v);
                    }
                } else if k == key_data {
                    if s_data.is_none() {
                        proof {
                            lemma_find_entry_is(orig, "data"@, i);
                        }
                        s_data = Option::Some(v);
                    }
                }
                proof {
                    i = i + 1;
                }
            }
            proof {
                assert(i == orig.len());
                lemma_field_scan_done(s_output_type, orig, "output_type"@);
                lemma_field_scan_done(s_name, orig, "name"@);
                lemma_field_scan_done(s_text, orig, "text"@);
                lemma_field_scan_done(s_data, orig, "data"@);
            }
            let key_stream: String = "stream".to_owned();
            let key_display_data: String = "display_data".to_owned();
            match s_output_type {
                Option::Some(JsonValue::Text(t)) => {
                    if t == key_stream {
                        match s_name {
                            Option::Some(JsonValue::Text(nm)) => match s_text {
                                Option::Some(JsonValue::Items(a)) => match parse_text_list(a) {
                                    Option::Some(ss) => Result::Ok(NotebookCellOutput::Stream {
                                        name: nm,
                                        text: ss,
                                    }),
                                    Option::None => Result::Err(
                                        doc_fault(DocumentFault::WrongType, "text"),
                                    ),
                                },
                                Option::Some(_) => Result::Err(
                                    doc_fault(DocumentFault::WrongType, "text"),
                                ),
                                Option::None => Result::Err(
                                    doc_fault(DocumentFault::MissingField, "text"),
                                ),
                            },
                            Option::Some(_) => Result::Err(
                                doc_fault(DocumentFault::WrongType, "name"),
                            ),
                            Option::None => Result::Err(
                                doc_fault(DocumentFault::MissingField, "name"),
                            ),
                        }
                    } else if t == key_display_data {
                        match s_data {
                            Option::Some(JsonValue::Entries(d)) => Result::Ok(
                                NotebookCellOutput::DisplayData { data: d },
                            ),
                            Option::Some(_) => Result::Err(
                                doc_fault(DocumentFault::WrongType, "data"),
                            ),
                            Option::None => Result::Err(
                                doc_fault(DocumentFault::MissingField, "data"),
                            ),
                        }
                    } else {
                        Result::Err(doc_fault(DocumentFault::UnknownTag, "output_type"))
                    }
                },
                Option::Some(_) => Result::Err(doc_fault(DocumentFault::WrongType, "output_type")),
                Option::None => Result::Err(doc_fault(DocumentFault::MissingField, "output_type")),
            }
        },
        _ => Result::Err(doc_fault(DocumentFault::WrongType, "outputs")),
    }
}

/// Read the outputs of a code cell, in order.
fn parse_outputs(a: Vec<JsonValue>) -> (r: Result<Vec<NotebookCellOutput>, NotebookError>)
    ensures
        match r {
            Result::Ok(v) => spec_parse_outputs(a@) == Result::Ok::<_, ErrorView>(
                v@.map_values(|o: NotebookCellOutput| o@),
            ),
            Result::Err(e) => spec_parse_outputs(a@) == Result::Err::<Seq<OutputView>, _>(e@),
        },
{
    let ghost orig = a@;
    let mut rest = a;
    let mut out: Vec<NotebookCellOutput> = Vec::new();
    let ghost mut i: int = 0;
    proof {
        assert(orig.take(0) =~= Seq::<JsonValue>::empty());
        assert(out@.map_values(|o: NotebookCellOutput| o@) =~= Seq::<OutputView>::empty());
    }
    while rest.len() > 0
        invariant
            orig == a@,
            0 <= i <= orig.len(),
            i == out@.len(),
            rest@ == orig.skip(i),
            spec_parse_outputs(orig.take(i)) == Result::Ok::<_, ErrorView>(
                out@.map_values(|o: NotebookCellOutput| o@),
            ),
        decreases rest.len(),
    {
        proof {
            assert(orig.skip(i)[0] == orig[i]);
            assert(orig.skip(i).remove(0) =~= orig.skip(i + 1));
            assert(orig.take(i + 1).drop_last() =~= orig.take(i));
            assert(orig.take(i + 1).last() == orig[i]);
        }
        let v = rest.remove(0);
        match parse_output(v) {
            Result::Ok(o) => {
                let ghost prev = out@;
                out.push(o);
                proof {
                    assert(out@.map_values(|x: NotebookCellOutput| x@) =~= prev.map_values(
                        |x: NotebookCellOutput| x@,
                    ).push(o@));
                    i = i + 1;
                }
            },
            Result::Err(er) => {
                proof {
                    lemma_spec_parse_outputs_err(orig, i + 1);
                }
                return Result::Err(er);
            },
        }
    }
    proof {
        assert(orig.take(i) =~= orig);
    }
    Result::Ok(out)
}

/// Read the common fields of a cell once its object has been scanned.
fn cell_common_from(
    id_slot: Option<JsonValue>,
    source_slot: Option<JsonValue>,
    metadata_present: bool,
    Ghost(e): Ghost<Seq<(String, JsonValue)>>,
) -> (r: Result<(String, Vec<String>), NotebookError>)
    requires
        id_slot == get_field(e, "id"@),
        source_slot == get_field(e, "source"@),
        metadata_present == (get_field(e, "metadata"@) is Some),
    ensures
        match r {
            Result::Ok(p) => spec_parse_cell_common(e) == Result::Ok::<_, ErrorView>(
                (p.0, p.1@),
            ),
            Result::Err(er) => spec_parse_cell_common(e) == Result::Err::<
                (String, Seq<String>),
                _,
            >(er@),
        },
{
    match id_slot {
        Option::Some(JsonValue::Text(id)) => match source_slot {
            Option::Some(JsonValue::Items(a)) => match parse_text_list(a) {
                Option::Some(ss) => {
                    if metadata_present {
                        Result::Ok((id, ss))
                    } else {
                        Result::Err(doc_fault(DocumentFault::MissingField, "metadata"))
                    }
                },
                Option::None => Result::Err(doc_fault(DocumentFault::WrongType, "source")),
            },
            Option::Some(_) => Result::Err(doc_fault(DocumentFault::WrongType, "source")),
            Option::None => Result::Err(doc_fault(DocumentFault::MissingField, "source")),
        },
        Option::Some(_) => Result::Err(doc_fault(DocumentFault::WrongType, "id")),
        Option::None => Result::Err(doc_fault(DocumentFault::MissingField, "id")),
    }
}

/// Read the execution count once the cell's object has been scanned.
fn execution_count_from(
    slot: Option<JsonValue>,
    Ghost(e): Ghost<Seq<(String, JsonValue)>>,
) -> (r: Result<Option<u32>, NotebookError>)
    requires
        slot == get_field(e, "execution_count"@),
    ensures
        match r {
            Result::Ok(ec) => spec_parse_execution_count(e) == Result::Ok::<_, ErrorView>(ec),
            Result::Err(er) => spec_parse_execution_count(e) == Result::Err::<Option<u32>, _>(
                er@,
            ),
        },
{
    match slot {
        Option::None => Result::Ok(Option::None),
        Option::Some(JsonValue::Null) => Result::Ok(Option::None),
        Option::Some(JsonValue::Int(n)) => {
            if 0 <= n && n <= u32::MAX as i64 {
                Result::Ok(Option::Some(n as u32))
            } else {
                Result::Err(doc_fault(DocumentFault::WrongType, "execution_count"))
            }
        },
        Option::Some(_) => Result::Err(doc_fault(DocumentFault::WrongType, "execution_count")),
    }
}

/// Read one cell.
fn parse_cell(j: JsonValue) -> (r: Result<NotebookCell, NotebookError>)
    ensures
        match r {
            Result::Ok(c) => spec_parse_cell(j) == Result::Ok::<CellView, ErrorView>(c@),
            Result::Err(e) => spec_parse_cell(j) == Result::Err::<CellView, ErrorView>(e@),
        },
{
    match j {
        JsonValue::Entries(entries) => {
            let ghost orig = entries@;
            let key_cell_type: String = "cell_type".to_owned();
            let key_id: String = "id".to_owned();
            let key_source: String = "source".to_owned();
            let key_metadata: String = "metadata".to_owned();
            let key_execution_count: String = "execution_count".to_owned();
            let key_outputs: String = "outputs".to_owned();
            proof {
                reveal_strlit("cell_type");
                reveal_strlit("id");
                reveal_strlit("source");
                reveal_strlit("metadata");
                reveal_strlit("execution_count");
                reveal_strlit("outputs");
                assert("cell_type"@.len() == 9);
                assert("id"@.len() == 2);
                assert("source"@.len() == 6);
                assert("metadata"@.len() == 8);
                assert("execution_count"@.len() == 15);
                assert("outputs"@.len() == 7);
            }
            let mut s_cell_type: Option<JsonValue> = Option::None;
            let mut s_id: Option<JsonValue> = Option::None;
            let mut s_source: Option<JsonValue> = Option::None;
            let mut s_metadata: Option<JsonValue> = Option::None;
            let mut s_execution_count: Option<JsonValue> = Option::None;
            let mut s_outputs: Option<JsonValue> = Option::None;
            let mut rest = entries;
            let ghost mut i: int = 0;
            while rest.len() > 0
                invariant
                    0 <= i <= orig.len(),
                    rest@ == orig.skip(i),
                    key_cell_type@ == "cell_type"@,
                    key_id@ == "id"@,
                    key_source@ == "source"@,
                    key_metadata@ == "metadata"@,
                    key_execution_count@ == "execution_count"@,
                    key_outputs@ == "outputs"@,
                    "cell_type"@.len() == 9 && "id"@.len() == 2 && "source"@.len() == 6
                        && "metadata"@.len() == 8 && "execution_count"@.len() == 15
                        && "outputs"@.len() == 7,
                    field_scan(s_cell_type, orig, i, "cell_type"@),
                    field_scan(s_id, orig, i, "id"@),
                    field_scan(s_source, orig, i, "source"@),
                    field_scan(s_metadata, orig, i, "metadata"@),
                    field_scan(s_execution_count, orig, i, "execution_count"@),
                    field_scan(s_outputs, orig, i, "outputs"@),
                decreases rest.len(),
            {
                proof {
                    assert(orig.skip(i)[0] == orig[i]);
                    assert(orig.skip(i).remove(0) =~= orig.skip(i + 1));
                    reveal_strlit("cell_type");
                    reveal_strlit("id");
                    reveal_strlit("source");
                    reveal_strlit("metadata");
                    reveal_strlit("execution_count");
                    reveal_strlit("outputs");
                }
                let (k, v) = rest.remove(0);
                if k == key_cell_type {
                    if s_cell_type.is_none() {
                        proof {
                            lemma_find_entry_is(orig, "cell_type"@, i);
                        }
                        s_cell_type = Option::Some(v);
                    }
                } else if k == key_id {
                    if s_id.is_none() {
                        proof {
                            lemma_find_entry_is(orig, "id"@, i);
                        }
                        s_id = Option::Some(v);
                    }
                } else if k == key_source {
                    if s_source.is_none() {
                        proof {
                            lemma_find_entry_is(orig, "source"@, i);
                        }
                        s_source = Option::Some(v);
                    }
                } else if k == key_metadata {
                    if s_metadata.is_none() {
                        proof {
                            lemma_find_entry_is(orig, "metadata"@, i);
                        }
                        s_metadata = Option::Some(v);
                    }
                } else if k == key_execution_count {
                    if s_execution_count.is_none() {
                        proof {
                            lemma_find_entry_is(orig, "execution_count"@, i);
                        }
                        s_execution_count = Option::Some(v);
                    }
                } else if k == key_outputs {
                    if s_outputs.is_none() {
                        proof {
                            lemma_find_entry_is(orig, "outputs"@, i);
                        }
                        s_outputs = Option::Some(v);
                    }
                }
                proof {
                    i = i + 1;
                }
            }
            proof {
                assert(i == orig.len());
                lemma_field_scan_done(s_cell_type, orig, "cell_type"@);
                lemma_field_scan_done(s_id, orig, "id"@);
                lemma_field_scan_done(s_source, orig, "source"@);
                lemma_field_scan_done(s_metadata, orig, "metadata"@);
                lemma_field_scan_done(s_execution_count, orig, "execution_count"@);
                lemma_field_scan_done(s_outputs, orig, "outputs"@);
            }
            let key_code: String = "code".to_owned();
            let key_markdown: String = "markdown".to_owned();
            let key_raw: String = "raw".to_owned();
            let metadata_present = s_metadata.is_some();
            match s_cell_type {
                Option::Some(JsonValue::Text(t)) => {
                    if t == key_code {
                        match cell_common_from(s_id, s_source, metadata_present, Ghost(orig)) {
                            Result::Ok((id, ss)) => {
                                match execution_count_from(s_execution_count, Ghost(orig)) {
                                    Result::Ok(ec) => match s_outputs {
                                        Option::Some(JsonValue::Items(a)) => match parse_outputs(
                                            a,
                                        ) {
                                            Result::Ok(os) => Result::Ok(NotebookCell::Code {
                                                id,
                                                source: ss,
                                                execution_count: ec,
                                                outputs: os,
                                            }),
                                            Result::Err(e2) => Result::Err(e2),
                                        },
                                        Option::Some(_) => Result::Err(
                                            doc_fault(DocumentFault::WrongType, "outputs"),
                                        ),
                                        Option::None => Result::Err(
                                            doc_fault(DocumentFault::MissingField, "outputs"),
                                        ),
                                    },
                                    Result::Err(e2) => Result::Err(e2),
                                }
                            },
                            Result::Err(e2) => Result::Err(e2),
                        }
                    } else if t == key_markdown {
                        match cell_common_from(s_id, s_source, metadata_present, Ghost(orig)) {
                            Result::Ok((id, ss)) => Result::Ok(NotebookCell::Markdown {
                                id,
                                source: ss,
                            }),
                            Result::Err(e2) => Result::Err(e2),
                        }
                    } else if t == key_raw {
                        match cell_common_from(s_id, s_source, metadata_present, Ghost(orig)) {
                            Result::Ok((id, ss)) => Result::Ok(NotebookCell::Raw {
                                id,
                                source: ss,
                            }),
                            Result::Err(e2) => Result::Err(e2),
                        }
                    } else {
                        Result::Err(doc_fault(DocumentFault::UnknownTag, "cell_type"))
                    }
                },
                Option::Some(_) => Result::Err(doc_fault(DocumentFault::WrongType, "cell_type")),
                Option::None => Result::Err(doc_fault(DocumentFault::MissingField, "cell_type")),
            }
        },
        _ => Result::Err(doc_fault(DocumentFault::WrongType, "cells")),
    }
}

/// Read the cells of the document, in order.
fn parse_cells(a: Vec<JsonValue>) -> (r: Result<Vec<NotebookCell>, NotebookError>)
    ensures
        match r {
            Result::Ok(v) => spec_parse_cells(a@) == Result::Ok::<_, ErrorView>(
                v@.map_values(|c: NotebookCell| c@),
            ),
            Result::Err(e) => spec_parse_cells(a@) == Result::Err::<Seq<CellView>, _>(e@),
        },
{
    let ghost orig = a@;
    let mut rest = a;
    let mut out: Vec<NotebookCell> = Vec::new();
    let ghost mut i: int = 0;
    proof {
        assert(orig.take(0) =~= Seq::<JsonValue>::empty());
        assert(out@.map_values(|c: NotebookCell| c@) =~= Seq::<CellView>::empty());
    }
    while rest.len() > 0
        invariant
            orig == a@,
            0 <= i <= orig.len(),
            i == out@.len(),
            rest@ == orig.skip(i),
            spec_parse_cells(orig.take(i)) == Result::Ok::<_, ErrorView>(
                out@.map_values(|c: NotebookCell| c@),
            ),
        decreases rest.len(),
    {
        proof {
            assert(orig.skip(i)[0] == orig[i]);
            assert(orig.skip(i).remove(0) =~= orig.skip(i + 1));
            assert(orig.take(i + 1).drop_last() =~= orig.take(i));
            assert(orig.take(i + 1).last() == orig[i]);
        }
        let v = rest.remove(0);
        match parse_cell(v) {
            Result::Ok(c) => {
                let ghost prev = out@;
                out.push(c);
                proof {
                    assert(out@.map_values(|x: NotebookCell| x@) =~= prev.map_values(
                        |x: NotebookCell| x@,
                    ).push(c@));
                    i = i + 1;
                }
            },
            Result::Err(er) => {
                proof {
                    lemma_spec_parse_cells_err(orig, i + 1);
                }
                return Result::Err(er);
            },
        }
    }
    proof {
        assert(orig.take(i) =~= orig);
    }
    Result::Ok(out)
}

/// Read the kernelspec block.
fn parse_kernelspec(j: JsonValue) -> (r: Result<NotebookKernelSpec, NotebookError>)
    ensures
        match r {
            Result::Ok(k) => spec_parse_kernelspec(j) == Result::Ok::<_, ErrorView>(k),
            Result::Err(e) => spec_parse_kernelspec(j) == Result::Err::<NotebookKernelSpec, _>(
                e@,
            ),
        },
{
    match j {
        JsonValue::Entries(entries) => {
            let ghost orig = entries@;
            let key_display_name: String = "display_name".to_owned();
            let key_language: String = "language".to_owned();
            let key_name: String = "name".to_owned();
            proof {
                reveal_strlit("display_name");
                reveal_strlit("language");
                reveal_strlit("name");
                assert("display_name"@.len() == 12);
                assert("language"@.len() == 8);
                assert("name"@.len() == 4);
            }
            let mut s_display_name: Option<JsonValue> = Option::None;
            let mut s_language: Option<JsonValue> = Option::None;
            let mut s_name: Option<JsonValue> = Option::None;
            let mut rest = entries;
            let ghost mut i: int = 0;
            while rest.len() > 0
                invariant
                    0 <= i <= orig.len(),
                    rest@ == orig.skip(i),
                    key_display_name@ == "display_name"@,
                    key_language@ == "language"@,
                    key_name@ == "name"@,
                    "display_name"@.len() == 12 && "language"@.len() == 8
                        && "name"@.len() == 4,
                    field_scan(s_display_name, orig, i, "display_name"@),
                    field_scan(s_language, orig, i, "language"@),
                    field_scan(s_name, orig, i, "name"@),
                decreases rest.len(),
            {
                proof {
                    assert(orig.skip(i)[0] == orig[i]);
                    assert(orig.skip(i).remove(0) =~= orig.skip(i + 1));
                    reveal_strlit("display_name");
                    reveal_strlit("language");
                    reveal_strlit("name");
                }
                let (k, v) = rest.remove(0);
                if k == key_display_name {
                    if s_display_name.is_none() {
                        proof {
                            lemma_find_entry_is(orig, "display_name"@, i);
                        }
                        s_display_name = Option::Some(v);
                    }
                } else if k == key_language {
                    if s_language.is_none() {
                        proof {
                            lemma_find_entry_is(orig, "language"@, i);
                        }
                        s_language = Option::Some(v);
                    }
                } else if k == key_name {
                    if s_name.is_none() {
                        proof {
                            lemma_find_entry_is(orig, "name"@, i);
                        }
                        s_name = Option::Some(v);
                    }
                }
                proof {
                    i = i + 1;
                }
            }
            proof {
                assert(i == orig.len());
                lemma_field_scan_done(s_display_name, orig, "display_name"@);
                lemma_field_scan_done(s_language, orig, "language"@);
                lemma_field_scan_done(s_name, orig, "name"@);
            }
            match s_display_name {
                Option::Some(JsonValue::Text(dn)) => match s_language {
                    Option::Some(JsonValue::Text(lg)) => match s_name {
                        Option::Some(JsonValue::Text(nm)) => Result::Ok(NotebookKernelSpec {
                            display_name: dn,
                            language: lg,
                            name: nm,
                        }),
                        Option::Some(_) => Result::Err(doc_fault(DocumentFault::WrongType, "name")),
                        Option::None => Result::Err(
                            doc_fault(DocumentFault::MissingField, "name"),
                        ),
                    },
                    Option::Some(_) => Result::Err(doc_fault(DocumentFault::WrongType, "language")),
                    Option::None => Result::Err(doc_fault(DocumentFault::MissingField, "language")),
                },
                Option::Some(_) => Result::Err(doc_fault(DocumentFault::WrongType, "display_name")),
                Option::None => Result::Err(doc_fault(DocumentFault::MissingField, "display_name")),
            }
        },
        _ => Result::Err(doc_fault(DocumentFault::WrongType, "kernelspec")),
    }
}

/// Read the metadata block.
fn parse_metadata(j: JsonValue) -> (r: Result<NotebookMetadata, NotebookError>)
    ensures
        match r {
            Result::Ok(m) => spec_parse_metadata(j) == Result::Ok::<_, ErrorView>(m),
            Result::Err(e) => spec_parse_metadata(j) == Result::Err::<NotebookMetadata, _>(e@),
        },
{
    match j {
        JsonValue::Entries(entries) => {
            let ghost orig = entries@;
            let key_kernelspec: String = "kernelspec".to_owned();
            let key_language_info: String = "language_info".to_owned();
            proof {
                reveal_strlit("kernelspec");
                reveal_strlit("language_info");
                assert("kernelspec"@.len() == 10);
                assert("language_info"@.len() == 13);
            }
            let mut s_kernelspec: Option<JsonValue> = Option::None;
            let mut s_language_info: Option<JsonValue> = Option::None;
            let mut rest = entries;
            let ghost mut i: int = 0;
            while rest.len() > 0
                invariant
                    0 <= i <= orig.len(),
                    rest@ == orig.skip(i),
                    key_kernelspec@ == "kernelspec"@,
                    key_language_info@ == "language_info"@,
                    "kernelspec"@.len() == 10 && "language_info"@.len() == 13,
                    field_scan(s_kernelspec, orig, i, "kernelspec"@),
                    field_scan(s_language_info, orig, i, "language_info"@),
                decreases rest.len(),
            {
                proof {
                    assert(orig.skip(i)[0] == orig[i]);
                    assert(orig.skip(i).remove(0) =~= orig.skip(i + 1));
                    reveal_strlit("kernelspec");
                    reveal_strlit("language_info");
                }
                let (k, v) = rest.remove(0);
                if k == key_kernelspec {
                    if s_kernelspec.is_none() {
                        proof {
                            lemma_find_entry_is(orig, "kernelspec"@, i);
                        }
                        s_kernelspec = Option::Some(v);
                    }
                } else if k == key_language_info {
                    if s_language_info.is_none() {
                        proof {
                            lemma_find_entry_is(orig, "language_info"@, i);
                        }
                        s_language_info = Option::Some(v);
                    }
                }
                proof {
                    i = i + 1;
                }
            }
            proof {
                assert(i == orig.len());
                lemma_field_scan_done(s_kernelspec, orig, "kernelspec"@);
                lemma_field_scan_done(s_language_info, orig, "language_info"@);
            }
            let language_info_present = s_language_info.is_some();
            match s_kernelspec {
                Option::Some(ks) => match parse_kernelspec(ks) {
                    Result::Ok(k) => {
                        if language_info_present {
                            Result::Ok(NotebookMetadata { kernel_spec: k })
                        } else {
                            Result::Err(doc_fault(DocumentFault::MissingField, "language_info"))
                        }
                    },
                    Result::Err(e2) => Result::Err(e2),
                },
                Option::None => Result::Err(doc_fault(DocumentFault::MissingField, "kernelspec")),
            }
        },
        _ => Result::Err(doc_fault(DocumentFault::WrongType, "metadata")),
    }
}

/// Read one version component once the document object has been scanned.
fn version_part_from(
    slot: Option<JsonValue>,
    key: &str,
    Ghost(e): Ghost<Seq<(String, JsonValue)>>,
) -> (r: Result<u32, NotebookError>)
    requires
        slot == get_field(e, key@),
    ensures
        match r {
            Result::Ok(n) => spec_parse_version_part(e, key@) == Result::Ok::<_, ErrorView>(n),
            Result::Err(er) => spec_parse_version_part(e, key@) == Result::Err::<u32, _>(er@),
        },
{
    match slot {
        Option::Some(JsonValue::Int(n)) => {
            if 0 <= n && n <= u32::MAX as i64 {
                Result::Ok(n as u32)
            } else {
                Result::Err(doc_fault(DocumentFault::WrongType, key))
            }
        },
        Option::Some(_) => Result::Err(doc_fault(DocumentFault::WrongType, key)),
        Option::None => Result::Err(doc_fault(DocumentFault::MissingField, key)),
    }
}

impl Notebook {
    /// Read a whole document from the plain JSON tree. The result, or the
    /// fault, is exactly what `spec_parse_notebook` says of the tree.
    pub fn from_json(j: JsonValue) -> (r: Result<Notebook, NotebookError>)
        ensures
            match r {
                Result::Ok(nb) => spec_parse_notebook(j) == Result::Ok::<NotebookView, ErrorView>(
                    nb@,
                ),
                Result::Err(e) => spec_parse_notebook(j) == Result::Err::<NotebookView, ErrorView>(
                    e@,
                ),
            },
    {
        match j {
            JsonValue::Entries(entries) => {
                let ghost orig = entries@;
                let key_cells: String = "cells".to_owned();
                let key_metadata: String = "metadata".to_owned();
                let key_nbformat: String = "nbformat".to_owned();
                let key_nbformat_minor: String = "nbformat_minor".to_owned();
                proof {
                    reveal_strlit("cells");
                    reveal_strlit("metadata");
                    reveal_strlit("nbformat");
                    reveal_strlit("nbformat_minor");
                    assert("cells"@.len() == 5);
                    assert("metadata"@.len() == 8);
                    assert("nbformat"@.len() == 8);
                    assert("nbformat_minor"@.len() == 14);
                    assert("metadata"@[0] == 'm');
                    assert("nbformat"@[0] == 'n');
                }
                let mut s_cells: Option<JsonValue> = Option::None;
                let mut s_metadata: Option<JsonValue> = Option::None;
                let mut s_nbformat: Option<JsonValue> = Option::None;
                let mut s_nbformat_minor: Option<JsonValue> = Option::None;
                let mut rest = entries;
                let ghost mut i: int = 0;
                while rest.len() > 0
                    invariant
                        0 <= i <= orig.len(),
                        rest@ == orig.skip(i),
                        key_cells@ == "cells"@,
                        key_metadata@ == "metadata"@,
                        key_nbformat@ == "nbformat"@,
                        key_nbformat_minor@ == "nbformat_minor"@,
                        "cells"@.len() == 5 && "metadata"@.len() == 8 && "nbformat"@.len() == 8
                            && "nbformat_minor"@.len() == 14 && "metadata"@ != "nbformat"@,
                        field_scan(s_cells, orig, i, "cells"@),
                        field_scan(s_metadata, orig, i, "metadata"@),
                        field_scan(s_nbformat, orig, i, "nbformat"@),
                        field_scan(s_nbformat_minor, orig, i, "nbformat_minor"@),
                    decreases rest.len(),
                {
                    proof {
                        assert(orig.skip(i)[0] == orig[i]);
                        assert(orig.skip(i).remove(0) =~= orig.skip(i + 1));
                        reveal_strlit("cells");
                        reveal_strlit("metadata");
                        reveal_strlit("nbformat");
                        reveal_strlit("nbformat_minor");
                    }
                    let (k, v) = rest.remove(0);
                    if k == key_cells {
                        if s_cells.is_none() {
                            proof {
                                lemma_find_entry_is(orig, "cells"@, i);
                            }
                            s_cells = Option::Some(v);
                        }
                    } else if k == key_metadata {
                        if s_metadata.is_none() {
                            proof {
                                lemma_find_entry_is(orig, "metadata"@, i);
                            }
                            s_metadata = Option::Some(v);
                        }
                    } else if k == key_nbformat {
                        if s_nbformat.is_none() {
                            proof {
                                lemma_find_entry_is(orig, "nbformat"@, i);
                            }
                            s_nbformat = Option::Some(v);
                        }
                    } else if k == key_nbformat_minor {
                        if s_nbformat_minor.is_none() {
                            proof {
                                lemma_find_entry_is(orig, "nbformat_minor"@, i);
                            }
                            s_nbformat_minor = Option::Some(v);
                        }
                    }
                    proof {
                        i = i + 1;
                    }
                }
                proof {
                    assert(i == orig.len());
                    lemma_field_scan_done(s_cells, orig, "cells"@);
                    lemma_field_scan_done(s_metadata, orig, "metadata"@);
                    lemma_field_scan_done(s_nbformat, orig, "nbformat"@);
                    lemma_field_scan_done(s_nbformat_minor, orig, "nbformat_minor"@);
                }
                match s_cells {
                    Option::Some(JsonValue::Items(a)) => match parse_cells(a) {
                        Result::Ok(cs) => match s_metadata {
                            Option::Some(m) => match parse_metadata(m) {
                                Result::Ok(md) => match version_part_from(
                                    s_nbformat,
                                    "nbformat",
                                    Ghost(orig),
                                ) {
                                    Result::Ok(maj) => match version_part_from(
                                        s_nbformat_minor,
                                        "nbformat_minor",
                                        Ghost(orig),
                                    ) {
                                        Result::Ok(min) => Result::Ok(Notebook {
                                            cells: cs,
                                            metadata: md,
                                            version: NotebookVersion { major: maj, minor: min },
                                        }),
                                        Result::Err(e2) => Result::Err(e2),
                                    },
                                    Result::Err(e2) => Result::Err(e2),
                                },
                                Result::Err(e2) => Result::Err(e2),
                            },
                            Option::None => Result::Err(
                                doc_fault(DocumentFault::MissingField, "metadata"),
                            ),
                        },
                        Result::Err(e2) => Result::Err(e2),
                    },
                    Option::Some(_) => Result::Err(doc_fault(DocumentFault::WrongType, "cells")),
                    Option::None => Result::Err(doc_fault(DocumentFault::MissingField, "cells")),
                }
            },
            _ => Result::Err(doc_fault(DocumentFault::WrongType, "notebook")),
        }
    }

    /// Parse notebook JSON text end to end: JSON syntax by the outside
    /// parser, document structure by the verified reader. Text that is
    /// not JSON is one structural fault; otherwise the result, or the
    /// fault, is what `spec_parse_notebook` says of a tree picturing
    /// exactly what this text denotes.
    pub fn parse_text(text: &str) -> (r: Result<Notebook, NotebookError>)
        ensures
            match r {
                Result::Ok(nb) => json_of(text@) is Some && exists|j: JsonValue|
                    #[trigger] json_model(j) == json_of(text@)->Some_0 && spec_parse_notebook(j)
                        == Result::Ok::<NotebookView, ErrorView>(nb@),
                Result::Err(e) => (json_of(text@) is None && e@ == fault_at(
                    DocumentFault::WrongType,
                    "notebook"@,
                )) || (json_of(text@) is Some && exists|j: JsonValue|
                    #[trigger] json_model(j) == json_of(text@)->Some_0 && spec_parse_notebook(j)
                        == Result::Err::<NotebookView, ErrorView>(e@)),
            },
    {
        match crate::json::parse_json(text) {
            Option::Some(j) => {
                let ghost gj = j;
                let r = Self::from_json(j);
                proof {
                    assert(json_model(gj) == json_of(text@)->Some_0);
                }
                r
            },
            Option::None => Result::Err(
                doc_fault(DocumentFault::WrongType, "notebook"),
            ),
        }
    }
}

} // verus!
