//! The kernel specification a notebook names: an outside collaborator
//! consulted only for the header line. Reading its file from disk is the
//! caller's business; the typed record and its defaults live here.

use vstd::prelude::*;
use crate::json::{JsonValue, get_field, lemma_find_entry_is, field_scan, lemma_field_scan_done, json_of, json_model};
use crate::notebook::{DocumentFault, ErrorView, NotebookError, str_list_view, fault_at};

verus! {

/// How a kernel asks to be interrupted; `Signal` where the file says
/// nothing.
#[derive(Debug, PartialEq, Eq, Clone, Copy)]
pub enum InterruptMode {
    Signal,
    Message,
}

impl Default for InterruptMode {
    fn default() -> (r: Self)
        ensures
            r == InterruptMode::Signal,
    {
        InterruptMode::Signal
    }
}

/// One installed kernel, as its specification file describes it.
#[derive(Debug, PartialEq)]
pub struct KernelSpec {
    pub argv: Vec<String>,
    pub display_name: String,
    pub language: String,
    pub interrupt_mode: InterruptMode,
    pub env: Vec<(String, String)>,
}

/// The view of a kernel specification, its lists as sequences.
pub struct KernelSpecView {
    pub argv: Seq<String>,
    pub display_name: String,
    pub language: String,
    pub interrupt_mode: InterruptMode,
    pub env: Seq<(String, String)>,
}

impl View for KernelSpec {
    type V = KernelSpecView;

    open spec fn view(&self) -> KernelSpecView {
        KernelSpecView {
            argv: self.argv@,
            display_name: self.display_name,
            language: self.language,
            interrupt_mode: self.interrupt_mode,
            env: self.env@,
        }
    }
}

/// The string pairs of an object whose values are all text.
pub open spec fn str_entries_view(m: Seq<(String, JsonValue)>) -> Option<Seq<(String, String)>> {
    if forall|i: int| 0 <= i < m.len() ==> m[i].1 is Text {
        Option::Some(Seq::new(m.len(), |i: int| (m[i].0, m[i].1->Text_0)))
    } else {
        Option::None
    }
}

/// The interrupt mode a kernel file declares; silence means `Signal`.
pub open spec fn spec_parse_interrupt(e: Seq<(String, JsonValue)>) -> Result<
    InterruptMode,
    ErrorView,
> {
    match get_field(e, "interrupt_mode"@) {
        Option::None => Result::Ok(InterruptMode::Signal),
        Option::Some(JsonValue::Text(t)) => {
            if t@ == "signal"@ {
                Result::Ok(InterruptMode::Signal)
            } else if t@ == "message"@ {
                Result::Ok(InterruptMode::Message)
            } else {
                Result::Err(fault_at(DocumentFault::UnknownTag, "interrupt_mode"@))
            }
        },
        Option::Some(_) => Result::Err(fault_at(DocumentFault::WrongType, "interrupt_mode"@)),
    }
}

/// The environment a kernel file declares; silence means none.
pub open spec fn spec_parse_env(e: Seq<(String, JsonValue)>) -> Result<
    Seq<(String, String)>,
    ErrorView,
> {
    match get_field(e, "env"@) {
        Option::None => Result::Ok(Seq::empty()),
        Option::Some(JsonValue::Entries(m)) => match str_entries_view(m@) {
            Option::Some(p) => Result::Ok(p),
            Option::None => Result::Err(fault_at(DocumentFault::WrongType, "env"@)),
        },
        Option::Some(_) => Result::Err(fault_at(DocumentFault::WrongType, "env"@)),
    }
}

/// What a kernel specification file must look like.
pub open spec fn spec_parse_kernel_spec(j: JsonValue) -> Result<KernelSpecView, ErrorView> {
    match j {
        JsonValue::Entries(e) => match get_field(e@, "argv"@) {
            Option::Some(JsonValue::Items(a)) => match str_list_view(a@) {
                Option::Some(argv) => match get_field(e@, "display_name"@) {
                    Option::Some(JsonValue::Text(dn)) => match get_field(e@, "language"@) {
                        Option::Some(JsonValue::Text(lg)) => match spec_parse_interrupt(e@) {
                            Result::Ok(im) => match spec_parse_env(e@) {
                                Result::Ok(env) => Result::Ok(KernelSpecView {
                                    argv,
                                    display_name: dn,
                                    language: lg,
                                    interrupt_mode: im,
                                    env,
                                }),
                                Result::Err(e2) => Result::Err(e2),
                            },
                            Result::Err(e2) => Result::Err(e2),
                        },
                        Option::Some(_) => Result::Err(
                            fault_at(DocumentFault::WrongType, "language"@),
                        ),
                        Option::None => Result::Err(
                            fault_at(DocumentFault::MissingField, "language"@),
                        ),
                    },
                    Option::Some(_) => Result::Err(
                        fault_at(DocumentFault::WrongType, "display_name"@),
                    ),
                    Option::None => Result::Err(
                        fault_at(DocumentFault::MissingField, "display_name"@),
                    ),
                },
                Option::None => Result::Err(fault_at(DocumentFault::WrongType, "argv"@)),
            },
            Option::Some(_) => Result::Err(fault_at(DocumentFault::WrongType, "argv"@)),
            Option::None => Result::Err(fault_at(DocumentFault::MissingField, "argv"@)),
        },
        _ => Result::Err(fault_at(DocumentFault::WrongType, "kernel"@)),
    }
}

/// Read the string pairs of an environment object.
fn parse_env_entries(m: Vec<(String, JsonValue)>) -> (r: Option<Vec<(String, String)>>)
    ensures
        match r {
            Option::Some(v) => str_entries_view(m@) == Option::Some(v@),
            Option::None => str_entries_view(m@) is None,
        },
{
    let ghost orig = m@;
    let mut rest = m;
    let mut out: Vec<(String, String)> = Vec::new();
    let ghost mut i: int = 0;
    while rest.len() > 0
        invariant
            orig == m@,
            0 <= i <= orig.len(),
            i == out@.len(),
            rest@ == orig.skip(i),
            forall|q: int| 0 <= q < i ==> orig[q].1 is Text,
            forall|q: int| 0 <= q < i ==> out@[q] == (orig[q].0, orig[q].1->Text_0),
        decreases rest.len(),
    {
        proof {
            assert(orig.skip(i)[0] == orig[i]);
            assert(orig.skip(i).remove(0) =~= orig.skip(i + 1));
        }
        let (k, v) = rest.remove(0);
        match v {
            JsonValue::Text(t) => {
                out.push((k, t));
                proof {
                    i = i + 1;
                }
            },
            _ => {
                proof {
                    assert(!(orig[i].1 is Text));
                }
                return Option::None;
            },
        }
    }
    proof {
        assert(out@ =~= Seq::new(orig.len(), |q: int| (orig[q].0, orig[q].1->Text_0)));
    }
    Option::Some(out)
}

impl KernelSpec {
    /// The name under which the kernel presents itself.
    pub fn display_text(&self) -> (r: String)
        ensures
            r@ == self.display_name@,
    {
        self.display_name.clone()
    }

    /// Read a kernel specification from the plain JSON tree. The result,
    /// or the fault, is exactly what `spec_parse_kernel_spec` says.
    pub fn from_json(j: JsonValue) -> (r: Result<KernelSpec, NotebookError>)
        ensures
            match r {
                Result::Ok(k) => spec_parse_kernel_spec(j) == Result::Ok::<
                    KernelSpecView,
                    ErrorView,
                >(k@),
                Result::Err(e) => spec_parse_kernel_spec(j) == Result::Err::<
                    KernelSpecView,
                    ErrorView,
                >(e@),
            },
    {
        match j {
            JsonValue::Entries(entries) => {
                let ghost orig = entries@;
                let key_argv: String = "argv".to_owned();
                let key_display_name: String = "display_name".to_owned();
                let key_language: String = "language".to_owned();
                let key_interrupt_mode: String = "interrupt_mode".to_owned();
                let key_env: String = "env".to_owned();
                proof {
                    reveal_strlit("argv");
                    reveal_strlit("display_name");
                    reveal_strlit("language");
                    reveal_strlit("interrupt_mode");
                    reveal_strlit("env");
                    assert("argv"@.len() == 4);
                    assert("display_name"@.len() == 12);
                    assert("language"@.len() == 8);
                    assert("interrupt_mode"@.len() == 14);
                    assert("env"@.len() == 3);
                }
                let mut s_argv: Option<JsonValue> = Option::None;
                let mut s_display_name: Option<JsonValue> = Option::None;
                let mut s_language: Option<JsonValue> = Option::None;
                let mut s_interrupt_mode: Option<JsonValue> = Option::None;
                let mut s_env: Option<JsonValue> = Option::None;
                let mut rest = entries;
                let ghost mut i: int = 0;
                while rest.len() > 0
                    invariant
                        0 <= i <= orig.len(),
                        rest@ == orig.skip(i),
                        key_argv@ == "argv"@,
                        key_display_name@ == "display_name"@,
                        key_language@ == "language"@,
                        key_interrupt_mode@ == "interrupt_mode"@,
                        key_env@ == "env"@,
                        "argv"@.len() == 4 && "display_name"@.len() == 12 && "language"@.len()
                            == 8 && "interrupt_mode"@.len() == 14 && "env"@.len() == 3,
                        field_scan(s_argv, orig, i, "argv"@),
                        field_scan(s_display_name, orig, i, "display_name"@),
                        field_scan(s_language, orig, i, "language"@),
                        field_scan(s_interrupt_mode, orig, i, "interrupt_mode"@),
                        field_scan(s_env, orig, i, "env"@),
                    decreases rest.len(),
                {
                    proof {
                        assert(orig.skip(i)[0] == orig[i]);
                        assert(orig.skip(i).remove(0) =~= orig.skip(i + 1));
                    }
                    let (k, v) = rest.remove(0);
                    if k == key_argv {
                        if s_argv.is_none() {
                            proof {
                                lemma_find_entry_is(orig, "argv"@, i);
                            }
                            s_argv = Option::Some(v);
                        }
                    } else if k == key_display_name {
                        if s_display_name.is_none() {
                            proof {
                                lemma_find_entry_is(orig, "display_name"@, i);
                            }
                            s_display_name = Option::Some(v);
                        }
                    } else if k == key_language {
                        if s_language.is_none() {
                            proof {
                                lemma_find_entry_is(orig, "language"@, i);
                            }
                            s_language = Option::Some(v);
                        }
                    } else if k == key_interrupt_mode {
                        if s_interrupt_mode.is_none() {
                            proof {
                                lemma_find_entry_is(orig, "interrupt_mode"@, i);
                            }
                            s_interrupt_mode = Option::Some(v);
                        }
                    } else if k == key_env {
                        if s_env.is_none() {
                            proof {
                                lemma_find_entry_is(orig, "env"@, i);
                            }
                            s_env = Option::Some(v);
                        }
                    }
                    proof {
                        i = i + 1;
                    }
                }
                proof {
                    assert(i == orig.len());
                    lemma_field_scan_done(s_argv, orig, "argv"@);
                    lemma_field_scan_done(s_display_name, orig, "display_name"@);
                    lemma_field_scan_done(s_language, orig, "language"@);
                    lemma_field_scan_done(s_interrupt_mode, orig, "interrupt_mode"@);
                    lemma_field_scan_done(s_env, orig, "env"@);
                }
                let key_signal: String = "signal".to_owned();
                let key_message: String = "message".to_owned();
                match s_argv {
                    Option::Some(JsonValue::Items(a)) => match crate::notebook::parse_text_list(
                        a,
                    ) {
                        Option::Some(argv) => match s_display_name {
                            Option::Some(JsonValue::Text(dn)) => match s_language {
                                Option::Some(JsonValue::Text(lg)) => {
                                    let interrupt_mode = match s_interrupt_mode {
                                        Option::None => InterruptMode::Signal,
                                        Option::Some(JsonValue::Text(t)) => {
                                            if t == key_signal {
                                                InterruptMode::Signal
                                            } else if t == key_message {
                                                InterruptMode::Message
                                            } else {
                                                return Result::Err(
                                                    NotebookError::MalformedDocument {
                                                        fault: DocumentFault::UnknownTag,
                                                        field: "interrupt_mode".to_owned(),
                                                    },
                                                );
                                            }
                                        },
                                        Option::Some(_) => {
                                            return Result::Err(
                                                NotebookError::MalformedDocument {
                                                    fault: DocumentFault::WrongType,
                                                    field: "interrupt_mode".to_owned(),
                                                },
                                            );
                                        },
                                    };
                                    let env = match s_env {
                                        Option::None => Vec::new(),
                                        Option::Some(JsonValue::Entries(m)) => match parse_env_entries(
                                            m,
                                        ) {
                                            Option::Some(p) => p,
                                            Option::None => {
                                                return Result::Err(
                                                    NotebookError::MalformedDocument {
                                                        fault: DocumentFault::WrongType,
                                                        field: "env".to_owned(),
                                                    },
                                                );
                                            },
                                        },
                                        Option::Some(_) => {
                                            return Result::Err(
                                                NotebookError::MalformedDocument {
                                                    fault: DocumentFault::WrongType,
                                                    field: "env".to_owned(),
                                                },
                                            );
                                        },
                                    };
                                    Result::Ok(
                                        KernelSpec {
                                            argv,
                                            display_name: dn,
                                            language: lg,
                                            interrupt_mode,
                                            env,
                                        },
                                    )
                                },
                                Option::Some(_) => Result::Err(
                                    NotebookError::MalformedDocument {
                                        fault: DocumentFault::WrongType,
                                        field: "language".to_owned(),
                                    },
                                ),
                                Option::None => Result::Err(
                                    NotebookError::MalformedDocument {
                                        fault: DocumentFault::MissingField,
                                        field: "language".to_owned(),
                                    },
                                ),
                            },
                            Option::Some(_) => Result::Err(
                                NotebookError::MalformedDocument {
                                    fault: DocumentFault::WrongType,
                                    field: "display_name".to_owned(),
                                },
                            ),
                            Option::None => Result::Err(
                                NotebookError::MalformedDocument {
                                    fault: DocumentFault::MissingField,
                                    field: "display_name".to_owned(),
                                },
                            ),
                        },
                        Option::None => Result::Err(
                            NotebookError::MalformedDocument {
                                fault: DocumentFault::WrongType,
                                field: "argv".to_owned(),
                            },
                        ),
                    },
                    Option::Some(_) => Result::Err(
                        NotebookError::MalformedDocument {
                            fault: DocumentFault::WrongType,
                            field: "argv".to_owned(),
                        },
                    ),
                    Option::None => Result::Err(
                        NotebookError::MalformedDocument {
                            fault: DocumentFault::MissingField,
                            field: "argv".to_owned(),
                        },
                    ),
                }
            },
            _ => Result::Err(
                NotebookError::MalformedDocument {
                    fault: DocumentFault::WrongType,
                    field: "kernel".to_owned(),
                },
            ),
        }
    }

    /// Read a kernel specification from its file's text. Text that is
    /// not JSON is one structural fault; otherwise the result, or the
    /// fault, is what `spec_parse_kernel_spec` says of a tree picturing
    /// exactly what this text denotes.
    pub fn parse_text(text: &str) -> (r: Result<KernelSpec, NotebookError>)
        ensures
            match r {
                Result::Ok(spec) => json_of(text@) is Some && exists|j: JsonValue|
                    #[trigger] json_model(j) == json_of(text@)->Some_0 && spec_parse_kernel_spec(j)
                        == Result::Ok::<KernelSpecView, ErrorView>(spec@),
                Result::Err(e) => (json_of(text@) is None && e@ == fault_at(
                    DocumentFault::WrongType,
                    "kernel"@,
                )) || (json_of(text@) is Some && exists|j: JsonValue|
                    #[trigger] json_model(j) == json_of(text@)->Some_0 && spec_parse_kernel_spec(j)
                        == Result::Err::<KernelSpecView, ErrorView>(e@)),
            },
    {
        match crate::json::parse_json(text) {
            Option::Some(j) => {
                let ghost gj = j;
                let r = Self::from_json(j);
                proof {
                    assert(json_model(gj) == json_of(text@)->Some_0);
                }
                r
            },
            Option::None => Result::Err(
                NotebookError::MalformedDocument {
                    fault: DocumentFault::WrongType,
                    field: "kernel".to_owned(),
                },
            ),
        }
    }
}

} // verus!
