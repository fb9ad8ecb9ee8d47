//! The diagnostic data model: one compiler-reported event (error, warning,
//! note or help) with a headline message, an optional error code, source
//! spans, and child diagnostics. Values are immutable once constructed; the
//! rendering engine only projects them into output text.

use crate::errors::ModelError;
use vstd::prelude::*;

verus! {

/// Severity tag of a diagnostic; a purely categorical display prefix.
#[derive(Clone, Copy, Debug, PartialEq, Eq, Structural)]
pub enum ErrorLevel {
    /// An internal compiler error.
    Ice,
    Error,
    Warning,
    Note,
    Help,
}

/// One excerpted source line: its 1-based line number and its literal text.
/// The data source supplies the excerpts; the engine never re-reads files.
#[derive(Debug)]
pub struct SpanLine {
    pub line_number: usize,
    pub text: String,
}

/// Mathematical image of a [`SpanLine`].
pub struct SpanLineView {
    pub line_number: nat,
    pub text: Seq<char>,
}

impl View for SpanLine {
    type V = SpanLineView;

    open spec fn view(&self) -> SpanLineView {
        SpanLineView { line_number: self.line_number as nat, text: self.text@ }
    }
}

/// A located, optionally highlighted excerpt of source text within a
/// diagnostic. Line and column numbers are 1-based; the column bounds are
/// end-exclusive and relative to the first line of the span only.
#[derive(Debug)]
pub struct Span {
    pub file_name: String,
    pub line_start: usize,
    pub line_end: usize,
    pub column_start: usize,
    pub column_end: usize,
    pub text: Vec<SpanLine>,
    pub is_primary: bool,
    pub label: Option<String>,
}

/// Mathematical image of a [`Span`].
pub struct SpanView {
    pub file_name: Seq<char>,
    pub line_start: nat,
    pub line_end: nat,
    pub column_start: nat,
    pub column_end: nat,
    pub text: Seq<SpanLineView>,
    pub is_primary: bool,
    pub label: Option<Seq<char>>,
}

/// The view of an optional piece of text.
pub open spec fn opt_str_view(o: Option<String>) -> Option<Seq<char>> {
    match o {
        Option::Some(s) => Option::Some(s@),
        Option::None => Option::None,
    }
}

impl View for Span {
    type V = SpanView;

    open spec fn view(&self) -> SpanView {
        SpanView {
            file_name: self.file_name@,
            line_start: self.line_start as nat,
            line_end: self.line_end as nat,
            column_start: self.column_start as nat,
            column_end: self.column_end as nat,
            text: self.text@.map_values(|l: SpanLine| l@),
            is_primary: self.is_primary,
            label: opt_str_view(self.label),
        }
    }
}

impl SpanView {
    /// Structural invariants of a span: 1-based, ordered line and column
    /// bounds, and excerpt lines numbered consecutively from `line_start`.
    pub open spec fn wf(self) -> bool {
        &&& 1 <= self.line_start <= self.line_end
        &&& 1 <= self.column_start <= self.column_end
        &&& forall|i: int|
            0 <= i < self.text.len() ==> (#[trigger] self.text[i].line_number) == self.line_start
                + i
    }

    /// The excerpt holds exactly one line per source line in
    /// `line_start..=line_end`. A mismatch is an input-contract violation
    /// that the renderer reports rather than mis-renders.
    pub open spec fn text_len_ok(self) -> bool {
        self.text.len() == self.line_end - self.line_start + 1
    }
}

impl Span {
    /// Decides the structural invariants of this span.
    pub fn check_wf(&self) -> (b: bool)
        ensures
            b == self@.wf(),
    {
        if !(1 <= self.line_start && self.line_start <= self.line_end) {
            return false;
        }
        if !(1 <= self.column_start && self.column_start <= self.column_end) {
            return false;
        }
        let mut i: usize = 0;
        while i < self.text.len()
            invariant
                i <= self@.text.len(),
                self@.text.len() == self.text@.len(),
                forall|k: int|
                    0 <= k < i ==> (#[trigger] self@.text[k].line_number) == self@.line_start + k,
            decreases self.text@.len() - i,
        {
            let ln = self.text[i].line_number;
            if !(ln >= self.line_start && ln - self.line_start == i) {
                proof {
                    assert(self@.text[i as int].line_number != self@.line_start + i);
                }
                return false;
            }
            i = i + 1;
        }
        true
    }
}

/// A child diagnostic: a note or help nested under a rendered diagnostic,
/// carrying no rendering metadata beyond level, message and spans.
#[derive(Debug)]
pub struct ChildDiagnostic {
    pub level: ErrorLevel,
    pub message: String,
    pub spans: Vec<Span>,
}

/// Mathematical image of a [`ChildDiagnostic`].
pub struct ChildDiagnosticView {
    pub level: ErrorLevel,
    pub message: Seq<char>,
    pub spans: Seq<SpanView>,
}

impl View for ChildDiagnostic {
    type V = ChildDiagnosticView;

    open spec fn view(&self) -> ChildDiagnosticView {
        ChildDiagnosticView {
            level: self.level,
            message: self.message@,
            spans: self.spans@.map_values(|s: Span| s@),
        }
    }
}

/// One compiler-reported diagnostic: level, optional error code, headline
/// message, spans, and child diagnostics, all in input order.
#[derive(Debug)]
pub struct Diagnostic {
    pub level: ErrorLevel,
    pub code: Option<String>,
    pub message: String,
    pub spans: Vec<Span>,
    pub children: Vec<ChildDiagnostic>,
}

/// Mathematical image of a [`Diagnostic`].
pub struct DiagnosticView {
    pub level: ErrorLevel,
    pub code: Option<Seq<char>>,
    pub message: Seq<char>,
    pub spans: Seq<SpanView>,
    pub children: Seq<ChildDiagnosticView>,
}

impl View for Diagnostic {
    type V = DiagnosticView;

    open spec fn view(&self) -> DiagnosticView {
        DiagnosticView {
            level: self.level,
            code: opt_str_view(self.code),
            message: self.message@,
            spans: self.spans@.map_values(|s: Span| s@),
            children: self.children@.map_values(|c: ChildDiagnostic| c@),
        }
    }
}

impl DiagnosticView {
    /// Structural invariants of a diagnostic: every span is well-formed and
    /// a present error code is non-empty.
    pub open spec fn wf(self) -> bool {
        &&& forall|i: int| 0 <= i < self.spans.len() ==> (#[trigger] self.spans[i]).wf()
        &&& match self.code {
            Option::Some(c) => c.len() > 0,
            Option::None => true,
        }
    }
}

impl Diagnostic {
    /// Builds a diagnostic. A `code` that is present but empty is rejected
    /// here, at construction time; absence of a code means "no code" and is
    /// not an error.
    pub fn new(
        level: ErrorLevel,
        code: Option<String>,
        message: String,
        spans: Vec<Span>,
        children: Vec<ChildDiagnostic>,
    ) -> (r: Result<Diagnostic, ModelError>)
        ensures
            (r is Ok) == (match code {
                Option::Some(c) => c@.len() > 0,
                Option::None => true,
            }),
            r matches Ok(d) ==> {
                &&& d.level == level
                &&& d@.code == opt_str_view(code)
                &&& d@.message == message@
                &&& d@.spans == spans@.map_values(|s: Span| s@)
                &&& d@.children == children@.map_values(|c: ChildDiagnostic| c@)
            },
            r is Err ==> r == Err::<Diagnostic, ModelError>(ModelError::EmptyCode),
    {
        if let Some(c) = &code {
            if c.as_str().is_empty() {
                return Err(ModelError::EmptyCode);
            }
        }
        Ok(Diagnostic { level, code, message, spans, children })
    }

    /// Decides the structural invariants of this diagnostic.
    pub fn check_wf(&self) -> (b: bool)
        ensures
            b == self@.wf(),
    {
        if let Some(c) = &self.code {
            if c.as_str().is_empty() {
                return false;
            }
        }
        let mut i: usize = 0;
        while i < self.spans.len()
            invariant
                i <= self@.spans.len(),
                self@.spans.len() == self.spans@.len(),
                forall|k: int| 0 <= k < i ==> (#[trigger] self@.spans[k]).wf(),
            decreases self.spans@.len() - i,
        {
            proof {
                assert(self@.spans[i as int] == self.spans@[i as int]@);
            }
            if !self.spans[i].check_wf() {
                return false;
            }
            i = i + 1;
        }
        true
    }
}

} // verus!
