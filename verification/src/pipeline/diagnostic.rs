//! Compiler diagnostics and their text rendering.

use vstd::prelude::*;

use crate::strings::{decimal, push_decimal, push_str};

verus! {

/// Severity level of a compiler diagnostic.
#[derive(Debug, Clone, Copy, PartialEq, Eq, Structural)]
pub enum DiagnosticLevel {
    Error,
    Warning,
    Note,
}

/// How a level is written.
pub open spec fn level_text(l: DiagnosticLevel) -> Seq<char> {
    match l {
        DiagnosticLevel::Error => "error"@,
        DiagnosticLevel::Warning => "warning"@,
        DiagnosticLevel::Note => "note"@,
    }
}

impl DiagnosticLevel {
    /// How the level is written (`error`, `warning`, `note`).
    pub fn as_str(&self) -> (r: &'static str)
        ensures
            r@ == level_text(*self),
    {
        match self {
            DiagnosticLevel::Error => "error",
            DiagnosticLevel::Warning => "warning",
            DiagnosticLevel::Note => "note",
        }
    }
}

/// A single diagnostic message.
#[derive(Debug, Clone)]
pub struct Diagnostic {
    pub level: DiagnosticLevel,
    pub message: String,
    pub stage: Option<String>,
    pub source_file: Option<String>,
    pub source_line: Option<u32>,
    pub source_column: Option<u32>,
    pub suggestion: Option<String>,
}

/// The stage part of a diagnostic's text: ` [<stage>]`, when known.
pub open spec fn stage_part(d: Diagnostic) -> Seq<char> {
    match d.stage {
        Some(s) => " ["@ + s@ + "]"@,
        None => Seq::empty(),
    }
}

/// The location part of a diagnostic's text: `\n --> <file>:<line>[:<column>]`,
/// present only when both file and line are known.
pub open spec fn location_part(d: Diagnostic) -> Seq<char> {
    match (d.source_file, d.source_line) {
        (Some(f), Some(l)) => "\n --> "@ + f@ + ":"@ + decimal(l as nat) + match d.source_column {
            Some(c) => ":"@ + decimal(c as nat),
            None => Seq::empty(),
        },
        _ => Seq::empty(),
    }
}

/// The help part of a diagnostic's text: `\n help: <suggestion>`, when known.
pub open spec fn help_part(d: Diagnostic) -> Seq<char> {
    match d.suggestion {
        Some(s) => "\n help: "@ + s@,
        None => Seq::empty(),
    }
}

/// The text of a diagnostic: `<level>: <message>` followed by its stage,
/// location and help parts.
pub open spec fn diagnostic_text(d: Diagnostic) -> Seq<char> {
    level_text(d.level) + ": "@ + d.message@ + stage_part(d) + location_part(d) + help_part(d)
}

/// A diagnostic of the given level with only a message.
pub open spec fn bare_diagnostic(d: Diagnostic, level: DiagnosticLevel, message: Seq<char>) -> bool {
    &&& d.level == level
    &&& d.message@ == message
    &&& d.stage.is_none()
    &&& d.source_file.is_none()
    &&& d.source_line.is_none()
    &&& d.source_column.is_none()
    &&& d.suggestion.is_none()
}

impl Diagnostic {
    fn with_level(level: DiagnosticLevel, message: &str) -> (r: Self)
        ensures
            bare_diagnostic(r, level, message@),
    {
        Diagnostic {
            level,
            message: String::from_str(message),
            stage: None,
            source_file: None,
            source_line: None,
            source_column: None,
            suggestion: None,
        }
    }

    pub fn error(message: &str) -> (r: Self)
        ensures
            bare_diagnostic(r, DiagnosticLevel::Error, message@),
    {
        Self::with_level(DiagnosticLevel::Error, message)
    }

    pub fn warning(message: &str) -> (r: Self)
        ensures
            bare_diagnostic(r, DiagnosticLevel::Warning, message@),
    {
        Self::with_level(DiagnosticLevel::Warning, message)
    }

    pub fn note(message: &str) -> (r: Self)
        ensures
            bare_diagnostic(r, DiagnosticLevel::Note, message@),
    {
        Self::with_level(DiagnosticLevel::Note, message)
    }

    /// The same diagnostic, attributed to pipeline stage `stage`.
    pub fn with_stage(self, stage: &str) -> (r: Self)
        ensures
            r.stage matches Some(s) && s@ == stage@,
            r.level == self.level,
            r.message == self.message,
            r.source_file == self.source_file,
            r.source_line == self.source_line,
            r.source_column == self.source_column,
            r.suggestion == self.suggestion,
    {
        let mut d = self;
        d.stage = Some(String::from_str(stage));
        d
    }

    /// The same diagnostic, located at `file`, `line` and, when given,
    /// `column`.
    pub fn with_source(self, file: &str, line: u32, column: Option<u32>) -> (r: Self)
        ensures
            r.source_file matches Some(f) && f@ == file@,
            r.source_line == Some(line),
            r.source_column == column,
            r.level == self.level,
            r.message == self.message,
            r.stage == self.stage,
            r.suggestion == self.suggestion,
    {
        let mut d = self;
        d.source_file = Some(String::from_str(file));
        d.source_line = Some(line);
        d.source_column = column;
        d
    }

    /// The same diagnostic, with a suggested fix.
    pub fn with_suggestion(self, suggestion: &str) -> (r: Self)
        ensures
            r.suggestion matches Some(s) && s@ == suggestion@,
            r.level == self.level,
            r.message == self.message,
            r.stage == self.stage,
            r.source_file == self.source_file,
            r.source_line == self.source_line,
            r.source_column == self.source_column,
    {
        let mut d = self;
        d.suggestion = Some(String::from_str(suggestion));
        d
    }

    fn write_stage(&self, out: &mut String)
        ensures
            final(out)@ == old(out)@ + stage_part(*self),
    {
        match &self.stage {
            Some(s) => {
                push_str(out, " [");
                push_str(out, s.as_str());
                push_str(out, "]");
                assert(out@ =~= old(out)@ + stage_part(*self));
            },
            None => {
                assert(out@ =~= old(out)@ + stage_part(*self));
            },
        }
    }

    fn write_location(&self, out: &mut String)
        ensures
            final(out)@ == old(out)@ + location_part(*self),
    {
        match (&self.source_file, self.source_line) {
            (Some(f), Some(l)) => {
                push_str(out, "\n --> ");
                push_str(out, f.as_str());
                push_str(out, ":");
                push_decimal(out, l as u64);
                let ghost mid = out@;
                match self.source_column {
                    Some(c) => {
                        push_str(out, ":");
                        push_decimal(out, c as u64);
                    },
                    None => {},
                }
                assert(out@ =~= old(out)@ + location_part(*self));
            },
            _ => {
                assert(out@ =~= old(out)@ + location_part(*self));
            },
        }
    }

    fn write_help(&self, out: &mut String)
        ensures
            final(out)@ == old(out)@ + help_part(*self),
    {
        match &self.suggestion {
            Some(s) => {
                push_str(out, "\n help: ");
                push_str(out, s.as_str());
                assert(out@ =~= old(out)@ + help_part(*self));
            },
            None => {
                assert(out@ =~= old(out)@ + help_part(*self));
            },
        }
    }

    /// Append the text of this diagnostic to `out`.
    pub fn write_to(&self, out: &mut String)
        ensures
            final(out)@ == old(out)@ + diagnostic_text(*self),
    {
        push_str(out, self.level.as_str());
        push_str(out, ": ");
        push_str(out, self.message.as_str());
        self.write_stage(out);
        self.write_location(out);
        self.write_help(out);
        assert(out@ =~= old(out)@ + diagnostic_text(*self));
    }

    /// The text of this diagnostic.
    pub fn to_string(&self) -> (r: String)
        ensures
            r@ == diagnostic_text(*self),
    {
        let mut s = String::new();
        self.write_to(&mut s);
        assert(s@ =~= diagnostic_text(*self));
        s
    }
}

/// Collects diagnostics and can render them as text.
#[derive(Debug, Clone)]
pub struct DiagnosticSink {
    pub diagnostics: Vec<Diagnostic>,
}

/// The texts of `ds`, one per line.
pub open spec fn joined_text(ds: Seq<Diagnostic>) -> Seq<char>
    decreases ds.len(),
{
    if ds.len() == 0 {
        Seq::empty()
    } else if ds.len() == 1 {
        diagnostic_text(ds[0])
    } else {
        joined_text(ds.drop_last()) + "\n"@ + diagnostic_text(ds.last())
    }
}

/// Some diagnostic among `ds` is an error.
pub open spec fn any_error(ds: Seq<Diagnostic>) -> bool {
    exists|i: int| 0 <= i < ds.len() && #[trigger] ds[i].level == DiagnosticLevel::Error
}

impl DiagnosticSink {
    pub fn new() -> (r: Self)
        ensures
            r.diagnostics@.len() == 0,
    {
        DiagnosticSink { diagnostics: Vec::new() }
    }

    pub fn push(&mut self, diag: Diagnostic)
        ensures
            final(self).diagnostics@ == old(self).diagnostics@.push(diag),
    {
        self.diagnostics.push(diag);
    }

    pub fn push_error(&mut self, message: &str)
        ensures
            final(self).diagnostics@.drop_last() == old(self).diagnostics@,
            final(self).diagnostics@.len() == old(self).diagnostics@.len() + 1,
            bare_diagnostic(final(self).diagnostics@.last(), DiagnosticLevel::Error, message@),
    {
        self.push(Diagnostic::error(message));
        assert(self.diagnostics@.drop_last() =~= old(self).diagnostics@);
    }

    pub fn push_warning(&mut self, message: &str)
        ensures
            final(self).diagnostics@.drop_last() == old(self).diagnostics@,
            final(self).diagnostics@.len() == old(self).diagnostics@.len() + 1,
            bare_diagnostic(final(self).diagnostics@.last(), DiagnosticLevel::Warning, message@),
    {
        self.push(Diagnostic::warning(message));
        assert(self.diagnostics@.drop_last() =~= old(self).diagnostics@);
    }

    pub fn push_note(&mut self, message: &str)
        ensures
            final(self).diagnostics@.drop_last() == old(self).diagnostics@,
            final(self).diagnostics@.len() == old(self).diagnostics@.len() + 1,
            bare_diagnostic(final(self).diagnostics@.last(), DiagnosticLevel::Note, message@),
    {
        self.push(Diagnostic::note(message));
        assert(self.diagnostics@.drop_last() =~= old(self).diagnostics@);
    }

    pub fn has_errors(&self) -> (r: bool)
        ensures
            r == any_error(self.diagnostics@),
    {
        let mut i: usize = 0;
        while i < self.diagnostics.len()
            invariant
                i <= self.diagnostics@.len(),
                forall|j: int| 0 <= j < i ==> self.diagnostics@[j].level != DiagnosticLevel::Error,
            decreases self.diagnostics.len() - i,
        {
            if self.diagnostics[i].level == DiagnosticLevel::Error {
                return true;
            }
            i = i + 1;
        }
        false
    }

    /// All diagnostics as text, one per line.
    pub fn to_text(&self) -> (r: String)
        ensures
            r@ == joined_text(self.diagnostics@),
    {
        let mut s = String::new();
        let mut i: usize = 0;
        while i < self.diagnostics.len()
            invariant
                i <= self.diagnostics@.len(),
                s@ == joined_text(self.diagnostics@.take(i as int)),
            decreases self.diagnostics.len() - i,
        {
            let ghost before = s@;
            if i > 0 {
                push_str(&mut s, "\n");
            }
            self.diagnostics[i].write_to(&mut s);
            proof {
                let t = self.diagnostics@.take(i + 1);
                assert(t.drop_last() =~= self.diagnostics@.take(i as int));
                if i > 0 {
                    assert(s@ =~= joined_text(t));
                } else {
                    assert(s@ =~= joined_text(t));
                }
            }
            i = i + 1;
        }
        assert(self.diagnostics@.take(self.diagnostics@.len() as int) =~= self.diagnostics@);
        s
    }

    /// `value` when no error was collected, else the collected diagnostics.
    pub fn into_result<T>(self, value: T) -> (r: Result<T, Vec<Diagnostic>>)
        ensures
            any_error(self.diagnostics@) ==> (r matches Err(ds) && ds@ == self.diagnostics@),
            !any_error(self.diagnostics@) ==> r == Ok::<T, Vec<Diagnostic>>(value),
    {
        if self.has_errors() {
            Err(self.diagnostics)
        } else {
            Ok(value)
        }
    }
}

} // verus!
