//! Diagnostics: severity, stable code, message, optional location and
//! optional suggestion.
use vstd::prelude::*;

verus! {

/// How serious a diagnostic is.
#[derive(Debug, Clone, Copy, PartialEq, Eq, Structural)]
pub enum Severity {
    Error,
    Warning,
}

/// Where in a source file a diagnostic points.
#[derive(Debug, Clone, PartialEq, Eq)]
pub struct SourceLocation {
    pub path: Option<String>,
    pub line: usize,
    pub column: usize,
}

/// The content of a source location.
pub struct LocationModel {
    pub path: Option<Seq<char>>,
    pub line: nat,
    pub column: nat,
}

/// The content of an optional string.
pub open spec fn opt_str(s: Option<String>) -> Option<Seq<char>> {
    match s {
        Some(t) => Some(t@),
        None => None,
    }
}

impl View for SourceLocation {
    type V = LocationModel;

    open spec fn view(&self) -> LocationModel {
        LocationModel { path: opt_str(self.path), line: self.line as nat, column: self.column as nat }
    }
}

/// A single finding about a specification.
#[derive(Debug, Clone, PartialEq, Eq)]
pub struct Diagnostic {
    pub severity: Severity,
    pub code: String,
    pub message: String,
    pub location: Option<SourceLocation>,
    pub suggestion: Option<String>,
}

/// The content of a diagnostic.
pub struct DiagnosticModel {
    pub severity: Severity,
    pub code: Seq<char>,
    pub message: Seq<char>,
    pub location: Option<LocationModel>,
    pub suggestion: Option<Seq<char>>,
}

/// The content of an optional location.
pub open spec fn opt_location(l: Option<SourceLocation>) -> Option<LocationModel> {
    match l {
        Some(x) => Some(x@),
        None => None,
    }
}

impl View for Diagnostic {
    type V = DiagnosticModel;

    open spec fn view(&self) -> DiagnosticModel {
        DiagnosticModel {
            severity: self.severity,
            code: self.code@,
            message: self.message@,
            location: opt_location(self.location),
            suggestion: opt_str(self.suggestion),
        }
    }
}

/// An error without location or suggestion.
pub open spec fn plain_error(code: Seq<char>, message: Seq<char>) -> DiagnosticModel {
    DiagnosticModel {
        severity: Severity::Error,
        code,
        message,
        location: None,
        suggestion: None,
    }
}

/// A warning with an optional suggestion and no location.
pub open spec fn plain_warning(
    code: Seq<char>,
    message: Seq<char>,
    suggestion: Option<Seq<char>>,
) -> DiagnosticModel {
    DiagnosticModel { severity: Severity::Warning, code, message, location: None, suggestion }
}

/// The contents of a list of diagnostics.
pub open spec fn diag_models(s: Seq<Diagnostic>) -> Seq<DiagnosticModel> {
    s.map_values(|d: Diagnostic| d@)
}

/// The location that a parse error carries: one only when both the line and
/// the column are known.
pub open spec fn parse_error_location(
    path: Option<Seq<char>>,
    line: Option<usize>,
    column: Option<usize>,
) -> Option<LocationModel> {
    match (line, column) {
        (Some(l), Some(c)) => Some(LocationModel { path, line: l as nat, column: c as nat }),
        _ => None,
    }
}

/// The diagnostic that `Diagnostic::parse_error` builds.
pub open spec fn parse_error_model(
    code: Seq<char>,
    path: Option<Seq<char>>,
    message: Seq<char>,
    line: Option<usize>,
    column: Option<usize>,
    suggestion: Option<Seq<char>>,
) -> DiagnosticModel {
    DiagnosticModel {
        severity: Severity::Error,
        code,
        message,
        location: parse_error_location(path, line, column),
        suggestion,
    }
}

impl Diagnostic {
    /// A diagnostic with the given parts.
    pub fn new(
        severity: Severity,
        code: &str,
        message: String,
        location: Option<SourceLocation>,
        suggestion: Option<String>,
    ) -> (r: Self)
        ensures
            r.severity == severity,
            r.code@ == code@,
            r.message == message,
            r.location == location,
            r.suggestion == suggestion,
    {
        Diagnostic { severity, code: code.to_owned(), message, location, suggestion }
    }

    /// An error found while reading or parsing a file; it carries a location
    /// only when both `line` and `column` are known.
    pub fn parse_error(
        code: &str,
        path: Option<&str>,
        message: String,
        line: Option<usize>,
        column: Option<usize>,
        suggestion: Option<String>,
    ) -> (r: Self)
        ensures
            r@ == parse_error_model(
                code@,
                match path {
                    Some(p) => Some(p@),
                    None => None,
                },
                message@,
                line,
                column,
                opt_str(suggestion),
            ),
    {
        let location = match (line, column) {
            (Some(line), Some(column)) => Some(
                SourceLocation {
                    path: match path {
                        Some(p) => Some(p.to_owned()),
                        None => None,
                    },
                    line,
                    column,
                },
            ),
            _ => None,
        };
        Self::new(Severity::Error, code, message, location, suggestion)
    }

    /// An error with only a code and a message.
    pub fn error(code: &str, message: String) -> (r: Self)
        ensures
            r@ == plain_error(code@, message@),
    {
        Self::new(Severity::Error, code, message, None, None)
    }

    /// A warning with a code, a message and an optional suggestion.
    pub fn warning(code: &str, message: String, suggestion: Option<String>) -> (r: Self)
        ensures
            r@ == plain_warning(code@, message@, opt_str(suggestion)),
    {
        Self::new(Severity::Warning, code, message, None, suggestion)
    }
}

/// An ordered collection of diagnostics.
#[derive(Debug, Clone, PartialEq, Eq, Default)]
pub struct DiagnosticSet {
    diagnostics: Vec<Diagnostic>,
}

impl View for DiagnosticSet {
    type V = Seq<DiagnosticModel>;

    open spec fn view(&self) -> Seq<DiagnosticModel> {
        diag_models(self.items())
    }
}

impl DiagnosticSet {
    /// The diagnostics of the set, in order.
    pub closed spec fn items(&self) -> Seq<Diagnostic> {
        self.diagnostics@
    }

    /// A set holding the given diagnostics, in order.
    pub fn new(diagnostics: Vec<Diagnostic>) -> (r: Self)
        ensures
            r@ == diag_models(diagnostics@),
    {
        DiagnosticSet { diagnostics }
    }

    /// A set holding one diagnostic.
    pub fn singleton(diagnostic: Diagnostic) -> (r: Self)
        ensures
            r@ == seq![diagnostic@],
    {
        let v = vec![diagnostic];
        assert(diag_models(v@) =~= seq![diagnostic@]);
        DiagnosticSet { diagnostics: v }
    }

    /// Whether the set holds no diagnostic.
    pub fn is_empty(&self) -> (r: bool)
        ensures
            r == (self@.len() == 0),
    {
        self.diagnostics.len() == 0
    }

    /// The number of diagnostics.
    pub fn len(&self) -> (r: usize)
        ensures
            r == self@.len(),
    {
        self.diagnostics.len()
    }

    /// The diagnostic at position `i`.
    pub fn get(&self, i: usize) -> (r: &Diagnostic)
        requires
            i < self@.len(),
        ensures
            r@ == self@[i as int],
    {
        &self.diagnostics[i]
    }

    /// The diagnostics, in order.
    pub fn as_slice(&self) -> (r: &[Diagnostic])
        ensures
            diag_models(r@) == self@,
    {
        self.diagnostics.as_slice()
    }

    /// An iterator over the diagnostics, in order.
    pub fn iter(&self) -> (r: std::slice::Iter<'_, Diagnostic>)
        ensures
            vstd::std_specs::slice::into_iter_elts(r) == self.items(),
    {
        self.diagnostics.iter()
    }

    /// The diagnostics, taken out of the set.
    pub fn into_vec(self) -> (r: Vec<Diagnostic>)
        ensures
            diag_models(r@) == self@,
    {
        self.diagnostics
    }
}

} // verus!
