//! What the command-line tools print: diagnostics one per line, the
//! outcome of each command, and the summary of a generation run.
use vstd::prelude::*;
use crate::diagnostics::{Diagnostic, DiagnosticModel, DiagnosticSet, Severity, parse_error_model};
use crate::ir::NormalizedSpec;
use crate::resolve::join;
use crate::text::{decimal, push_decimal};

verus! {

/// One diagnostic as the tools print it: `error CODE: message` or
/// `warning CODE: message`.
pub open spec fn diagnostic_line(d: DiagnosticModel) -> Seq<char> {
    (match d.severity {
        Severity::Error => "error"@,
        Severity::Warning => "warning"@,
    }) + " "@ + d.code + ": "@ + d.message
}

/// The diagnostics, one per line.
pub open spec fn diagnostics_text(ds: Seq<DiagnosticModel>) -> Seq<char> {
    join(ds.map_values(|d: DiagnosticModel| diagnostic_line(d)), "\n"@)
}

/// Formats diagnostics one per line, without a final newline.
pub fn format_diagnostics(diagnostics: &DiagnosticSet) -> (r: String)
    ensures
        r@ == diagnostics_text(diagnostics@),
{
    let ghost lines = diagnostics@.map_values(|d: DiagnosticModel| diagnostic_line(d));
    let mut out = String::new();
    let mut i: usize = 0;
    while i < diagnostics.len()
        invariant
            lines == diagnostics@.map_values(|d: DiagnosticModel| diagnostic_line(d)),
            i <= diagnostics@.len(),
            out@ == join(lines.take(i as int), "\n"@),
        decreases diagnostics@.len() - i,
    {
        let d = diagnostics.get(i);
        if i > 0 {
            out.append("\n");
        }
        match d.severity {
            Severity::Error => out.append("error"),
            Severity::Warning => out.append("warning"),
        }
        out.append(" ");
        out.append(d.code.as_str());
        out.append(": ");
        out.append(d.message.as_str());
        proof {
            assert(lines[i as int] == diagnostic_line(d@));
            assert(lines.take(i + 1).drop_last() =~= lines.take(i as int));
            if i == 0 {
                assert(lines.take(1) =~= seq![lines[0]]);
            }
        }
        i = i + 1;
    }
    assert(lines.take(diagnostics@.len() as int) =~= lines);
    out
}

/// The outcome of `validate`: `Validation OK` when there is no diagnostic,
/// else the diagnostics as an error.
pub fn validation_outcome(diagnostics: &DiagnosticSet) -> (r: Result<String, String>)
    ensures
        diagnostics@.len() == 0 ==> (r matches Ok(s) && s@ == "Validation OK"@),
        diagnostics@.len() > 0 ==> (r matches Err(s) && s@ == diagnostics_text(diagnostics@)),
{
    if diagnostics.is_empty() {
        Ok("Validation OK".to_owned())
    } else {
        Err(format_diagnostics(diagnostics))
    }
}

/// What `lint` prints: `Lint OK` when there is no warning, else the
/// warnings.
pub fn lint_outcome(diagnostics: &DiagnosticSet) -> (r: String)
    ensures
        diagnostics@.len() == 0 ==> r@ == "Lint OK"@,
        diagnostics@.len() > 0 ==> r@ == diagnostics_text(diagnostics@),
{
    if diagnostics.is_empty() {
        "Lint OK".to_owned()
    } else {
        format_diagnostics(diagnostics)
    }
}

/// What `normalize` prints.
pub open spec fn normalize_summary_text(n: NormalizedSpec) -> Seq<char> {
    "Normalized spec: "@ + decimal(n.events@.len()) + " events, "@ + decimal(n.components@.len()) + " components, "@ + decimal(
        n.connections@.len(),
    ) + " connections"@
}

/// The counts that `normalize` prints.
pub fn normalize_summary(spec: &NormalizedSpec) -> (r: String)
    ensures
        r@ == normalize_summary_text(*spec),
{
    let mut out = String::new();
    out.append("Normalized spec: ");
    push_decimal(&mut out, spec.events.len());
    out.append(" events, ");
    push_decimal(&mut out, spec.components.len());
    out.append(" components, ");
    push_decimal(&mut out, spec.connections.len());
    out.append(" connections");
    out
}

/// The diagnostic when the working directory, the default import root,
/// cannot be determined.
pub open spec fn cwd_failure_model(path: Seq<char>, error: Seq<char>) -> DiagnosticModel {
    parse_error_model(
        "HNK1005"@,
        Some(path),
        "Failed to determine the current working directory: "@ + error,
        None,
        None,
        Some("Pass `--import-root` explicitly."@),
    )
}

/// The diagnostic when the working directory cannot be determined.
pub fn cwd_failure(path: &str, error: &str) -> (r: DiagnosticSet)
    ensures
        r@ == seq![cwd_failure_model(path@, error@)],
{
    let mut message = String::new();
    message.append("Failed to determine the current working directory: ");
    message.append(error);
    let suggestion = "Pass `--import-root` explicitly.".to_owned();
    DiagnosticSet::singleton(Diagnostic::parse_error("HNK1005", Some(path), message, None, None, Some(suggestion)))
}

// ---------------------------------------------------------------------------
// Generation runs.

/// What happens to one file of the scaffold.
#[derive(Debug, Clone, Copy, PartialEq, Eq, Structural)]
pub enum GeneratedFileStatus {
    /// The file did not exist and is written.
    Created,
    /// The file existed and is rewritten.
    Updated,
    /// The file existed and is kept as it is.
    Preserved,
}

/// An application file that exists is kept; any other file is written,
/// as new or over the old copy.
pub open spec fn spec_file_status(preserve_existing: bool, exists: bool) -> GeneratedFileStatus {
    if !exists {
        GeneratedFileStatus::Created
    } else if preserve_existing {
        GeneratedFileStatus::Preserved
    } else {
        GeneratedFileStatus::Updated
    }
}

/// What happens to a file of the scaffold, given whether it is kept when
/// present and whether it is present.
pub fn file_status(preserve_existing: bool, exists: bool) -> (r: GeneratedFileStatus)
    ensures
        r == spec_file_status(preserve_existing, exists),
{
    if !exists {
        GeneratedFileStatus::Created
    } else if preserve_existing {
        GeneratedFileStatus::Preserved
    } else {
        GeneratedFileStatus::Updated
    }
}

/// What a generation run did: the number of components and the paths of
/// the files created, updated and preserved, in the order they were met.
#[derive(Debug, Clone, PartialEq, Eq)]
pub struct GenerateReport {
    pub component_count: usize,
    pub created_files: Vec<String>,
    pub updated_files: Vec<String>,
    pub preserved_files: Vec<String>,
}

impl GenerateReport {
    /// An empty report for a model with the given number of components.
    pub fn new(component_count: usize) -> (r: Self)
        ensures
            r.component_count == component_count,
            r.created_files@.len() == 0,
            r.updated_files@.len() == 0,
            r.preserved_files@.len() == 0,
    {
        GenerateReport { component_count, created_files: Vec::new(), updated_files: Vec::new(), preserved_files: Vec::new() }
    }

    /// Records what happened to the file at `path`.
    pub fn record(&mut self, path: String, status: GeneratedFileStatus)
        ensures
            final(self).component_count == old(self).component_count,
            final(self).created_files@ == if status == GeneratedFileStatus::Created {
                old(self).created_files@.push(path)
            } else {
                old(self).created_files@
            },
            final(self).updated_files@ == if status == GeneratedFileStatus::Updated {
                old(self).updated_files@.push(path)
            } else {
                old(self).updated_files@
            },
            final(self).preserved_files@ == if status == GeneratedFileStatus::Preserved {
                old(self).preserved_files@.push(path)
            } else {
                old(self).preserved_files@
            },
    {
        match status {
            GeneratedFileStatus::Created => self.created_files.push(path),
            GeneratedFileStatus::Updated => self.updated_files.push(path),
            GeneratedFileStatus::Preserved => self.preserved_files.push(path),
        }
    }
}

/// The lines that `generate` prints about a run into the directory `out`.
pub open spec fn generate_summary_text(r: GenerateReport, out: Seq<char>) -> Seq<char> {
    "Generated "@ + decimal(r.component_count as nat) + " components into "@ + out + "\n"@ + "Created files: "@ + decimal(
        r.created_files@.len(),
    ) + "\n"@ + "Updated files: "@ + decimal(r.updated_files@.len()) + "\n"@ + "Preserved files: "@ + decimal(
        r.preserved_files@.len(),
    )
}

/// What `generate` prints about a run.
pub fn generate_summary(report: &GenerateReport, out_dir: &str) -> (r: String)
    ensures
        r@ == generate_summary_text(*report, out_dir@),
{
    let mut out = String::new();
    out.append("Generated ");
    push_decimal(&mut out, report.component_count);
    out.append(" components into ");
    out.append(out_dir);
    out.append("\n");
    out.append("Created files: ");
    push_decimal(&mut out, report.created_files.len());
    out.append("\n");
    out.append("Updated files: ");
    push_decimal(&mut out, report.updated_files.len());
    out.append("\n");
    out.append("Preserved files: ");
    push_decimal(&mut out, report.preserved_files.len());
    out
}

} // verus!
