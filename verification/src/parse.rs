//! Reading a specification: turning what the YAML reader reports into
//! diagnostics, and checking the package name.
use vstd::prelude::*;
use crate::ast::Spec;
use crate::diagnostics::{Diagnostic, DiagnosticModel, DiagnosticSet, parse_error_model};
use crate::text::{
    chars_of, find_char, find_char_seq, find_seq, find_str, lemma_find_seq_bounds, slice_chars, string_from_chars, trim,
    trim_end_char, trim_end_char_seq, trim_end_seq, trim_start_seq,
};

verus! {

/// What the YAML reader reports when a text is not a specification: its
/// message and, when known, the line and column of the problem.
#[derive(Debug, Clone, PartialEq, Eq)]
pub struct YamlError {
    pub message: String,
    pub line: Option<usize>,
    pub column: Option<usize>,
}

/// The path as a character sequence, when given.
pub open spec fn opt_path(path: Option<&str>) -> Option<Seq<char>> {
    match path {
        Some(p) => Some(p@),
        None => None,
    }
}

// ---------------------------------------------------------------------------
// Pieces of the reader's message.

/// The text between backquotes that directly follows the first occurrence
/// of `prefix` in `m`.
pub open spec fn spec_quoted_segment_after(m: Seq<char>, prefix: Seq<char>) -> Option<Seq<char>> {
    match find_seq(m, prefix) {
        None => None,
        Some(i) => {
            let rest = m.skip(i + prefix.len());
            if rest.len() > 0 && rest[0] == '`' {
                match find_char_seq(rest.drop_first(), '`') {
                    Some(e) => Some(rest.drop_first().take(e)),
                    None => None,
                }
            } else {
                None
            }
        },
    }
}

/// The quoted name after `prefix` in the message, when there is one.
pub fn quoted_segment_after(message: &str, prefix: &str) -> (r: Option<String>)
    ensures
        r matches Some(s) ==> spec_quoted_segment_after(message@, prefix@) == Some(s@),
        r is None ==> spec_quoted_segment_after(message@, prefix@) is None,
{
    let m = chars_of(message);
    let p = chars_of(prefix);
    proof {
        lemma_find_seq_bounds(m@, p@);
    }
    let i = match find_str(m.as_slice(), p.as_slice()) {
        Some(i) => i,
        None => return None,
    };
    assert(crate::text::occurs_at(m@, p@, i as int));
    let n = m.len();
    let start = i + p.len();
    if start < m.len() && m[start] == '`' {
        let rest = slice_chars(m.as_slice(), start + 1, m.len());
        assert(rest@ =~= m@.skip(start as int).drop_first());
        proof {
            lemma_find_seq_bounds(rest@, seq!['`']);
        }
        match find_char(rest.as_slice(), '`') {
            Some(e) => {
                let seg = slice_chars(rest.as_slice(), 0, e);
                assert(seg@ =~= rest@.take(e as int));
                Some(string_from_chars(seg.as_slice()))
            },
            None => None,
        }
    } else {
        None
    }
}

/// What follows `expected one of ` in the message, trimmed and without
/// trailing periods.
pub open spec fn spec_expected_fields(m: Seq<char>) -> Option<Seq<char>> {
    match find_seq(m, "expected one of "@) {
        None => None,
        Some(i) => Some(trim_end_char_seq(trim_end_seq(trim_start_seq(m.skip(i + 16))), '.')),
    }
}

/// The list of supported fields that the message names, when it names one.
pub fn expected_fields(message: &str) -> (r: Option<String>)
    ensures
        r matches Some(s) ==> spec_expected_fields(message@) == Some(s@),
        r is None ==> spec_expected_fields(message@) is None,
{
    let m = chars_of(message);
    let marker = chars_of("expected one of ");
    proof {
        reveal_strlit("expected one of ");
        lemma_find_seq_bounds(m@, marker@);
    }
    assert(marker@.len() == 16);
    match find_str(m.as_slice(), marker.as_slice()) {
        Some(i) => {
            assert(crate::text::occurs_at(m@, marker@, i as int));
            let n = m.len();
            let suffix = slice_chars(m.as_slice(), i + marker.len(), n);
            assert(suffix@ =~= m@.skip(i + 16));
            let trimmed = trim(suffix.as_slice());
            let cut = trim_end_char(trimmed.as_slice(), '.');
            Some(string_from_chars(cut.as_slice()))
        },
        None => None,
    }
}

// ---------------------------------------------------------------------------
// Classifying the reader's errors.

/// The message for a missing required field.
pub open spec fn missing_field_message(field: Seq<char>) -> Seq<char> {
    "A required field `"@ + field + "` is missing from this IDL block."@
}

/// The suggestion for a missing required field.
pub open spec fn missing_field_suggestion(field: Seq<char>) -> Seq<char> {
    "Add a `"@ + field
        + "` field to this mapping. If this block is a component, event, or transition, check the Hoonoki spec for the required shape."@
}

/// The message for a field that is not allowed.
pub open spec fn unknown_field_message(field: Seq<char>) -> Seq<char> {
    "The field `"@ + field + "` is not allowed in this part of the IDL."@
}

/// The suggestion for a field that is not allowed: a migration hint for the
/// former `events` list of a port, else the supported fields when the
/// reader names them.
pub open spec fn unknown_field_suggestion(field: Seq<char>, expected: Option<Seq<char>>) -> Seq<char> {
    if field == "events"@ {
        "Ports now accept exactly one event. Replace `events: [MyEvent]` with `event: MyEvent`, and split the port if it previously carried multiple events."@
    } else {
        match expected {
            Some(e) => "Remove `"@ + field + "` or rename it to one of the supported fields: "@ + e + "."@,
            None => "Remove `"@ + field + "` or rename it to a valid field defined by the Hoonoki IDL spec."@,
        }
    }
}

/// The diagnostic for a reader error: a missing field (`HNK1001`), a field
/// that is not allowed (`HNK1002`), a value of the wrong type (`HNK1003`),
/// or any other problem (`HNK1000`), at the reported line and column.
pub open spec fn classify_model(path: Option<Seq<char>>, raw: Seq<char>, line: Option<usize>, column: Option<usize>) -> DiagnosticModel {
    match spec_quoted_segment_after(raw, "missing field "@) {
        Some(f) => parse_error_model("HNK1001"@, path, missing_field_message(f), line, column, Some(missing_field_suggestion(f))),
        None => match spec_quoted_segment_after(raw, "unknown field "@) {
            Some(f) => parse_error_model(
                "HNK1002"@,
                path,
                unknown_field_message(f),
                line,
                column,
                Some(unknown_field_suggestion(f, spec_expected_fields(raw))),
            ),
            None => if find_seq(raw, "invalid type:"@) is Some {
                parse_error_model(
                    "HNK1003"@,
                    path,
                    "This value has the wrong YAML type for the Hoonoki IDL: "@ + raw,
                    line,
                    column,
                    Some("Check whether this field expects a string, list, or mapping, and rewrite the YAML value to match that shape."@),
                )
            } else {
                parse_error_model(
                    "HNK1000"@,
                    path,
                    "The IDL could not be parsed as valid Hoonoki YAML: "@ + raw,
                    line,
                    column,
                    Some("Check indentation, field names, and required fields near this location."@),
                )
            },
        },
    }
}

/// Turns what the YAML reader reported into a diagnostic.
pub fn classify_parse_error(path: Option<&str>, raw_message: &str, line: Option<usize>, column: Option<usize>) -> (r: Diagnostic)
    ensures
        r@ == classify_model(opt_path(path), raw_message@, line, column),
{
    if let Some(field) = quoted_segment_after(raw_message, "missing field ") {
        let mut message = String::new();
        message.append("A required field `");
        message.append(field.as_str());
        message.append("` is missing from this IDL block.");
        let mut suggestion = String::new();
        suggestion.append("Add a `");
        suggestion.append(field.as_str());
        suggestion.append(
            "` field to this mapping. If this block is a component, event, or transition, check the Hoonoki spec for the required shape.",
        );
        return Diagnostic::parse_error("HNK1001", path, message, line, column, Some(suggestion));
    }
    if let Some(field) = quoted_segment_after(raw_message, "unknown field ") {
        let mut suggestion = String::new();
        if crate::text::str_equal(field.as_str(), "events") {
            suggestion.append(
                "Ports now accept exactly one event. Replace `events: [MyEvent]` with `event: MyEvent`, and split the port if it previously carried multiple events.",
            );
        } else {
            match expected_fields(raw_message) {
                Some(expected) => {
                    suggestion.append("Remove `");
                    suggestion.append(field.as_str());
                    suggestion.append("` or rename it to one of the supported fields: ");
                    suggestion.append(expected.as_str());
                    suggestion.append(".");
                },
                None => {
                    suggestion.append("Remove `");
                    suggestion.append(field.as_str());
                    suggestion.append("` or rename it to a valid field defined by the Hoonoki IDL spec.");
                },
            }
        }
        let mut message = String::new();
        message.append("The field `");
        message.append(field.as_str());
        message.append("` is not allowed in this part of the IDL.");
        return Diagnostic::parse_error("HNK1002", path, message, line, column, Some(suggestion));
    }
    let raw = chars_of(raw_message);
    let marker = chars_of("invalid type:");
    if find_str(raw.as_slice(), marker.as_slice()).is_some() {
        let mut message = String::new();
        message.append("This value has the wrong YAML type for the Hoonoki IDL: ");
        message.append(raw_message);
        let suggestion =
            "Check whether this field expects a string, list, or mapping, and rewrite the YAML value to match that shape.".to_owned();
        return Diagnostic::parse_error("HNK1003", path, message, line, column, Some(suggestion));
    }
    let mut message = String::new();
    message.append("The IDL could not be parsed as valid Hoonoki YAML: ");
    message.append(raw_message);
    let suggestion = "Check indentation, field names, and required fields near this location.".to_owned();
    Diagnostic::parse_error("HNK1000", path, message, line, column, Some(suggestion))
}

// ---------------------------------------------------------------------------
// Package names.

/// A character allowed after the first one of a package segment.
pub open spec fn segment_char(c: char) -> bool {
    ('a' <= c && c <= 'z') || ('0' <= c && c <= '9') || c == '_'
}

/// A lower_snake segment: a lowercase ASCII letter, then lowercase ASCII
/// letters, digits and underscores.
pub open spec fn segment_ok(s: Seq<char>) -> bool {
    &&& s.len() > 0
    &&& 'a' <= s[0] && s[0] <= 'z'
    &&& forall|k: int| 1 <= k < s.len() ==> segment_char(#[trigger] s[k])
}

/// Every dot-separated segment of `s` is a lower_snake segment.
pub open spec fn all_segments_ok(s: Seq<char>) -> bool
    decreases s.len(),
{
    match find_char_seq(s, '.') {
        Some(i) => if 0 <= i < s.len() {
            segment_ok(s.take(i)) && all_segments_ok(s.skip(i + 1))
        } else {
            segment_ok(s)
        },
        None => segment_ok(s),
    }
}

/// A valid package name: not empty, and every dot-separated segment is a
/// lower_snake segment.
pub open spec fn package_ok(p: Seq<char>) -> bool {
    p.len() > 0 && all_segments_ok(p)
}

fn segment_chars_ok(s: &[char]) -> (r: bool)
    ensures
        r == segment_ok(s@),
{
    if s.len() == 0 {
        return false;
    }
    if !('a' <= s[0] && s[0] <= 'z') {
        return false;
    }
    let mut k: usize = 1;
    while k < s.len()
        invariant
            1 <= k <= s@.len(),
            forall|j: int| 1 <= j < k ==> segment_char(#[trigger] s@[j]),
        decreases s@.len() - k,
    {
        let c = s[k];
        if !(('a' <= c && c <= 'z') || ('0' <= c && c <= '9') || c == '_') {
            return false;
        }
        k = k + 1;
    }
    true
}

/// Whether a segment of a package name is lower_snake.
pub fn is_valid_package_segment(segment: &str) -> (r: bool)
    ensures
        r == segment_ok(segment@),
{
    let cs = chars_of(segment);
    segment_chars_ok(cs.as_slice())
}

fn segments_ok(s: Vec<char>) -> (r: bool)
    ensures
        r == all_segments_ok(s@),
    decreases s@.len(),
{
    proof {
        lemma_find_seq_bounds(s@, seq!['.']);
    }
    match find_char(s.as_slice(), '.') {
        Some(i) => {
            assert(crate::text::occurs_at(s@, seq!['.'], i as int));
            let n = s.len();
            let head = slice_chars(s.as_slice(), 0, i);
            let tail = slice_chars(s.as_slice(), i + 1, s.len());
            assert(head@ =~= s@.take(i as int));
            assert(tail@ =~= s@.skip(i + 1));
            segment_chars_ok(head.as_slice()) && segments_ok(tail)
        },
        None => segment_chars_ok(s.as_slice()),
    }
}

/// The diagnostic for an invalid package name.
pub open spec fn invalid_package_model(path: Option<Seq<char>>, package: Seq<char>) -> DiagnosticModel {
    parse_error_model(
        "HNK1004"@,
        path,
        "The package name `"@ + package + "` is invalid. Hoonoki packages must use lower_snake segments separated by dots."@,
        None,
        None,
        Some("Use names like `std.link` or `examples.broadcast`."@),
    )
}

/// Checks that a package name is made of lower_snake segments separated by
/// dots.
pub fn validate_package_name(path: Option<&str>, package: &str) -> (r: Result<(), DiagnosticSet>)
    ensures
        package_ok(package@) ==> r is Ok,
        !package_ok(package@) ==> (r matches Err(ds) && ds@ == seq![invalid_package_model(opt_path(path), package@)]),
{
    let cs = chars_of(package);
    let valid = cs.len() > 0 && segments_ok(cs);
    if valid {
        return Ok(());
    }
    let mut message = String::new();
    message.append("The package name `");
    message.append(package);
    message.append("` is invalid. Hoonoki packages must use lower_snake segments separated by dots.");
    let suggestion = "Use names like `std.link` or `examples.broadcast`.".to_owned();
    Err(DiagnosticSet::singleton(Diagnostic::parse_error("HNK1004", path, message, None, None, Some(suggestion))))
}

// ---------------------------------------------------------------------------
// Parsing and reading.

/// Checks what the YAML reader made of a text: its error as a diagnostic,
/// or the specification once its package name is valid.
pub fn parse_spec(path: Option<&str>, parsed: Result<Spec, YamlError>) -> (r: Result<Spec, DiagnosticSet>)
    ensures
        match parsed {
            Err(e) => r matches Err(ds) && ds@ == seq![classify_model(opt_path(path), e.message@, e.line, e.column)],
            Ok(spec) => if package_ok(spec.package@) {
                r == Ok::<Spec, DiagnosticSet>(spec)
            } else {
                r matches Err(ds) && ds@ == seq![invalid_package_model(opt_path(path), spec.package@)]
            },
        },
{
    match parsed {
        Err(e) => Err(DiagnosticSet::singleton(classify_parse_error(path, e.message.as_str(), e.line, e.column))),
        Ok(spec) => match validate_package_name(path, spec.package.as_str()) {
            Ok(()) => Ok(spec),
            Err(ds) => Err(ds),
        },
    }
}

/// The message when a file cannot be read.
pub open spec fn read_failure_model(path: Seq<char>, error: Seq<char>) -> DiagnosticModel {
    parse_error_model(
        "HNK1000"@,
        Some(path),
        "Failed to read the IDL file: "@ + error,
        None,
        None,
        Some("Check that the file exists and is readable."@),
    )
}

/// The diagnostic when the file at `path` cannot be read, `error` being
/// what the system reported.
pub fn read_failure(path: &str, error: &str) -> (r: DiagnosticSet)
    ensures
        r@ == seq![read_failure_model(path@, error@)],
{
    let mut message = String::new();
    message.append("Failed to read the IDL file: ");
    message.append(error);
    let suggestion = "Check that the file exists and is readable.".to_owned();
    DiagnosticSet::singleton(Diagnostic::parse_error("HNK1000", Some(path), message, None, None, Some(suggestion)))
}

} // verus!
