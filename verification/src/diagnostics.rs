//! The validator: what is wrong with the annotations of a document.
//!
//! One rule is checked: the status code of an `@response` lies between 100 and 599.

use crate::decimal::{numeral, push_numeral};
use crate::parser::{
    annotations_of, block_holds, in_some_block, lemma_annotation_keeps_line,
    lemma_annotations_are_block_lines, lemma_annotations_in_document_order,
    lemma_block_is_longest_run, line_annotation, lines_ascend, parse_annotations, Annotation,
    AnnotationKind, AnnotationView,
};
use crate::text::{lines_of, trimmed};
use vstd::prelude::*;

verus! {

/// How grave a diagnostic is.
#[derive(Debug, Clone, Copy, PartialEq, Eq, Structural)]
pub enum DiagnosticSeverity {
    /// Something that has to be mended.
    Error,
    /// Something that deserves a look.
    Warning,
}

/// A finding about one annotation.
#[derive(Debug, Clone)]
pub struct Diagnostic {
    /// The line that the finding is about, counted from zero.
    pub line: usize,
    /// What is wrong, in words.
    pub message: String,
    /// How grave the finding is.
    pub severity: DiagnosticSeverity,
    /// The last line of a finding that spans several lines.
    pub end_line: Option<usize>,
    /// The column at which the finding starts, where it starts inside its line.
    pub char_start: Option<usize>,
}

/// The mathematical value of a [`Diagnostic`].
pub struct DiagnosticView {
    pub line: nat,
    pub message: Seq<char>,
    pub severity: DiagnosticSeverity,
    pub end_line: Option<nat>,
    pub char_start: Option<nat>,
}

/// The number behind an optional position.
pub open spec fn position_view(position: Option<usize>) -> Option<nat> {
    match position {
        Some(p) => Some(p as nat),
        None => None,
    }
}

impl View for Diagnostic {
    type V = DiagnosticView;

    open spec fn view(&self) -> DiagnosticView {
        DiagnosticView {
            line: self.line as nat,
            message: self.message@,
            severity: self.severity,
            end_line: position_view(self.end_line),
            char_start: position_view(self.char_start),
        }
    }
}

impl DeepView for Diagnostic {
    type V = DiagnosticView;

    open spec fn deep_view(&self) -> DiagnosticView {
        self@
    }
}

/// The least status code that a response may have.
pub const MIN_STATUS: u16 = 100;

/// The greatest status code that a response may have.
pub const MAX_STATUS: u16 = 599;

/// Whether `status` is a status code that a response may have.
pub open spec fn is_valid_status(status: u16) -> bool {
    MIN_STATUS <= status <= MAX_STATUS
}

/// What a diagnostic says about the status code `status`.
pub open spec fn status_message(status: u16) -> Seq<char> {
    "Invalid HTTP status code: "@ + numeral(status as nat) + ". Must be between 100 and 599."@
}

/// The rule on status codes: an `@response` whose status code is out of range gets one error,
/// on its own line. Every other annotation gets nothing.
pub open spec fn status_rule(annotation: AnnotationView) -> Option<DiagnosticView> {
    if annotation.kind == AnnotationKind::Response && annotation.status is Some && !is_valid_status(
        annotation.status->0,
    ) {
        Some(
            DiagnosticView {
                line: annotation.line,
                message: status_message(annotation.status->0),
                severity: DiagnosticSeverity::Error,
                end_line: None,
                char_start: None,
            },
        )
    } else {
        None
    }
}

/// [`status_rule`] as a function value.
pub open spec fn status_rule_fn() -> spec_fn(AnnotationView) -> Option<DiagnosticView> {
    |annotation: AnnotationView| status_rule(annotation)
}

/// The diagnostics of a sequence of annotations: what the rule gives for each annotation, in
/// the order of the annotations.
pub open spec fn diagnostics_of(annotations: Seq<AnnotationView>) -> Seq<DiagnosticView> {
    annotations.filter_map(status_rule_fn())
}

/// Writes the message about the status code `status`.
fn write_status_message(status: u16) -> (message: String)
    ensures
        message@ == status_message(status),
{
    let mut message = String::from_str("Invalid HTTP status code: ");
    push_numeral(&mut message, status);
    message.append(". Must be between 100 and 599.");
    message
}

/// Applies the rule on status codes to one annotation.
pub fn check_status(annotation: &Annotation) -> (diagnostic: Option<Diagnostic>)
    ensures
        diagnostic.deep_view() == status_rule(annotation@),
{
    match annotation.kind {
        AnnotationKind::Response => match annotation.status {
            Some(status) => {
                if status < MIN_STATUS || status > MAX_STATUS {
                    Some(
                        Diagnostic {
                            line: annotation.line,
                            message: write_status_message(status),
                            severity: DiagnosticSeverity::Error,
                            end_line: None,
                            char_start: None,
                        },
                    )
                } else {
                    None
                }
            },
            None => None,
        },
        _ => None,
    }
}

/// Checks annotations that have been parsed already.
pub fn check_annotations(annotations: &Vec<Annotation>) -> (diagnostics: Vec<Diagnostic>)
    ensures
        diagnostics.deep_view() == diagnostics_of(annotations.deep_view()),
{
    let mut diagnostics: Vec<Diagnostic> = Vec::new();
    let ghost all = annotations.deep_view();
    let mut i: usize = 0;
    assert(diagnostics.deep_view() =~= diagnostics_of(all.take(0)));
    while i < annotations.len()
        invariant
            i <= annotations.len(),
            all == annotations.deep_view(),
            diagnostics.deep_view() == diagnostics_of(all.take(i as int)),
        decreases annotations.len() - i,
    {
        proof {
            all.lemma_filter_map_take_succ(status_rule_fn(), i as int);
        }
        match check_status(&annotations[i]) {
            Some(diagnostic) => {
                let ghost earlier = diagnostics.deep_view();
                diagnostics.push(diagnostic);
                assert(diagnostics.deep_view() =~= earlier.push(diagnostic@));
            },
            None => {},
        }
        i += 1;
    }
    assert(all.take(i as int) =~= all);
    diagnostics
}

/// Checks the annotations of a document.
pub fn validate_annotations(content: &str) -> (diagnostics: Vec<Diagnostic>)
    ensures
        diagnostics.deep_view() == diagnostics_of(annotations_of(content@)),
{
    let annotations = parse_annotations(content);
    check_annotations(&annotations)
}

/// Whether diagnostics stand in the order of their lines, no two on one line.
pub open spec fn diagnostic_lines_ascend(diagnostics: Seq<DiagnosticView>) -> bool {
    forall|i: int, j: int|
        0 <= i < j < diagnostics.len() ==> (#[trigger] diagnostics[i]).line
            < (#[trigger] diagnostics[j]).line
}

/// Every message names the fault.
pub proof fn lemma_message_names_fault(status: u16)
    ensures
        "Invalid HTTP status code"@.is_prefix_of(status_message(status)),
{
    reveal_strlit("Invalid HTTP status code");
    reveal_strlit("Invalid HTTP status code: ");
    let name = "Invalid HTTP status code"@;
    assert(name =~= status_message(status).subrange(0, name.len() as int));
}

/// Every diagnostic is what the rule gives for one of the annotations.
proof fn lemma_diagnostic_source(annotations: Seq<AnnotationView>, k: int)
    requires
        0 <= k < diagnostics_of(annotations).len(),
    ensures
        exists|i: int|
            0 <= i < annotations.len() && status_rule(#[trigger] annotations[i]) == Some(
                diagnostics_of(annotations)[k],
            ),
    decreases annotations.len(),
{
    let rest = annotations.drop_last();
    if k < diagnostics_of(rest).len() {
        lemma_diagnostic_source(rest, k);
        let i = choose|i: int|
            0 <= i < rest.len() && status_rule(#[trigger] rest[i]) == Some(diagnostics_of(rest)[k]);
        assert(annotations[i] == rest[i]);
    } else {
        assert(status_rule(annotations[annotations.len() - 1]) == Some(
            diagnostics_of(annotations)[k],
        ));
    }
}

/// What the rule gives for an annotation is among the diagnostics.
proof fn lemma_diagnostic_present(annotations: Seq<AnnotationView>, i: int)
    requires
        0 <= i < annotations.len(),
        status_rule(annotations[i]) is Some,
    ensures
        exists|k: int|
            0 <= k < diagnostics_of(annotations).len() && #[trigger] diagnostics_of(annotations)[k]
                == status_rule(annotations[i])->0,
    decreases annotations.len(),
{
    let rest = annotations.drop_last();
    if i < rest.len() {
        lemma_diagnostic_present(rest, i);
        let k = choose|k: int|
            0 <= k < diagnostics_of(rest).len() && #[trigger] diagnostics_of(rest)[k]
                == status_rule(rest[i])->0;
        assert(diagnostics_of(annotations)[k] == diagnostics_of(rest)[k]);
    } else {
        let k = diagnostics_of(rest).len() as int;
        assert(diagnostics_of(annotations)[k] == status_rule(annotations[i])->0);
    }
}

/// Diagnostics keep the order of the annotations: where the lines of the annotations ascend,
/// so do the lines of the diagnostics.
pub proof fn lemma_diagnostics_keep_order(annotations: Seq<AnnotationView>)
    requires
        lines_ascend(annotations),
    ensures
        diagnostic_lines_ascend(diagnostics_of(annotations)),
    decreases annotations.len(),
{
    if annotations.len() > 0 {
        let rest = annotations.drop_last();
        let last = annotations.last();
        assert forall|i: int, j: int| 0 <= i < j < rest.len() implies (#[trigger] rest[i]).line
            < (#[trigger] rest[j]).line by {
            assert(rest[i] == annotations[i]);
            assert(rest[j] == annotations[j]);
        }
        lemma_diagnostics_keep_order(rest);
        if status_rule(last) is Some {
            assert forall|k: int| 0 <= k < diagnostics_of(rest).len() implies (
            #[trigger] diagnostics_of(rest)[k]).line < last.line by {
                lemma_diagnostic_source(rest, k);
                let i = choose|i: int|
                    0 <= i < rest.len() && status_rule(#[trigger] rest[i]) == Some(
                        diagnostics_of(rest)[k],
                    );
                assert(rest[i] == annotations[i]);
                assert(last == annotations[annotations.len() - 1]);
            }
        }
    }
}

/// An `@response` whose status code lies between 100 and 599 gets no diagnostic: none of the
/// diagnostics is on its line.
pub proof fn lemma_valid_status_gets_no_diagnostic(annotations: Seq<AnnotationView>, i: int)
    requires
        lines_ascend(annotations),
        0 <= i < annotations.len(),
        annotations[i].kind == AnnotationKind::Response,
        annotations[i].status is Some,
        is_valid_status(annotations[i].status->0),
    ensures
        forall|k: int|
            0 <= k < diagnostics_of(annotations).len() ==> (#[trigger] diagnostics_of(
                annotations,
            )[k]).line != annotations[i].line,
{
    assert forall|k: int| 0 <= k < diagnostics_of(annotations).len() implies (
    #[trigger] diagnostics_of(annotations)[k]).line != annotations[i].line by {
        lemma_diagnostic_source(annotations, k);
        let j = choose|j: int|
            0 <= j < annotations.len() && status_rule(#[trigger] annotations[j]) == Some(
                diagnostics_of(annotations)[k],
            );
        assert(j != i);
        if j < i {
            assert(annotations[j].line < annotations[i].line);
        } else {
            assert(annotations[i].line < annotations[j].line);
        }
    }
}

/// An `@response` whose status code lies outside 100 to 599 gets exactly one diagnostic: an
/// error on its line whose message names the fault and the code. No other diagnostic is on that
/// line.
pub proof fn lemma_invalid_status_gets_one_error(annotations: Seq<AnnotationView>, i: int)
    requires
        lines_ascend(annotations),
        0 <= i < annotations.len(),
        annotations[i].kind == AnnotationKind::Response,
        annotations[i].status is Some,
        !is_valid_status(annotations[i].status->0),
    ensures
        exists|k: int|
            0 <= k < diagnostics_of(annotations).len() && {
                let diagnostic = #[trigger] diagnostics_of(annotations)[k];
                &&& diagnostic.line == annotations[i].line
                &&& diagnostic.severity == DiagnosticSeverity::Error
                &&& diagnostic.message == status_message(annotations[i].status->0)
                &&& "Invalid HTTP status code"@.is_prefix_of(diagnostic.message)
                &&& forall|j: int|
                    0 <= j < diagnostics_of(annotations).len() && j != k ==> (
                    #[trigger] diagnostics_of(annotations)[j]).line != annotations[i].line
            },
{
    lemma_diagnostic_present(annotations, i);
    lemma_diagnostics_keep_order(annotations);
    lemma_message_names_fault(annotations[i].status->0);
    let k = choose|k: int|
        0 <= k < diagnostics_of(annotations).len() && #[trigger] diagnostics_of(annotations)[k]
            == status_rule(annotations[i])->0;
    assert forall|j: int| 0 <= j < diagnostics_of(annotations).len() && j != k implies (
    #[trigger] diagnostics_of(annotations)[j]).line != annotations[i].line by {
        if j < k {
            assert(diagnostics_of(annotations)[j].line < diagnostics_of(annotations)[k].line);
        } else {
            assert(diagnostics_of(annotations)[k].line < diagnostics_of(annotations)[j].line);
        }
    }
}

/// Whether the rule on status codes finds fault with an annotation.
pub open spec fn breaks_status_rule(annotation: AnnotationView) -> bool {
    status_rule(annotation) is Some
}

/// There is one diagnostic for each annotation that breaks the rule, in the order of those
/// annotations and on their lines: as many diagnostics as offending annotations, and in
/// ascending order of lines where the annotations are.
pub proof fn lemma_one_diagnostic_per_offence(annotations: Seq<AnnotationView>)
    ensures
        diagnostics_of(annotations) == annotations.filter(
            |annotation: AnnotationView| breaks_status_rule(annotation),
        ).map_values(|annotation: AnnotationView| status_rule(annotation)->0),
        diagnostics_of(annotations).len() == annotations.filter(
            |annotation: AnnotationView| breaks_status_rule(annotation),
        ).len(),
        lines_ascend(annotations) ==> diagnostic_lines_ascend(diagnostics_of(annotations)),
    decreases annotations.len(),
{
    reveal(Seq::filter);
    let offending = |annotation: AnnotationView| breaks_status_rule(annotation);
    let finding = |annotation: AnnotationView| status_rule(annotation)->0;
    if annotations.len() > 0 {
        lemma_one_diagnostic_per_offence(annotations.drop_last());
        assert(diagnostics_of(annotations) =~= annotations.filter(offending).map_values(finding));
    } else {
        assert(diagnostics_of(annotations) =~= annotations.filter(offending).map_values(finding));
    }
    if lines_ascend(annotations) {
        lemma_diagnostics_keep_order(annotations);
    }
}

/// In a document, a line that spells an `@response` with a status code between 100 and 599
/// gets no diagnostic.
pub proof fn lemma_valid_response_line_is_clean(content: Seq<char>, line: int)
    requires
        0 <= line < lines_of(content).len(),
        line_annotation(lines_of(content), line) is Some,
        line_annotation(lines_of(content), line)->0.kind == AnnotationKind::Response,
        line_annotation(lines_of(content), line)->0.status is Some,
        is_valid_status(line_annotation(lines_of(content), line)->0.status->0),
    ensures
        forall|k: int|
            0 <= k < diagnostics_of(annotations_of(content)).len() ==> (#[trigger] diagnostics_of(
                annotations_of(content),
            )[k]).line != line,
{
    let annotations = annotations_of(content);
    lemma_annotations_in_document_order(content);
    assert forall|k: int| 0 <= k < diagnostics_of(annotations).len() implies (
    #[trigger] diagnostics_of(annotations)[k]).line != line by {
        lemma_diagnostic_source(annotations, k);
        let j = choose|j: int|
            0 <= j < annotations.len() && status_rule(#[trigger] annotations[j]) == Some(
                diagnostics_of(annotations)[k],
            );
        assert(line_annotation(lines_of(content), annotations[j].line as int) == Some(
            annotations[j],
        ));
    }
}

/// In a document, a line in the block above a marker that spells an `@response` with a status
/// code outside 100 to 599 gets exactly one diagnostic: an error whose message names the fault
/// and the code.
pub proof fn lemma_invalid_response_line_is_reported(content: Seq<char>, line: int)
    requires
        in_some_block(lines_of(content), line),
        line_annotation(lines_of(content), line) is Some,
        line_annotation(lines_of(content), line)->0.kind == AnnotationKind::Response,
        line_annotation(lines_of(content), line)->0.status is Some,
        !is_valid_status(line_annotation(lines_of(content), line)->0.status->0),
    ensures
        exists|k: int|
            0 <= k < diagnostics_of(annotations_of(content)).len() && {
                let diagnostic = #[trigger] diagnostics_of(annotations_of(content))[k];
                &&& diagnostic.line == line
                &&& diagnostic.severity == DiagnosticSeverity::Error
                &&& diagnostic.message == status_message(
                    line_annotation(lines_of(content), line)->0.status->0,
                )
                &&& "Invalid HTTP status code"@.is_prefix_of(diagnostic.message)
                &&& forall|j: int|
                    0 <= j < diagnostics_of(annotations_of(content)).len() && j != k ==> (
                    #[trigger] diagnostics_of(annotations_of(content))[j]).line != line
            },
{
    let lines = lines_of(content);
    let annotations = annotations_of(content);
    let annotation = line_annotation(lines, line)->0;
    let marker = choose|marker: int| block_holds(lines, marker, line);
    lemma_block_is_longest_run(lines, marker);
    lemma_annotation_keeps_line(trimmed(lines[line]), line as nat);
    lemma_annotations_are_block_lines(content, annotation);
    lemma_annotations_in_document_order(content);
    let i = choose|i: int| 0 <= i < annotations.len() && annotations[i] == annotation;
    lemma_invalid_status_gets_one_error(annotations, i);
}

/// A document gets one diagnostic for each of its `@response` annotations with a status code
/// out of range, and the diagnostics come in ascending order of lines.
pub proof fn lemma_document_diagnostics(content: Seq<char>)
    ensures
        diagnostics_of(annotations_of(content)).len() == annotations_of(content).filter(
            |annotation: AnnotationView| breaks_status_rule(annotation),
        ).len(),
        diagnostic_lines_ascend(diagnostics_of(annotations_of(content))),
{
    lemma_annotations_in_document_order(content);
    lemma_one_diagnostic_per_offence(annotations_of(content));
}

/// Checking is a function of the annotations: two checks of annotations that are equal by
/// value give diagnostics that are equal by value.
pub proof fn lemma_check_is_repeatable(
    annotations: &Vec<Annotation>,
    again: &Vec<Annotation>,
    first: Vec<Diagnostic>,
    second: Vec<Diagnostic>,
)
    requires
        annotations.deep_view() == again.deep_view(),
        call_ensures(check_annotations, (annotations,), first),
        call_ensures(check_annotations, (again,), second),
    ensures
        first.deep_view() == second.deep_view(),
{
}

/// Validating is a function of the text: two validations of the same text give diagnostics
/// that are equal by value.
pub proof fn lemma_validation_is_repeatable(
    content: &str,
    again: &str,
    first: Vec<Diagnostic>,
    second: Vec<Diagnostic>,
)
    requires
        content@ == again@,
        call_ensures(validate_annotations, (content,), first),
        call_ensures(validate_annotations, (again,), second),
    ensures
        first.deep_view() == second.deep_view(),
{
}

} // verus!
