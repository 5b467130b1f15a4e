//! The orchestration of validators: which of them run on a change, and what
//! is published for which document afterwards.

use vstd::prelude::*;
use crate::diagnostics::{Diagnostic, DiagnosticView, DocumentIdView, Finding, FindingView};
use crate::project::{Project, ProjectFileView, ProjectView};
use crate::sorting::{lemma_stable_order, sort_order, stable_order};
use crate::text::{holds_text, lemma_views_push, views};

pub use crate::main_validator::{MainValidator, RegisteredValidator};

verus! {

/// The findings of a validator, each with its document.
pub type ErrorSet = Vec<Finding>;

/// A check of the whole project that yields findings.
pub trait Validator {
    /// Whether a change of the documents `changed` is a reason to run the
    /// validator again.
    spec fn concerned_by(&self, changed: Seq<Seq<char>>, project: ProjectView) -> bool;

    /// Whether `findings` is what the validator may find in `project`.
    spec fn may_report(&self, project: ProjectView, findings: Seq<FindingView>) -> bool;

    /// The validator as it is before anything was handed to it.
    fn prepare() -> Self where Self: Sized;

    /// Whether a change of the documents `changed_paths` is a reason to run
    /// the validator again.
    fn should_invalidate(&self, changed_paths: &Vec<String>, project: &Project) -> (r: bool)
        ensures
            r == self.concerned_by(views(changed_paths@), project@),
    ;

    /// The findings of the validator in `project`.
    fn validate(&self, project: &Project) -> (r: ErrorSet)
        ensures
            self.may_report(project@, views(r@)),
    ;
}

/// What is published for one document: its diagnostics, all of them, and the
/// version that they were found in.
#[derive(Debug, PartialEq, Eq)]
pub struct PublishDiagnostics {
    pub uri: String,
    pub version: Option<i32>,
    pub diagnostics: Vec<Diagnostic>,
}

/// What a `PublishDiagnostics` holds.
pub struct PublishView {
    pub uri: Seq<char>,
    pub version: Option<i32>,
    pub diagnostics: Seq<DiagnosticView>,
}

impl View for PublishDiagnostics {
    type V = PublishView;

    open spec fn view(&self) -> PublishView {
        PublishView { uri: self.uri@, version: self.version, diagnostics: views(self.diagnostics@) }
    }
}

/// The documents of some findings.
pub open spec fn documents_of(findings: Seq<FindingView>) -> Seq<DocumentIdView> {
    Seq::new(findings.len(), |i: int| findings[i].0)
}

/// The URIs of the documents of some findings.
pub open spec fn uris_of(findings: Seq<FindingView>) -> Seq<Seq<char>> {
    Seq::new(findings.len(), |i: int| findings[i].0.uri)
}

/// The diagnostics of some findings.
pub open spec fn diagnostics_of(findings: Seq<FindingView>) -> Seq<DiagnosticView> {
    Seq::new(findings.len(), |i: int| findings[i].1)
}

/// What is published for the findings `buffer` of one document: all their
/// diagnostics, under the URI and the version of the last.
pub open spec fn emission_of(buffer: Seq<FindingView>) -> PublishView {
    PublishView {
        uri: buffer.last().0.uri,
        version: Some(buffer.last().0.version),
        diagnostics: diagnostics_of(buffer),
    }
}

/// Gives the finding at an index.
pub open spec fn pick_finding(findings: Seq<FindingView>) -> spec_fn(usize) -> FindingView {
    |i: usize| findings[i as int]
}

/// The findings by the URI of their document, those of one document in the
/// order in which they were found.
pub open spec fn by_document(findings: Seq<FindingView>) -> Seq<FindingView> {
    stable_order(uris_of(findings), findings.len()).map_values(pick_finding(findings))
}

/// One emission for each run of findings of one document.
pub open spec fn grouped(sorted: Seq<FindingView>) -> Seq<PublishView>
    decreases sorted.len(),
{
    if sorted.len() == 0 {
        Seq::empty()
    } else {
        let rest = grouped(sorted.drop_last());
        let next = sorted.last();
        if rest.len() > 0 && rest.last().uri == next.0.uri {
            rest.drop_last().push(
                PublishView {
                    uri: next.0.uri,
                    version: Some(next.0.version),
                    diagnostics: rest.last().diagnostics.push(next.1),
                },
            )
        } else {
            rest.push(
                PublishView {
                    uri: next.0.uri,
                    version: Some(next.0.version),
                    diagnostics: seq![next.1],
                },
            )
        }
    }
}

/// What is published for some findings: one emission for each document that
/// has a finding, by URI, with all its diagnostics.
pub open spec fn emissions(findings: Seq<FindingView>) -> Seq<PublishView> {
    grouped(by_document(findings))
}

/// Whether one of `documents` has the URI `uri`.
pub open spec fn names_uri(documents: Seq<DocumentIdView>, uri: Seq<char>) -> bool {
    exists|i: int| 0 <= i < documents.len() && documents[i].uri == uri
}

/// The documents, each URI once: of the documents with one URI the first
/// stays, at its place among the others that stay.
pub open spec fn each_once(documents: Seq<DocumentIdView>) -> Seq<DocumentIdView>
    decreases documents.len(),
{
    if documents.len() == 0 {
        Seq::empty()
    } else {
        let rest = each_once(documents.drop_last());
        if names_uri(rest, documents.last().uri) {
            rest
        } else {
            rest.push(documents.last())
        }
    }
}

/// The version of the first of `documents` with the URI `uri`.
pub open spec fn reported_version(documents: Seq<DocumentIdView>, uri: Seq<char>) -> Option<i32>
    decreases documents.len(),
{
    if documents.len() == 0 {
        None
    } else {
        match reported_version(documents.drop_last(), uri) {
            Some(v) => Some(v),
            None => if documents.last().uri == uri {
                Some(documents.last().version)
            } else {
                None
            },
        }
    }
}

/// Accepts the files that have no finding among the URIs `with_findings`.
pub open spec fn is_clean(with_findings: Seq<Seq<char>>) -> spec_fn(ProjectFileView) -> bool {
    |file: ProjectFileView| !holds_text(with_findings, file.uri)
}

/// The emission that clears a file: no diagnostics, under the version that the
/// file was last reported with, if it was.
pub open spec fn clearing(reported: Seq<DocumentIdView>) -> spec_fn(ProjectFileView) -> PublishView {
    |file: ProjectFileView|
        PublishView {
            uri: file.uri,
            version: reported_version(reported, file.uri),
            diagnostics: Seq::empty(),
        }
}

/// The emissions that clear the files without findings.
pub open spec fn clearings(
    files: Seq<ProjectFileView>,
    reported: Seq<DocumentIdView>,
    with_findings: Seq<Seq<char>>,
) -> Seq<PublishView> {
    files.filter(is_clean(with_findings)).map_values(clearing(reported))
}

/// Accepts the documents that were not changed or have a finding.
pub open spec fn stays_reported(changed: Seq<Seq<char>>, with_findings: Seq<Seq<char>>) -> spec_fn(
    DocumentIdView,
) -> bool {
    |document: DocumentIdView|
        !holds_text(changed, document.uri) || holds_text(with_findings, document.uri)
}

/// What is published after a change, given the findings of the validators
/// that ran: the emissions of the findings, then one clearing emission for
/// each file of the project without a finding.
pub open spec fn change_emissions(findings: Seq<FindingView>, project: ProjectView) -> Seq<
    PublishView,
> {
    emissions(findings) + clearings(
        project.all_files(),
        project.files_with_diagnostics,
        uris_of(findings),
    )
}

/// The project after a change of the documents `changed`, given the findings
/// of the validators that ran: of the documents reported before, the changed
/// ones without a finding are let go.
pub open spec fn project_after_change(
    findings: Seq<FindingView>,
    changed: Seq<Seq<char>>,
    project: ProjectView,
) -> ProjectView {
    ProjectView {
        files_with_diagnostics: project.files_with_diagnostics.filter(
            stays_reported(changed, uris_of(findings)),
        ),
        ..project
    }
}

/// The project after all validators ran, given their findings: the reported
/// documents are those of the findings, each URI once, and nothing that was
/// reported before. The files stay as they are.
pub open spec fn project_after_validation(findings: Seq<FindingView>, project: ProjectView)
    -> ProjectView {
    ProjectView { files_with_diagnostics: each_once(documents_of(findings)), ..project }
}

/// What is published for the findings `current_buffer` of one document.
pub fn internal_emit(current_buffer: &ErrorSet) -> (r: PublishDiagnostics)
    requires
        current_buffer@.len() > 0,
    ensures
        r@ == emission_of(views(current_buffer@)),
{
    let last = &current_buffer[current_buffer.len() - 1];
    let mut diagnostics: Vec<Diagnostic> = Vec::new();
    let mut i: usize = 0;
    while i < current_buffer.len()
        invariant
            i <= current_buffer@.len(),
            views(diagnostics@) == diagnostics_of(views(current_buffer@)).take(i as int),
        decreases current_buffer@.len() - i,
    {
        let diagnostic = current_buffer[i].1.duplicate();
        proof {
            lemma_views_push(diagnostics@, diagnostic);
            assert(diagnostics_of(views(current_buffer@)).take(i as int).push(diagnostic@)
                =~= diagnostics_of(views(current_buffer@)).take(i + 1));
        }
        diagnostics.push(diagnostic);
        i += 1;
    }
    assert(diagnostics_of(views(current_buffer@)).take(current_buffer@.len() as int)
        =~= diagnostics_of(views(current_buffer@)));
    PublishDiagnostics { uri: last.0.uri.clone(), version: Some(last.0.version), diagnostics }
}

/// The URIs of the documents of `errors`, copied.
pub(crate) fn copy_uris(errors: &ErrorSet) -> (r: Vec<String>)
    ensures
        views(r@) == uris_of(views(errors@)),
{
    let mut uris: Vec<String> = Vec::new();
    let mut i: usize = 0;
    while i < errors.len()
        invariant
            i <= errors@.len(),
            views(uris@) == uris_of(views(errors@)).take(i as int),
        decreases errors@.len() - i,
    {
        let uri = errors[i].0.uri.clone();
        proof {
            lemma_views_push(uris@, uri);
            assert(uris_of(views(errors@)).take(i as int).push(uri@) =~= uris_of(
                views(errors@),
            ).take(i + 1));
        }
        uris.push(uri);
        i += 1;
    }
    assert(uris_of(views(errors@)).take(errors@.len() as int) =~= uris_of(views(errors@)));
    uris
}

/// A copy of a finding.
fn copy_finding(finding: &Finding) -> (r: Finding)
    ensures
        r@ == finding@,
{
    (finding.0.duplicate(), finding.1.duplicate())
}

/// What is published for the findings `errors`: one emission for each
/// document that has a finding, by URI, with all its diagnostics.
pub fn emit_diagnostics(errors: &ErrorSet) -> (r: Vec<PublishDiagnostics>)
    ensures
        views(r@) == emissions(views(errors@)),
{
    let ghost findings = views(errors@);
    let ghost sorted = by_document(findings);
    let uris = copy_uris(errors);
    let order = sort_order(&uris);
    let count: usize = errors.len();
    proof {
        assert(views(uris@).len() == uris@.len());
        assert(uris_of(findings).len() == findings.len());
        assert(findings.len() == count);
        lemma_stable_order(uris_of(findings), findings.len());
        assert(sorted.take(0) =~= Seq::<FindingView>::empty());
    }
    let mut out: Vec<PublishDiagnostics> = Vec::new();
    let mut current_buffer: ErrorSet = Vec::new();
    let mut p: usize = 0;
    assert(views(out@) =~= Seq::<PublishView>::empty());
    while p < order.len()
        invariant
            p <= order@.len(),
            findings == views(errors@),
            sorted == by_document(findings),
            order@ == stable_order(uris_of(findings), findings.len()),
            order@.len() == findings.len(),
            crate::sorting::in_stable_order(uris_of(findings), order@, findings.len()),
            p == 0 ==> out@.len() == 0 && current_buffer@.len() == 0,
            p > 0 ==> current_buffer@.len() > 0 && grouped(sorted.take(p as int)) == views(
                out@,
            ).push(emission_of(views(current_buffer@))),
        decreases order@.len() - p,
    {
        let i = order[p];
        let next = copy_finding(&errors[i]);
        proof {
            assert(sorted[p as int] == findings[i as int]);
            assert(sorted.take(p + 1).drop_last() =~= sorted.take(p as int));
            assert(sorted.take(p + 1).last() == next@);
            lemma_views_push(current_buffer@, next);
        }
        if p > 0 && current_buffer[current_buffer.len() - 1].0.uri == next.0.uri {
            proof {
                let before = views(current_buffer@);
                assert(diagnostics_of(before.push(next@)) =~= diagnostics_of(before).push(next@.1));
                assert(views(out@).push(emission_of(before)).drop_last() =~= views(out@));
            }
            current_buffer.push(next);
        } else {
            if p > 0 {
                let emission = internal_emit(&current_buffer);
                proof {
                    lemma_views_push(out@, emission);
                }
                out.push(emission);
                current_buffer.clear();
            }
            proof {
                assert(views(current_buffer@.push(next)) =~= seq![next@]);
                assert(diagnostics_of(seq![next@]) =~= seq![next@.1]);
                if p == 0 {
                    assert(grouped(sorted.take(0)) =~= Seq::<PublishView>::empty());
                    assert(views(out@) =~= Seq::<PublishView>::empty());
                }
            }
            current_buffer.push(next);
        }
        p += 1;
    }
    proof {
        assert(sorted.take(order@.len() as int) =~= sorted);
    }
    if current_buffer.len() > 0 {
        let emission = internal_emit(&current_buffer);
        proof {
            lemma_views_push(out@, emission);
        }
        out.push(emission);
    }
    out
}

} // verus!
