//! The list of validators of a project, and what is published after they
//! ran.

use vstd::prelude::*;
use crate::diagnostics::{DiagnosticView, DocumentId, DocumentIdView, FindingView};
use crate::file_paths::FilePathValidator;
use crate::project::{Project, ProjectFileView, ProjectView};
use crate::ship_log::validator::ShipLogValidator;
use crate::text::{contains_text, holds_text, lemma_filter_step, lemma_map_push, lemma_views_add, lemma_views_push, same_text, views};
use crate::validation::{change_emissions, clearing, clearings, copy_uris, documents_of, emissions, emit_diagnostics, is_clean, project_after_change, project_after_validation, reported_version, stays_reported, uris_of, each_once, names_uri, ErrorSet, PublishDiagnostics, PublishView, Validator};

verus! {

/// One of the validators that a project can have.
#[derive(Debug)]
pub enum RegisteredValidator {
    ShipLog(ShipLogValidator),
    FilePath(FilePathValidator),
}

impl RegisteredValidator {
    /// Whether a change of the documents `changed` is a reason to run the
    /// validator again.
    pub open spec fn concerned_by(&self, changed: Seq<Seq<char>>, project: ProjectView) -> bool {
        match self {
            RegisteredValidator::ShipLog(v) => v.concerned_by(changed, project),
            RegisteredValidator::FilePath(v) => v.concerned_by(changed, project),
        }
    }

    /// Whether `findings` is what the validator may find in `project`.
    pub open spec fn may_report(&self, project: ProjectView, findings: Seq<FindingView>) -> bool {
        match self {
            RegisteredValidator::ShipLog(v) => v.may_report(project, findings),
            RegisteredValidator::FilePath(v) => v.may_report(project, findings),
        }
    }

    /// Whether the validator runs: always when all run, else when the change
    /// concerns it.
    pub open spec fn runs(&self, changed: Option<Seq<Seq<char>>>, project: ProjectView) -> bool {
        match changed {
            Some(changed) => self.concerned_by(changed, project),
            None => true,
        }
    }

    /// Whether a change of the documents `changed_paths` is a reason to run
    /// the validator again.
    pub fn should_invalidate(&self, changed_paths: &Vec<String>, project: &Project) -> (r: bool)
        ensures
            r == self.concerned_by(views(changed_paths@), project@),
    {
        match self {
            RegisteredValidator::ShipLog(v) => v.should_invalidate(changed_paths, project),
            RegisteredValidator::FilePath(v) => v.should_invalidate(changed_paths, project),
        }
    }

    /// The findings of the validator in `project`.
    pub fn validate(&self, project: &Project) -> (r: ErrorSet)
        ensures
            self.may_report(project@, views(r@)),
    {
        match self {
            RegisteredValidator::ShipLog(v) => v.validate(project),
            RegisteredValidator::FilePath(v) => v.validate(project),
        }
    }
}

/// Whether `findings` is what the validators may find, one after the other:
/// all of them where `changed` is `None`, else those that the change concerns.
pub open spec fn may_collect(
    validators: Seq<RegisteredValidator>,
    changed: Option<Seq<Seq<char>>>,
    project: ProjectView,
    findings: Seq<FindingView>,
) -> bool
    decreases validators.len(),
{
    if validators.len() == 0 {
        findings.len() == 0
    } else {
        exists|cut: int|
            0 <= cut <= findings.len() && may_collect(
                validators.drop_last(),
                changed,
                project,
                #[trigger] findings.take(cut),
            ) && if validators.last().runs(changed, project) {
                validators.last().may_report(project, findings.skip(cut))
            } else {
                cut == findings.len()
            }
    }
}

/// The validators of a project, in the order in which they run.
#[derive(Debug)]
pub struct MainValidator {
    pub validators: Vec<RegisteredValidator>,
}

/// The texts of a list of strings, where there is one.
pub open spec fn opt_views(changed: Option<&Vec<String>>) -> Option<Seq<Seq<char>>> {
    match changed {
        Some(list) => Some(views(list@)),
        None => None,
    }
}

/// `reported_version` gives the version of the first document with the URI,
/// and nothing exactly when there is none.
pub proof fn lemma_reported_version(documents: Seq<DocumentIdView>, uri: Seq<char>)
    ensures
        match reported_version(documents, uri) {
            Some(v) => exists|i: int|
                0 <= i < documents.len() && documents[i].uri == uri && documents[i].version == v
                    && forall|j: int| 0 <= j < i ==> documents[j].uri != uri,
            None => forall|j: int| 0 <= j < documents.len() ==> documents[j].uri != uri,
        },
    decreases documents.len(),
{
    if documents.len() > 0 {
        let front = documents.drop_last();
        lemma_reported_version(front, uri);
        match reported_version(front, uri) {
            Some(v) => {
                let i = choose|i: int|
                    0 <= i < front.len() && front[i].uri == uri && front[i].version == v
                        && forall|j: int| 0 <= j < i ==> front[j].uri != uri;
                assert(documents[i] == front[i]);
                assert forall|j: int| 0 <= j < i implies documents[j].uri != uri by {
                    assert(documents[j] == front[j]);
                }
            },
            None => {
                assert forall|j: int| 0 <= j < documents.len() - 1 implies documents[j].uri
                    != uri by {
                    assert(documents[j] == front[j]);
                }
                if documents.last().uri == uri {
                    let i = documents.len() - 1;
                    assert(documents[i].uri == uri && documents[i].version
                        == documents.last().version);
                }
            },
        }
    }
}

/// The version of the first of `documents` with the URI `uri`.
fn find_reported_version(documents: &Vec<DocumentId>, uri: &str) -> (r: Option<i32>)
    ensures
        r == reported_version(views(documents@), uri@),
{
    let ghost all = views(documents@);
    proof {
        lemma_reported_version(all, uri@);
    }
    let mut i: usize = 0;
    while i < documents.len()
        invariant
            i <= documents@.len(),
            all == views(documents@),
            forall|j: int| 0 <= j < i ==> all[j].uri != uri@,
            match reported_version(all, uri@) {
                Some(v) => exists|k: int|
                    0 <= k < all.len() && all[k].uri == uri@ && all[k].version == v && forall|j: int|
                        0 <= j < k ==> all[j].uri != uri@,
                None => forall|j: int| 0 <= j < all.len() ==> all[j].uri != uri@,
            },
        decreases documents@.len() - i,
    {
        assert(all[i as int] == documents@[i as int]@);
        if same_text(documents[i].uri.as_str(), uri) {
            return Some(documents[i].version);
        }
        i += 1;
    }
    None
}

/// Whether one of `documents` has the URI `uri`.
fn is_reported(documents: &Vec<DocumentId>, uri: &str) -> (r: bool)
    ensures
        r == names_uri(views(documents@), uri@),
{
    let mut i: usize = 0;
    while i < documents.len()
        invariant
            i <= documents@.len(),
            forall|j: int| 0 <= j < i ==> views(documents@)[j].uri != uri@,
        decreases documents@.len() - i,
    {
        assert(views(documents@)[i as int] == documents@[i as int]@);
        if same_text(documents[i].uri.as_str(), uri) {
            return true;
        }
        i += 1;
    }
    false
}

/// The reported documents after a full run: no URI twice; each is the first
/// document of the findings with its URI; and every URI of the findings is
/// among them. So the reported documents are the set of documents that carry
/// a finding.
pub proof fn lemma_each_document_is_reported_once(documents: Seq<DocumentIdView>)
    ensures
        forall|i: int, j: int|
            0 <= i < j < each_once(documents).len() ==> (#[trigger] each_once(documents)[i]).uri
                != (#[trigger] each_once(documents)[j]).uri,
        forall|k: int|
            0 <= k < each_once(documents).len() ==> documents.contains(
                #[trigger] each_once(documents)[k],
            ) && reported_version(documents, each_once(documents)[k].uri) == Some(
                each_once(documents)[k].version,
            ),
        forall|i: int|
            0 <= i < documents.len() ==> names_uri(
                each_once(documents),
                (#[trigger] documents[i]).uri,
            ),
    decreases documents.len(),
{
    if documents.len() > 0 {
        let front = documents.drop_last();
        let last = documents.last();
        let rest = each_once(front);
        let all = each_once(documents);
        lemma_each_document_is_reported_once(front);
        assert forall|k: int| 0 <= k < all.len() implies documents.contains(#[trigger] all[k])
            && reported_version(documents, all[k].uri) == Some(all[k].version) by {
            if k < rest.len() {
                assert(all[k] == rest[k]);
                let at = choose|at: int| 0 <= at < front.len() && front[at] == rest[k];
                assert(documents[at] == rest[k]);
            } else {
                assert(all[k] == last);
                assert(documents[documents.len() - 1] == last);
                lemma_reported_version(front, last.uri);
                if reported_version(front, last.uri) is Some {
                    let at = choose|at: int| 0 <= at < front.len() && front[at].uri == last.uri;
                    assert(names_uri(rest, front[at].uri));
                }
            }
        }
        assert forall|i: int| 0 <= i < documents.len() implies names_uri(
            all,
            (#[trigger] documents[i]).uri,
        ) by {
            if i < front.len() {
                assert(front[i] == documents[i]);
                let at = choose|at: int| 0 <= at < rest.len() && rest[at].uri == front[i].uri;
                assert(all[at] == rest[at]);
            } else if names_uri(rest, last.uri) {
            } else {
                assert(all[all.len() - 1].uri == last.uri);
            }
        }
        assert forall|i: int, j: int| 0 <= i < j < all.len() implies (#[trigger] all[i]).uri != (
        #[trigger] all[j]).uri by {
            if j < rest.len() {
                assert(all[i] == rest[i] && all[j] == rest[j]);
            } else {
                assert(all[i] == rest[i]);
            }
        }
    }
}

impl Default for MainValidator {
    /// No validators at all.
    fn default() -> (r: Self)
        ensures
            r.validators@.len() == 0,
    {
        Self { validators: Vec::new() }
    }
}

impl MainValidator {
    /// The validators of a project: the ship log, then the file paths.
    pub fn new() -> (r: Self)
        ensures
            r.validators@.len() == 2,
            r.validators@[0] matches RegisteredValidator::ShipLog(v) && v.systems@.len() == 0
                && v.planets@.len() == 0 && v.baseline@.entry_ids.len() == 0
                && v.baseline@.fact_ids.len() == 0 && v.baseline@.entries.len() == 0,
            r.validators@[1] matches RegisteredValidator::FilePath(v)
                && v.body_schema_file_paths@.len() == 0 && v.references@.len() == 0,
    {
        let mut validators: Vec<RegisteredValidator> = Vec::new();
        validators.push(RegisteredValidator::ShipLog(ShipLogValidator::prepare()));
        validators.push(RegisteredValidator::FilePath(FilePathValidator::prepare()));
        Self { validators }
    }

    /// Runs the validators, one after the other, and gathers what they find:
    /// all of them where `changed_paths` is `None`, else those that the change
    /// concerns.
    pub fn collect(&self, changed_paths: Option<&Vec<String>>, project: &Project) -> (r: ErrorSet)
        ensures
            may_collect(self.validators@, opt_views(changed_paths), project@, views(r@)),
    {
        let ghost changed = opt_views(changed_paths);
        let mut errors: ErrorSet = Vec::new();
        let mut i: usize = 0;
        proof {
            assert(self.validators@.take(0).len() == 0);
        }
        while i < self.validators.len()
            invariant
                i <= self.validators@.len(),
                changed == opt_views(changed_paths),
                may_collect(self.validators@.take(i as int), changed, project@, views(errors@)),
            decreases self.validators@.len() - i,
        {
            let validator = &self.validators[i];
            let ghost before = views(errors@);
            let runs = match changed_paths {
                Some(list) => validator.should_invalidate(list, project),
                None => true,
            };
            proof {
                assert(self.validators@.take(i + 1).drop_last() =~= self.validators@.take(
                    i as int,
                ));
                assert(self.validators@.take(i + 1).last() == *validator);
            }
            let ghost added = Seq::<FindingView>::empty();
            if runs {
                let mut found = validator.validate(project);
                proof {
                    lemma_views_add(errors@, found@);
                    added = views(found@);
                }
                errors.append(&mut found);
            }
            proof {
                let ran = self.validators@.take(i + 1);
                let after = views(errors@);
                let cut = before.len() as int;
                assert(after =~= before + added);
                assert(after.take(cut) =~= before);
                assert(after.skip(cut) =~= added);
                assert(validator.runs(changed, project@) == runs);
                assert(may_collect(ran.drop_last(), changed, project@, after.take(cut)));
                assert(may_collect(ran, changed, project@, after));
            }
            i += 1;
        }
        assert(self.validators@.take(self.validators@.len() as int) =~= self.validators@);
        errors
    }

    /// What is published for the findings `errors` of all validators, and the
    /// project afterwards: the reported documents are the documents of the
    /// findings, each URI once, whatever was reported before.
    pub fn publish_all(errors: &ErrorSet, project: &mut Project) -> (r: Vec<PublishDiagnostics>)
        ensures
            final(project)@ == project_after_validation(views(errors@), old(project)@),
            views(r@) == emissions(views(errors@)),
    {
        let ghost findings = views(errors@);
        let mut reported: Vec<DocumentId> = Vec::new();
        let mut i: usize = 0;
        proof {
            assert(views(reported@) =~= each_once(documents_of(findings).take(0)));
        }
        while i < errors.len()
            invariant
                i <= errors@.len(),
                findings == views(errors@),
                views(reported@) == each_once(documents_of(findings).take(i as int)),
            decreases errors@.len() - i,
        {
            let document = &errors[i].0;
            proof {
                let all = documents_of(findings);
                assert(all.take(i + 1).drop_last() =~= all.take(i as int));
                assert(all.take(i + 1).last() == document@);
            }
            if !is_reported(&reported, document.uri.as_str()) {
                let copy = document.duplicate();
                proof {
                    lemma_views_push(reported@, copy);
                }
                reported.push(copy);
            }
            i += 1;
        }
        assert(documents_of(findings).take(errors@.len() as int) =~= documents_of(findings));
        project.files_with_diagnostics = reported;
        emit_diagnostics(errors)
    }

    /// Runs every validator, and says what is to be published: one emission
    /// for each document with a finding. The documents of the findings are the
    /// reported ones afterwards.
    pub fn force_validate(&self, project: &mut Project) -> (r: Vec<PublishDiagnostics>)
        ensures
            exists|findings: Seq<FindingView>| #[trigger]
                may_collect(self.validators@, None, old(project)@, findings) && final(project)@
                    == project_after_validation(findings, old(project)@) && views(r@)
                    == emissions(findings),
    {
        let errors = self.collect(None, project);
        let r = Self::publish_all(&errors, project);
        proof {
            assert(may_collect(self.validators@, None, old(project)@, views(errors@)));
        }
        r
    }

    /// What is published after a change of the documents `changed_paths` for
    /// the findings `errors` of the validators that ran: one emission for each
    /// document with a finding, then an empty one for each file of the project
    /// without. Of the documents reported before, the changed ones without a
    /// finding are let go.
    pub fn publish_change(errors: &ErrorSet, changed_paths: &Vec<String>, project: &mut Project)
        -> (r: Vec<PublishDiagnostics>)
        ensures
            final(project)@ == project_after_change(
                views(errors@),
                views(changed_paths@),
                old(project)@,
            ),
            views(r@) == change_emissions(views(errors@), old(project)@),
    {
        let ghost findings = views(errors@);
        let ghost start = project@;
        let ghost reported = start.files_with_diagnostics;
        let uris_with_diagnostics = copy_uris(errors);
        let mut out = emit_diagnostics(errors);
        let ghost emitted = views(out@);
        let ghost clean = is_clean(uris_of(findings));
        let ghost clear = clearing(reported);
        {
            let files = project.iter_all();
            let ghost all = start.all_files();
            let mut i: usize = 0;
            proof {
                assert(views(files@) =~= all);
                assert(all.take(0).filter(clean) =~= Seq::<ProjectFileView>::empty()) by {
                    reveal(Seq::filter);
                }
                assert(emitted + Seq::<ProjectFileView>::empty().map_values(clear) =~= emitted);
            }
            while i < files.len()
                invariant
                    i <= files@.len(),
                    all == views(files@),
                    reported == views(project.files_with_diagnostics@),
                    views(uris_with_diagnostics@) == uris_of(findings),
                    clean == is_clean(uris_of(findings)),
                    clear == clearing(reported),
                    views(out@) == emitted + all.take(i as int).filter(clean).map_values(clear),
                decreases files@.len() - i,
            {
                let file = files[i];
                proof {
                    lemma_filter_step(all, i as int, clean);
                    assert(all[i as int] == file@);
                }
                if !contains_text(&uris_with_diagnostics, file.id.uri.as_str()) {
                    let emission = PublishDiagnostics {
                        uri: file.id.uri.clone(),
                        version: find_reported_version(
                            &project.files_with_diagnostics,
                            file.id.uri.as_str(),
                        ),
                        diagnostics: Vec::new(),
                    };
                    proof {
                        let kept = all.take(i as int).filter(clean);
                        lemma_map_push(kept, all[i as int], clear);
                        lemma_views_push(out@, emission);
                        assert(emission@.diagnostics =~= Seq::<DiagnosticView>::empty());
                        assert(emission@ == clear(all[i as int]));
                        assert((emitted + kept.map_values(clear)).push(emission@) =~= emitted
                            + kept.map_values(clear).push(emission@));
                    }
                    out.push(emission);
                }
                i += 1;
            }
            assert(all.take(files@.len() as int) =~= all);
        }
        let ghost stays = stays_reported(views(changed_paths@), uris_of(findings));
        let mut kept: Vec<DocumentId> = Vec::new();
        let mut i: usize = 0;
        proof {
            assert(views(kept@) =~= Seq::<DocumentIdView>::empty());
            assert(reported.take(0).filter(stays) =~= Seq::<DocumentIdView>::empty()) by {
                reveal(Seq::filter);
            }
        }
        while i < project.files_with_diagnostics.len()
            invariant
                i <= project.files_with_diagnostics@.len(),
                project@ == start,
                reported == views(project.files_with_diagnostics@),
                views(uris_with_diagnostics@) == uris_of(findings),
                stays == stays_reported(views(changed_paths@), uris_of(findings)),
                views(kept@) == reported.take(i as int).filter(stays),
            decreases project.files_with_diagnostics@.len() - i,
        {
            let document = &project.files_with_diagnostics[i];
            proof {
                lemma_filter_step(reported, i as int, stays);
                assert(reported[i as int] == document@);
            }
            if !contains_text(changed_paths, document.uri.as_str()) || contains_text(
                &uris_with_diagnostics,
                document.uri.as_str(),
            ) {
                let copy = document.duplicate();
                proof {
                    lemma_views_push(kept@, copy);
                }
                kept.push(copy);
            }
            i += 1;
        }
        assert(reported.take(project.files_with_diagnostics@.len() as int) =~= reported);
        project.files_with_diagnostics = kept;
        out
    }

    /// Runs the validators that a change of the documents `changed_paths`
    /// concerns, and says what is to be published: one emission for each
    /// document with a finding, then an empty one for each file of the project
    /// without.
    pub fn on_change(&self, changed_paths: Vec<String>, project: &mut Project) -> (r: Vec<
        PublishDiagnostics,
    >)
        ensures
            exists|findings: Seq<FindingView>| #[trigger]
                may_collect(
                    self.validators@,
                    Some(views(changed_paths@)),
                    old(project)@,
                    findings,
                ) && final(project)@ == project_after_change(
                    findings,
                    views(changed_paths@),
                    old(project)@,
                ) && views(r@) == change_emissions(findings, old(project)@),
    {
        let errors = self.collect(Some(&changed_paths), project);
        let r = Self::publish_change(&errors, &changed_paths, project);
        proof {
            assert(may_collect(
                self.validators@,
                Some(views(changed_paths@)),
                old(project)@,
                views(errors@),
            ));
        }
        r
    }
}

/// Running the validators again on an unchanged project gives the same
/// findings: as many, the same ones, in the same order. Nothing adds up over
/// repeated runs.
pub proof fn lemma_findings_are_determined(
    validators: Seq<RegisteredValidator>,
    changed: Option<Seq<Seq<char>>>,
    project: ProjectView,
    first: Seq<FindingView>,
    second: Seq<FindingView>,
)
    requires
        may_collect(validators, changed, project, first),
        may_collect(validators, changed, project, second),
    ensures
        first == second,
    decreases validators.len(),
{
    if validators.len() == 0 {
        assert(first =~= second);
    } else {
        let a = choose|cut: int|
            0 <= cut <= first.len() && may_collect(
                validators.drop_last(),
                changed,
                project,
                #[trigger] first.take(cut),
            ) && if validators.last().runs(changed, project) {
                validators.last().may_report(project, first.skip(cut))
            } else {
                cut == first.len()
            };
        let b = choose|cut: int|
            0 <= cut <= second.len() && may_collect(
                validators.drop_last(),
                changed,
                project,
                #[trigger] second.take(cut),
            ) && if validators.last().runs(changed, project) {
                validators.last().may_report(project, second.skip(cut))
            } else {
                cut == second.len()
            };
        lemma_findings_are_determined(
            validators.drop_last(),
            changed,
            project,
            first.take(a),
            second.take(b),
        );
        if !validators.last().runs(changed, project) {
            assert(first.skip(a) =~= second.skip(b));
        }
        assert(first =~= first.take(a) + first.skip(a));
        assert(second =~= second.take(b) + second.skip(b));
    }
}

/// After a change, each file of the project without a finding gets an
/// emission that clears it, whichever file was changed: an emission without
/// diagnostics under the URI of the file. Where the file was reported before,
/// the emission carries the version that it was reported with.
pub proof fn lemma_clean_file_is_cleared(findings: Seq<FindingView>, project: ProjectView, i: int)
    requires
        0 <= i < project.all_files().len(),
        !holds_text(uris_of(findings), project.all_files()[i].uri),
    ensures
        change_emissions(findings, project).contains(
            PublishView {
                uri: project.all_files()[i].uri,
                version: reported_version(
                    project.files_with_diagnostics,
                    project.all_files()[i].uri,
                ),
                diagnostics: Seq::empty(),
            },
        ),
        (exists|j: int|
            0 <= j < project.files_with_diagnostics.len() && project.files_with_diagnostics[j].uri
                == project.all_files()[i].uri) ==> reported_version(
            project.files_with_diagnostics,
            project.all_files()[i].uri,
        ) is Some,
{
    let files = project.all_files();
    let clean = is_clean(uris_of(findings));
    let clear = clearing(project.files_with_diagnostics);
    let kept = files.filter(clean);
    lemma_kept_by_filter(files, clean, i);
    let at = choose|at: int| 0 <= at < kept.len() && kept[at] == files[i];
    let cleared = clearings(files, project.files_with_diagnostics, uris_of(findings));
    assert(cleared[at] == clear(files[i]));
    let all = change_emissions(findings, project);
    assert(all[emissions(findings).len() + at] == cleared[at]);
    lemma_reported_version(project.files_with_diagnostics, files[i].uri);
}

/// What a filter accepts of a list stands in the filtered list.
proof fn lemma_kept_by_filter<A>(list: Seq<A>, keep: spec_fn(A) -> bool, i: int)
    requires
        0 <= i < list.len(),
        keep(list[i]),
    ensures
        list.filter(keep).contains(list[i]),
    decreases list.len(),
{
    reveal(Seq::filter);
    let front = list.drop_last();
    let kept = list.filter(keep);
    if i < front.len() {
        assert(front[i] == list[i]);
        lemma_kept_by_filter(front, keep, i);
        let at = choose|at: int|
            0 <= at < front.filter(keep).len() && front.filter(keep)[at] == list[i];
        assert(kept[at] == list[i]);
    } else {
        assert(kept[kept.len() - 1] == list[i]);
    }
}

} // verus!
