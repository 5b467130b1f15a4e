//! The check of the file paths that planet configs name.
//!
//! Which values of a config are file paths is read from the schema of the
//! configs. Finding those values in a config and looking for the files on disk
//! is done outside; this validator is handed each value that was found, with
//! its place and with whether the file is there.

use vstd::prelude::*;
use vstd::string::*;
use crate::diagnostics::{CodeView, Diagnostic, DiagnosticSeverity, DiagnosticView, DocumentId, DocumentIdView, FindingView};
use crate::json::{json_of_text, Json};
use crate::project::{Project, ProjectView};
use crate::text::{lemma_filter_step, lemma_map_push, lemma_views_add, lemma_views_push, views};
use crate::utils::error_codes::{get_error_code, CONFIG_FILE_PATH_NOT_FOUND, ERROR_SOURCE};
use crate::utils::{walk_is_cut, walk_reaches_depth, find_paths_with_x_prop, json_diag_range, json_pos_range_to_diag_range, schema_paths, JsonRange};
use crate::validation::{ErrorSet, Validator};

verus! {

pub type JsonPathSet = Vec<String>;

/// How deep the schema is looked into. A schema whose definitions refer to
/// each other in a circle has no end; the walk through it stops here.
pub const SCHEMA_DEPTH: usize = 64;

/// A file path that a config names: where it stands, and whether a file or a
/// folder is there.
#[derive(Debug)]
pub struct PathReference {
    pub config: DocumentId,
    pub file_path: String,
    pub range: JsonRange,
    pub exists: bool,
}

/// What a `PathReference` holds.
pub struct PathReferenceView {
    pub config: DocumentIdView,
    pub file_path: Seq<char>,
    pub range: JsonRange,
    pub exists: bool,
}

impl View for PathReference {
    type V = PathReferenceView;

    open spec fn view(&self) -> PathReferenceView {
        PathReferenceView {
            config: self.config@,
            file_path: self.file_path@,
            range: self.range,
            exists: self.exists,
        }
    }
}

/// The validator of file paths. It holds the paths of the schema at which
/// configs name files, and the file paths that were found in the planet
/// configs.
#[derive(Debug)]
pub struct FilePathValidator {
    pub body_schema_file_paths: JsonPathSet,
    pub references: Vec<PathReference>,
}

/// What is said of a file path that names nothing.
pub open spec fn not_found_message(file_path: Seq<char>) -> Seq<char> {
    "File path "@ + file_path + " not found"@
}

/// Accepts the references to what is not there.
pub open spec fn is_missing() -> spec_fn(PathReferenceView) -> bool {
    |reference: PathReferenceView| !reference.exists
}

/// The finding for a file path that names nothing.
pub open spec fn missing_finding() -> spec_fn(PathReferenceView) -> FindingView {
    |reference: PathReferenceView|
        (
            reference.config,
            DiagnosticView {
                range: json_diag_range(reference.range),
                severity: Some(DiagnosticSeverity::Error),
                code: Some(CodeView::String(CONFIG_FILE_PATH_NOT_FOUND@)),
                source: Some(ERROR_SOURCE@),
                message: not_found_message(reference.file_path),
            },
        )
}

/// The findings of the file-path check: one for each reference to what is
/// not there.
pub open spec fn path_findings(references: Seq<PathReferenceView>) -> Seq<FindingView> {
    references.filter(is_missing()).map_values(missing_finding())
}

/// The paths at which the text of a schema marks file paths; none where the
/// text is not JSON.
pub open spec fn file_paths_of_schema(schema: Seq<char>) -> Seq<Seq<char>> {
    match json_of_text(schema) {
        Some(json) => schema_paths("x-file-path"@, Seq::empty(), json, json, SCHEMA_DEPTH as nat),
        None => Seq::empty(),
    }
}

/// Whether the text of a schema holds marked paths deeper than it is looked
/// into.
pub open spec fn schema_is_cut(schema: Seq<char>) -> bool {
    match json_of_text(schema) {
        Some(json) => walk_is_cut(json, json, SCHEMA_DEPTH as nat),
        None => false,
    }
}

impl Default for FilePathValidator {
    /// The validator without schema paths and without references.
    fn default() -> (r: Self)
        ensures
            r.body_schema_file_paths@.len() == 0,
            r.references@.len() == 0,
    {
        FilePathValidator { body_schema_file_paths: Vec::new(), references: Vec::new() }
    }
}

impl FilePathValidator {
    /// Puts behind `files` the paths at which the schema `schema` marks file
    /// paths, and says whether that is all of them: a schema is looked into
    /// `SCHEMA_DEPTH` nodes deep, and what lies deeper is left out. A schema
    /// that is not JSON adds none.
    pub fn prepare_from_schema(schema: &str, files: &mut JsonPathSet) -> (whole: bool)
        ensures
            views(final(files)@) == views(old(files)@) + file_paths_of_schema(schema@),
            whole == !schema_is_cut(schema@),
    {
        match Json::parse(schema) {
            Some(json) => {
                let mut found = find_paths_with_x_prop("x-file-path", "", &json, &json, SCHEMA_DEPTH);
                proof {
                    lemma_views_add(files@, found@);
                    reveal_strlit("");
                    assert(""@ =~= Seq::<char>::empty());
                }
                files.append(&mut found);
                !walk_reaches_depth(&json, &json, SCHEMA_DEPTH)
            },
            None => {
                assert(views(files@) + Seq::<Seq<char>>::empty() =~= views(files@));
                true
            },
        }
    }

    /// Puts behind `errors` one finding for each of `references` that names
    /// neither a file nor a folder.
    pub fn validate_file_or_folder_paths(&self, references: &Vec<PathReference>, errors: &mut ErrorSet)
        ensures
            views(final(errors)@) == views(old(errors)@) + path_findings(views(references@)),
    {
        let ghost start = views(errors@);
        let ghost all = views(references@);
        proof {
            assert(all.take(0).filter(is_missing()) =~= Seq::<PathReferenceView>::empty()) by {
                reveal(Seq::filter);
            }
            assert(start + Seq::<PathReferenceView>::empty().map_values(missing_finding())
                =~= start);
        }
        let mut i: usize = 0;
        while i < references.len()
            invariant
                i <= references@.len(),
                all == views(references@),
                views(errors@) == start + all.take(i as int).filter(is_missing()).map_values(
                    missing_finding(),
                ),
            decreases references@.len() - i,
        {
            let reference = &references[i];
            proof {
                lemma_filter_step(all, i as int, is_missing());
            }
            if !reference.exists {
                let message = String::from_str("File path ").concat(
                    reference.file_path.as_str(),
                ).concat(" not found");
                let found = (
                    reference.config.duplicate(),
                    Diagnostic {
                        range: json_pos_range_to_diag_range(reference.range),
                        severity: Some(DiagnosticSeverity::Error),
                        code: get_error_code(CONFIG_FILE_PATH_NOT_FOUND),
                        source: Some(String::from_str(ERROR_SOURCE)),
                        message,
                    },
                );
                proof {
                    let kept = all.take(i as int).filter(is_missing());
                    lemma_map_push(kept, all[i as int], missing_finding());
                    lemma_views_push(errors@, found);
                    assert(found@ == missing_finding()(all[i as int]));
                    assert((start + kept.map_values(missing_finding())).push(found@) =~= start
                        + kept.map_values(missing_finding()).push(found@));
                }
                errors.push(found);
            }
            i += 1;
        }
        assert(all.take(references@.len() as int) =~= all);
    }
}

impl Validator for FilePathValidator {
    open spec fn concerned_by(&self, changed: Seq<Seq<char>>, project: ProjectView) -> bool {
        true
    }

    open spec fn may_report(&self, project: ProjectView, findings: Seq<FindingView>) -> bool {
        findings == path_findings(views(self.references@))
    }

    /// The validator without schema paths and without references.
    fn prepare() -> (r: Self)
        ensures
            r.body_schema_file_paths@.len() == 0,
            r.references@.len() == 0,
    {
        FilePathValidator::default()
    }

    /// Any change may touch a file path.
    fn should_invalidate(&self, changed_paths: &Vec<String>, project: &Project) -> (r: bool) {
        true
    }

    /// The findings for the references that the validator holds.
    fn validate(&self, project: &Project) -> (r: ErrorSet) {
        let mut errors: ErrorSet = Vec::new();
        assert(views(errors@) =~= Seq::<FindingView>::empty());
        self.validate_file_or_folder_paths(&self.references, &mut errors);
        assert(Seq::<FindingView>::empty() + path_findings(views(self.references@))
            =~= path_findings(views(self.references@)));
        errors
    }
}

} // verus!
