//! The ship-log engine as a validator.

use vstd::prelude::*;
use crate::diagnostics::FindingView;
use crate::planets::Planet;
use crate::project::{Project, ProjectFile, ProjectFileView, ProjectView};
use crate::ship_log::baseline::{Baseline, BaselineView};
use crate::ship_log::checks::validation_findings;
use crate::ship_log::lookup::{project_context, with_ship_logs};
use crate::ship_log::{ShipLogContext, ShipLogContextView};
use crate::systems::StarSystem;
use crate::text::{contains_text, holds_text, views};
use crate::validation::{ErrorSet, Validator};

verus! {

/// The validator of the ship log. It holds what is read for it outside: the
/// catalogue of the base game, and the star-system and planet configs of the
/// project that could be read.
#[derive(Debug)]
pub struct ShipLogValidator {
    pub baseline: Baseline,
    pub systems: Vec<StarSystem>,
    pub planets: Vec<Planet>,
}

/// Two contexts hold the same, but for the paths under which documents are
/// kept.
pub open spec fn same_but_paths(a: ShipLogContextView, b: ShipLogContextView) -> bool {
    a == (ShipLogContextView { relative_to_astro_object: a.relative_to_astro_object, ..b })
}

/// Under which paths the ship-log files are kept changes nothing else of the
/// context.
pub proof fn lemma_paths_change_nothing_else(
    a: ShipLogContextView,
    b: ShipLogContextView,
    files: Seq<ProjectFileView>,
    first: Seq<Option<Seq<char>>>,
    second: Seq<Option<Seq<char>>>,
)
    requires
        same_but_paths(a, b),
        first.len() == files.len(),
        second.len() == files.len(),
    ensures
        same_but_paths(with_ship_logs(a, files, first), with_ship_logs(b, files, second)),
    decreases files.len(),
{
    if files.len() > 0 {
        lemma_paths_change_nothing_else(
            a,
            b,
            files.drop_last(),
            first.drop_last(),
            second.drop_last(),
        );
    }
}

/// No path for any of `count` files.
pub open spec fn no_paths(count: nat) -> Seq<Option<Seq<char>>> {
    Seq::new(count, |i: int| None)
}

/// What the ship log of a project is found to break: the findings of the
/// rules on the context of the project.
pub open spec fn ship_log_findings(
    project: ProjectView,
    systems: Seq<StarSystem>,
    planets: Seq<Planet>,
    baseline: BaselineView,
) -> Seq<FindingView> {
    validation_findings(
        project_context(
            project.ship_log_files,
            no_paths(project.ship_log_files.len()),
            systems,
            planets,
            baseline,
        ),
        project.system_files,
        baseline,
    )
}

/// Whether one of `files` has its URI among `changed`.
pub open spec fn touches(files: Seq<ProjectFileView>, changed: Seq<Seq<char>>) -> bool {
    exists|i: int| 0 <= i < files.len() && holds_text(changed, files[i].uri)
}

/// Whether one of `files` has its URI among `changed_paths`.
fn any_changed(files: &Vec<ProjectFile>, changed_paths: &Vec<String>) -> (r: bool)
    ensures
        r == touches(views(files@), views(changed_paths@)),
{
    let mut i: usize = 0;
    while i < files.len()
        invariant
            i <= files@.len(),
            forall|j: int| 0 <= j < i ==> !holds_text(views(changed_paths@), views(files@)[j].uri),
        decreases files@.len() - i,
    {
        assert(views(files@)[i as int] == files@[i as int]@);
        if contains_text(changed_paths, files[i].id.uri.as_str()) {
            return true;
        }
        i += 1;
    }
    false
}

impl Default for ShipLogValidator {
    /// The validator without a catalogue and without configs.
    fn default() -> (r: Self)
        ensures
            r.baseline@.entry_ids.len() == 0,
            r.baseline@.fact_ids.len() == 0,
            r.baseline@.entries.len() == 0,
            r.systems@.len() == 0,
            r.planets@.len() == 0,
    {
        ShipLogValidator {
            baseline: Baseline { entry_ids: Vec::new(), fact_ids: Vec::new(), entries: Vec::new() },
            systems: Vec::new(),
            planets: Vec::new(),
        }
    }
}

impl Validator for ShipLogValidator {
    open spec fn concerned_by(&self, changed: Seq<Seq<char>>, project: ProjectView) -> bool {
        touches(project.ship_log_files, changed) || touches(project.system_files, changed)
    }

    open spec fn may_report(&self, project: ProjectView, findings: Seq<FindingView>) -> bool {
        findings == ship_log_findings(project, self.systems@, self.planets@, self.baseline@)
    }

    /// The validator without a catalogue and without configs.
    fn prepare() -> (r: Self)
        ensures
            r.baseline@.entry_ids.len() == 0,
            r.baseline@.fact_ids.len() == 0,
            r.baseline@.entries.len() == 0,
            r.systems@.len() == 0,
            r.planets@.len() == 0,
    {
        ShipLogValidator::default()
    }

    /// A change concerns the ship log when it is one of a ship-log document or
    /// of a star-system config.
    fn should_invalidate(&self, changed_paths: &Vec<String>, project: &Project) -> (r: bool) {
        any_changed(&project.ship_log_files, changed_paths) || any_changed(
            &project.system_files,
            changed_paths,
        )
    }

    /// Builds the context of the project anew and runs the rules on it.
    fn validate(&self, project: &Project) -> (r: ErrorSet) {
        let ctx = ShipLogContext::from_project(
            project,
            &self.systems,
            &self.planets,
            &self.baseline,
        );
        proof {
            let files = project@.ship_log_files;
            let paths = choose|paths: Seq<Option<Seq<char>>>|
                paths.len() == files.len() && ctx@ == #[trigger] project_context(
                    files,
                    paths,
                    self.systems@,
                    self.planets@,
                    self.baseline@,
                );
            let start = crate::ship_log::lookup::with_planets(
                crate::ship_log::lookup::with_systems(ShipLogContextView::empty(), self.systems@),
                self.planets@,
            );
            lemma_paths_change_nothing_else(start, start, files, paths, no_paths(files.len()));
        }
        ctx.validate(project, &self.baseline)
    }
}

} // verus!
