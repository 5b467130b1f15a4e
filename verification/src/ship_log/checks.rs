//! The rules of the ship log: no identifier twice, none that the base game has
//! taken, no curiosity that nothing declares, no source that is no entry.

use vstd::prelude::*;
use vstd::string::*;
use crate::diagnostics::{CodeView, Diagnostic, DiagnosticSeverity, DiagnosticView, Finding, FindingView};
use crate::json::{json_of_text, texts_under, Json};
use crate::project::{Project, ProjectFile, ProjectFileView};
use crate::ship_log::baseline::{is_known_curiosity, known_curiosities, Baseline, BaselineView};
use crate::ship_log::{IdSet, IdView, ShipLogContext, ShipLogContextView, ID};
use crate::sorting::{in_stable_order, lemma_stable_order, sort_order, stable_order};
use crate::text::{contains_text, holds_text, lemma_filter_step, lemma_map_push, lemma_text_less_irreflexive, lemma_text_less_transitive, lemma_views_add, lemma_views_push, same_text, text_less, views};
use crate::validation::ErrorSet;
use crate::utils::error_codes::{get_error_code, ERROR_SOURCE, SHIPLOG_DUPLICATE_ID, SHIPLOG_MISSING_CURIOSITY, SHIPLOG_MISSING_SOURCE_ID, SHIPLOG_VANILLA_ID};

verus! {

/// The finding at the place of `id`, with the code `code` and the message
/// `message`: an error of this tool.
pub open spec fn finding_at(id: IdView, code: Seq<char>, message: Seq<char>) -> FindingView {
    (
        id.source_file,
        DiagnosticView {
            range: id.range,
            severity: Some(DiagnosticSeverity::Error),
            code: Some(CodeView::String(code)),
            source: Some(ERROR_SOURCE@),
            message,
        },
    )
}

/// What is said of an identifier of the namespace `name` that stands twice.
pub open spec fn duplicate_message(name: Seq<char>, value: Seq<char>) -> Seq<char> {
    "Duplicate "@ + name + " ID: `"@ + value + "`"@
}

/// What is said of an identifier of the namespace `name` that the base game
/// has taken.
pub open spec fn taken_message(name: Seq<char>, value: Seq<char>) -> Seq<char> {
    name + " ID `"@ + value + "` is taken by the base-game"@
}

/// What is said of a curiosity that nothing declares.
pub open spec fn unknown_curiosity_message(value: Seq<char>) -> Seq<char> {
    "Unknown Curiosity: `"@ + value + "`. Please define it in a system config"@
}

/// What is said of a source that is no entry.
pub open spec fn unknown_entry_message(value: Seq<char>) -> Seq<char> {
    "Unknown Entry: `"@ + value + "`"@
}

/// The finding for an identifier of the namespace `name` that stands twice.
pub open spec fn duplicate_finding(name: Seq<char>) -> spec_fn(IdView) -> FindingView {
    |id: IdView| finding_at(id, SHIPLOG_DUPLICATE_ID@, duplicate_message(name, id.value))
}

/// The finding for an identifier of the namespace `name` that the base game
/// has taken.
pub open spec fn taken_finding(name: Seq<char>) -> spec_fn(IdView) -> FindingView {
    |id: IdView| finding_at(id, SHIPLOG_VANILLA_ID@, taken_message(name, id.value))
}

/// The finding for a reference to a curiosity that nothing declares.
pub open spec fn unknown_curiosity_finding() -> spec_fn(IdView) -> FindingView {
    |id: IdView| finding_at(id, SHIPLOG_MISSING_CURIOSITY@, unknown_curiosity_message(id.value))
}

/// The finding for a source that is no entry.
pub open spec fn unknown_entry_finding() -> spec_fn(IdView) -> FindingView {
    |id: IdView| finding_at(id, SHIPLOG_MISSING_SOURCE_ID@, unknown_entry_message(id.value))
}

/// The values of some identifiers.
pub open spec fn values_of(ids: Seq<IdView>) -> Seq<Seq<char>> {
    Seq::new(ids.len(), |i: int| ids[i].value)
}

/// Whether the text at `i` stands at another index of `keys` too.
pub open spec fn repeated(keys: Seq<Seq<char>>, i: int) -> bool {
    exists|j: int| 0 <= j < keys.len() && j != i && keys[j] == keys[i]
}

/// Accepts the indices whose text stands more than once in `keys`.
pub open spec fn is_repeated(keys: Seq<Seq<char>>) -> spec_fn(usize) -> bool {
    |i: usize| repeated(keys, i as int)
}

/// Gives the identifier at an index.
pub open spec fn pick(ids: Seq<IdView>) -> spec_fn(usize) -> IdView {
    |i: usize| ids[i as int]
}

/// The identifiers whose value stands more than once among `ids`: by value,
/// and those of one value in the order in which they stand in `ids`.
pub open spec fn duplicated_ids(ids: Seq<IdView>) -> Seq<IdView> {
    stable_order(values_of(ids), ids.len()).filter(is_repeated(values_of(ids))).map_values(
        pick(ids),
    )
}

/// The findings of the duplicate check on the namespace `name`: one for each
/// identifier whose value stands more than once.
pub open spec fn duplicate_findings(ids: Seq<IdView>, name: Seq<char>) -> Seq<FindingView> {
    duplicated_ids(ids).map_values(duplicate_finding(name))
}

/// Accepts the identifiers whose value is among `reserved`.
pub open spec fn is_taken(reserved: Seq<Seq<char>>) -> spec_fn(IdView) -> bool {
    |id: IdView| holds_text(reserved, id.value)
}

/// The identifiers whose value the base game has taken.
pub open spec fn taken_ids(ids: Seq<IdView>, reserved: Seq<Seq<char>>) -> Seq<IdView> {
    ids.filter(is_taken(reserved))
}

/// The findings of the reserved-identifier check on the namespace `name`.
pub open spec fn taken_findings(ids: Seq<IdView>, name: Seq<char>, reserved: Seq<Seq<char>>) -> Seq<
    FindingView,
> {
    taken_ids(ids, reserved).map_values(taken_finding(name))
}

/// Accepts the references to a curiosity that neither the base game has nor
/// `custom` holds.
pub open spec fn is_unknown_curiosity(custom: Seq<Seq<char>>) -> spec_fn(IdView) -> bool {
    |id: IdView| !holds_text(known_curiosities(), id.value) && !holds_text(custom, id.value)
}

/// The references to curiosities that nothing declares.
pub open spec fn unknown_curiosities(references: Seq<IdView>, custom: Seq<Seq<char>>) -> Seq<
    IdView,
> {
    references.filter(is_unknown_curiosity(custom))
}

/// The findings of the curiosity check.
pub open spec fn curiosity_findings(references: Seq<IdView>, custom: Seq<Seq<char>>) -> Seq<
    FindingView,
> {
    unknown_curiosities(references, custom).map_values(unknown_curiosity_finding())
}

/// Accepts the sources that are neither among `entries` nor among `reserved`.
pub open spec fn is_unknown_entry(entries: Seq<Seq<char>>, reserved: Seq<Seq<char>>) -> spec_fn(
    IdView,
) -> bool {
    |id: IdView| !holds_text(entries, id.value) && !holds_text(reserved, id.value)
}

/// The sources that are no entry of the project and none of the base game.
pub open spec fn unknown_sources(
    references: Seq<IdView>,
    entries: Seq<Seq<char>>,
    reserved: Seq<Seq<char>>,
) -> Seq<IdView> {
    references.filter(is_unknown_entry(entries, reserved))
}

/// The findings of the source check.
pub open spec fn source_findings(
    references: Seq<IdView>,
    entries: Seq<Seq<char>>,
    reserved: Seq<Seq<char>>,
) -> Seq<FindingView> {
    unknown_sources(references, entries, reserved).map_values(unknown_entry_finding())
}

/// The curiosities that a system config declares: the `id` of each item of
/// its `curiosities` list that has one, where it is a string.
pub open spec fn declared_curiosities(config: Json) -> Seq<Seq<char>> {
    match config.member("curiosities"@) {
        Some(list) => match list.items() {
            Some(items) => texts_under(items, "id"@),
            None => Seq::empty(),
        },
        None => Seq::empty(),
    }
}

/// The curiosities that the text of a system config declares; none where the
/// text is not JSON.
pub open spec fn curiosities_of_text(contents: Seq<char>) -> Seq<Seq<char>> {
    match json_of_text(contents) {
        Some(config) => declared_curiosities(config),
        None => Seq::empty(),
    }
}

/// The curiosities that the system configs of a project declare, all of them.
pub open spec fn custom_curiosities(files: Seq<ProjectFileView>) -> Seq<Seq<char>>
    decreases files.len(),
{
    if files.len() == 0 {
        Seq::empty()
    } else {
        custom_curiosities(files.drop_last()) + curiosities_of_text(files.last().contents)
    }
}

/// All findings of the ship-log rules, check by check.
pub open spec fn validation_findings(
    ctx: ShipLogContextView,
    system_files: Seq<ProjectFileView>,
    baseline: BaselineView,
) -> Seq<FindingView> {
    duplicate_findings(ctx.astro_object_ids, "Astro Object"@) + duplicate_findings(
        ctx.entry_ids,
        "Entry"@,
    ) + duplicate_findings(ctx.fact_ids, "Fact"@) + taken_findings(
        ctx.entry_ids,
        "Entry"@,
        baseline.entry_ids,
    ) + taken_findings(ctx.fact_ids, "Fact"@, baseline.fact_ids) + curiosity_findings(
        ctx.curiosity_references,
        custom_curiosities(system_files),
    ) + source_findings(ctx.source_id_references, values_of(ctx.entry_ids), baseline.entry_ids)
}

/// The finding at the place of `id`, with the code `code` and the message
/// `message`.
fn make_finding(id: &ID, code: &str, message: String) -> (r: Finding)
    ensures
        r@ == finding_at(id@, code@, message@),
{
    (
        id.source_file.duplicate(),
        Diagnostic {
            range: id.range,
            severity: Some(DiagnosticSeverity::Error),
            code: get_error_code(code),
            source: Some(String::from_str(ERROR_SOURCE)),
            message,
        },
    )
}

/// The values of `ids`, copied.
fn copy_values(ids: &IdSet) -> (r: Vec<String>)
    ensures
        views(r@) == values_of(views(ids@)),
{
    let mut values: Vec<String> = Vec::new();
    let mut i: usize = 0;
    while i < ids.len()
        invariant
            i <= ids@.len(),
            views(values@) == values_of(views(ids@)).take(i as int),
        decreases ids@.len() - i,
    {
        let value = ids[i].value.clone();
        proof {
            lemma_views_push(values@, value);
            assert(values_of(views(ids@)).take(i as int).push(value@) =~= values_of(
                views(ids@),
            ).take(i + 1));
        }
        values.push(value);
        i += 1;
    }
    assert(values_of(views(ids@)).take(ids@.len() as int) =~= values_of(views(ids@)));
    values
}

/// Whether one of `ids` has the value `value`.
fn has_value(ids: &IdSet, value: &str) -> (r: bool)
    ensures
        r == holds_text(values_of(views(ids@)), value@),
{
    let mut i: usize = 0;
    while i < ids.len()
        invariant
            i <= ids@.len(),
            forall|j: int| 0 <= j < i ==> values_of(views(ids@))[j] != value@,
        decreases ids@.len() - i,
    {
        if same_text(ids[i].value.as_str(), value) {
            assert(values_of(views(ids@))[i as int] == value@);
            return true;
        }
        i += 1;
    }
    false
}

/// In a stable order, a text that stands more than once has a neighbour with
/// the same text, and only such a text has one.
proof fn lemma_repeated_has_neighbour(keys: Seq<Seq<char>>, order: Seq<usize>, p: int)
    requires
        order.len() == keys.len(),
        keys.len() <= usize::MAX,
        in_stable_order(keys, order, keys.len()),
        forall|k: usize| k < keys.len() ==> order.contains(k),
        0 <= p < order.len(),
    ensures
        repeated(keys, order[p] as int) <==> (p > 0 && keys[order[p - 1] as int]
            == keys[order[p] as int]) || (p + 1 < order.len() && keys[order[p + 1] as int]
            == keys[order[p] as int]),
{
    let here = keys[order[p] as int];
    lemma_text_less_irreflexive(here);
    if p > 0 && keys[order[p - 1] as int] == here {
        assert(crate::sorting::goes_before(keys, order[p - 1], order[p]));
        assert(order[p - 1] != order[p]);
        assert(repeated(keys, order[p] as int));
    }
    if p + 1 < order.len() && keys[order[p + 1] as int] == here {
        assert(crate::sorting::goes_before(keys, order[p], order[p + 1]));
        assert(order[p] != order[p + 1]);
        assert(repeated(keys, order[p] as int));
    }
    if repeated(keys, order[p] as int) {
        let j = choose|j: int| 0 <= j < keys.len() && j != order[p] as int && keys[j] == here;
        let k = j as usize;
        assert(order.contains(k));
        let q = choose|q: int| 0 <= q < order.len() && order[q] == k;
        assert(q != p);
        if q < p {
            let between = keys[order[p - 1] as int];
            assert(crate::sorting::goes_before(keys, order[p - 1], order[p]));
            if q < p - 1 {
                assert(crate::sorting::goes_before(keys, order[q], order[p - 1]));
                if text_less(here, between) && text_less(between, here) {
                    lemma_text_less_transitive(here, between, here);
                }
            }
            assert(between == here);
        } else {
            let between = keys[order[p + 1] as int];
            assert(crate::sorting::goes_before(keys, order[p], order[p + 1]));
            if q > p + 1 {
                assert(crate::sorting::goes_before(keys, order[p + 1], order[q]));
                if text_less(here, between) && text_less(between, here) {
                    lemma_text_less_transitive(here, between, here);
                }
            }
            assert(between == here);
        }
    }
}

impl ShipLogContext {
    /// The duplicate check on one namespace: behind `errors` comes one finding
    /// for each identifier of `set` whose value stands more than once, by
    /// value.
    pub fn validate_id_set_duplicates(&self, errors: &mut ErrorSet, id_name: &str, set: &IdSet)
        ensures
            views(final(errors)@) == views(old(errors)@) + duplicate_findings(
                views(set@),
                id_name@,
            ),
    {
        let ghost start = views(errors@);
        let ghost ids = views(set@);
        let ghost keys = values_of(ids);
        let values = copy_values(set);
        let order = sort_order(&values);
        let count: usize = set.len();
        proof {
            assert(keys.len() == count);
            lemma_stable_order(keys, keys.len());
            assert(order@.take(0).filter(is_repeated(keys)) =~= Seq::<usize>::empty()) by {
                reveal(Seq::filter);
            }
            assert(start + Seq::<usize>::empty().map_values(pick(ids)).map_values(
                duplicate_finding(id_name@),
            ) =~= start);
        }
        let mut p: usize = 0;
        while p < order.len()
            invariant
                p <= order@.len(),
                ids == views(set@),
                keys == values_of(ids),
                views(values@) == keys,
                order@ == stable_order(keys, keys.len()),
                order@.len() == keys.len(),
                keys.len() == set@.len(),
                keys.len() <= usize::MAX,
                in_stable_order(keys, order@, keys.len()),
                forall|k: usize| k < keys.len() ==> order@.contains(k),
                views(errors@) == start + order@.take(p as int).filter(
                    is_repeated(keys),
                ).map_values(pick(ids)).map_values(duplicate_finding(id_name@)),
            decreases order@.len() - p,
        {
            let i = order[p];
            let more = (p > 0 && values[order[p - 1]] == values[i]) || (p + 1 < order.len()
                && values[order[p + 1]] == values[i]);
            proof {
                lemma_repeated_has_neighbour(keys, order@, p as int);
                lemma_filter_step(order@, p as int, is_repeated(keys));
            }
            if more {
                let message = String::from_str("Duplicate ").concat(id_name).concat(
                    " ID: `",
                ).concat(set[i].value.as_str()).concat("`");
                let found = make_finding(&set[i], SHIPLOG_DUPLICATE_ID, message);
                proof {
                    let kept = order@.take(p as int).filter(is_repeated(keys));
                    lemma_map_push(kept, i, pick(ids));
                    lemma_map_push(kept.map_values(pick(ids)), ids[i as int], duplicate_finding(id_name@));
                    lemma_views_push(errors@, found);
                    assert(found@ == duplicate_finding(id_name@)(ids[i as int]));
                    assert((start + kept.map_values(pick(ids)).map_values(
                        duplicate_finding(id_name@),
                    )).push(found@) =~= start + kept.map_values(pick(ids)).map_values(
                        duplicate_finding(id_name@),
                    ).push(found@));
                }
                errors.push(found);
            }
            p += 1;
        }
        assert(order@.take(order@.len() as int) =~= order@);
    }

    /// The reserved-identifier check on one namespace: behind `errors` comes
    /// one finding for each identifier of `set` whose value is among `vanilla`.
    pub fn validate_id_taken(
        &self,
        errors: &mut ErrorSet,
        id_name: &str,
        set: &IdSet,
        vanilla: &Vec<String>,
    )
        ensures
            views(final(errors)@) == views(old(errors)@) + taken_findings(
                views(set@),
                id_name@,
                views(vanilla@),
            ),
    {
        let ghost start = views(errors@);
        let ghost ids = views(set@);
        let ghost keep = is_taken(views(vanilla@));
        let ghost make = taken_finding(id_name@);
        proof {
            assert(ids.take(0).filter(keep) =~= Seq::<IdView>::empty()) by {
                reveal(Seq::filter);
            }
            assert(start + Seq::<IdView>::empty().map_values(make) =~= start);
        }
        let mut i: usize = 0;
        while i < set.len()
            invariant
                i <= set@.len(),
                ids == views(set@),
                keep == is_taken(views(vanilla@)),
                make == taken_finding(id_name@),
                views(errors@) == start + ids.take(i as int).filter(keep).map_values(make),
            decreases set@.len() - i,
        {
            proof {
                lemma_filter_step(ids, i as int, keep);
            }
            if contains_text(vanilla, set[i].value.as_str()) {
                let message = String::from_str(id_name).concat(" ID `").concat(
                    set[i].value.as_str(),
                ).concat("` is taken by the base-game");
                let found = make_finding(&set[i], SHIPLOG_VANILLA_ID, message);
                proof {
                    let kept = ids.take(i as int).filter(keep);
                    lemma_map_push(kept, ids[i as int], make);
                    lemma_views_push(errors@, found);
                    assert(found@ == make(ids[i as int]));
                    assert((start + kept.map_values(make)).push(found@) =~= start
                        + kept.map_values(make).push(found@));
                }
                errors.push(found);
            }
            i += 1;
        }
        assert(ids.take(set@.len() as int) =~= ids);
    }
}

/// The curiosities that a system config declares.
pub fn read_declared_curiosities(config: &Json) -> (r: Vec<String>)
    ensures
        views(r@) == declared_curiosities(*config),
{
    match config.get("curiosities") {
        Some(list) => match list.as_array() {
            Some(items) => {
                return Json::collect_texts(items, "id");
            },
            None => {},
        },
        None => {},
    }
    let found: Vec<String> = Vec::new();
    assert(views(found@) =~= Seq::<Seq<char>>::empty());
    found
}

/// The curiosities that the system configs `files` declare, all of them. A
/// config that is not JSON declares none.
pub fn collect_custom_curiosities(files: &Vec<ProjectFile>) -> (r: Vec<String>)
    ensures
        views(r@) == custom_curiosities(views(files@)),
{
    let mut found: Vec<String> = Vec::new();
    let mut i: usize = 0;
    assert(views(found@) =~= Seq::<Seq<char>>::empty());
    assert(views(files@).take(0) =~= Seq::<ProjectFileView>::empty());
    while i < files.len()
        invariant
            i <= files@.len(),
            views(found@) == custom_curiosities(views(files@).take(i as int)),
        decreases files@.len() - i,
    {
        proof {
            assert(views(files@).take(i + 1).drop_last() =~= views(files@).take(i as int));
            assert(views(files@).take(i + 1).last() == files@[i as int]@);
        }
        match Json::parse(files[i].contents.as_str()) {
            Some(config) => {
                let mut declared = read_declared_curiosities(&config);
                proof {
                    lemma_views_add(found@, declared@);
                }
                found.append(&mut declared);
            },
            None => {
                assert(views(found@) + Seq::<Seq<char>>::empty() =~= views(found@));
            },
        }
        i += 1;
    }
    assert(views(files@).take(files@.len() as int) =~= views(files@));
    found
}

impl ShipLogContext {
    /// The curiosity check against the curiosities `custom` that the project
    /// declares: behind `errors` comes one finding for each reference to a
    /// curiosity that neither the base game has nor `custom` holds.
    pub fn validate_curiosities_against(&self, custom: &Vec<String>, errors: &mut ErrorSet)
        ensures
            views(final(errors)@) == views(old(errors)@) + curiosity_findings(
                self@.curiosity_references,
                views(custom@),
            ),
    {
        let ghost start = views(errors@);
        let ghost ids = views(self.curiosity_references@);
        let ghost keep = is_unknown_curiosity(views(custom@));
        let ghost make = unknown_curiosity_finding();
        proof {
            assert(ids.take(0).filter(keep) =~= Seq::<IdView>::empty()) by {
                reveal(Seq::filter);
            }
            assert(start + Seq::<IdView>::empty().map_values(make) =~= start);
        }
        let mut i: usize = 0;
        while i < self.curiosity_references.len()
            invariant
                i <= self.curiosity_references@.len(),
                ids == views(self.curiosity_references@),
                keep == is_unknown_curiosity(views(custom@)),
                make == unknown_curiosity_finding(),
                views(errors@) == start + ids.take(i as int).filter(keep).map_values(make),
            decreases self.curiosity_references@.len() - i,
        {
            let reference = &self.curiosity_references[i];
            proof {
                lemma_filter_step(ids, i as int, keep);
            }
            if !is_known_curiosity(reference.value.as_str()) && !contains_text(
                custom,
                reference.value.as_str(),
            ) {
                let message = String::from_str("Unknown Curiosity: `").concat(
                    reference.value.as_str(),
                ).concat("`. Please define it in a system config");
                let found = make_finding(reference, SHIPLOG_MISSING_CURIOSITY, message);
                proof {
                    let kept = ids.take(i as int).filter(keep);
                    lemma_map_push(kept, ids[i as int], make);
                    lemma_views_push(errors@, found);
                    assert(found@ == make(ids[i as int]));
                    assert((start + kept.map_values(make)).push(found@) =~= start
                        + kept.map_values(make).push(found@));
                }
                errors.push(found);
            }
            i += 1;
        }
        assert(ids.take(self.curiosity_references@.len() as int) =~= ids);
    }

    /// The curiosity check: behind `errors` comes one finding for each
    /// reference to a curiosity that neither the base game has nor any of the
    /// system configs `system_files` declares.
    pub fn validate_curiosity_references(
        &self,
        system_files: &Vec<ProjectFile>,
        errors: &mut ErrorSet,
    )
        ensures
            views(final(errors)@) == views(old(errors)@) + curiosity_findings(
                self@.curiosity_references,
                custom_curiosities(views(system_files@)),
            ),
    {
        let custom = collect_custom_curiosities(system_files);
        self.validate_curiosities_against(&custom, errors);
    }

    /// The source check: behind `errors` comes one finding for each source of a
    /// fact that is neither an entry of the project nor among the entries
    /// `vanilla` of the base game.
    pub fn validate_source_ids(&self, errors: &mut ErrorSet, vanilla: &Vec<String>)
        ensures
            views(final(errors)@) == views(old(errors)@) + source_findings(
                self@.source_id_references,
                values_of(self@.entry_ids),
                views(vanilla@),
            ),
    {
        let ghost start = views(errors@);
        let ghost ids = views(self.source_id_references@);
        let ghost keep = is_unknown_entry(values_of(self@.entry_ids), views(vanilla@));
        let ghost make = unknown_entry_finding();
        proof {
            assert(ids.take(0).filter(keep) =~= Seq::<IdView>::empty()) by {
                reveal(Seq::filter);
            }
            assert(start + Seq::<IdView>::empty().map_values(make) =~= start);
        }
        let mut i: usize = 0;
        while i < self.source_id_references.len()
            invariant
                i <= self.source_id_references@.len(),
                ids == views(self.source_id_references@),
                keep == is_unknown_entry(values_of(self@.entry_ids), views(vanilla@)),
                make == unknown_entry_finding(),
                views(errors@) == start + ids.take(i as int).filter(keep).map_values(make),
            decreases self.source_id_references@.len() - i,
        {
            let reference = &self.source_id_references[i];
            proof {
                lemma_filter_step(ids, i as int, keep);
            }
            if !has_value(&self.entry_ids, reference.value.as_str()) && !contains_text(
                vanilla,
                reference.value.as_str(),
            ) {
                let message = String::from_str("Unknown Entry: `").concat(
                    reference.value.as_str(),
                ).concat("`");
                let found = make_finding(reference, SHIPLOG_MISSING_SOURCE_ID, message);
                proof {
                    let kept = ids.take(i as int).filter(keep);
                    lemma_map_push(kept, ids[i as int], make);
                    lemma_views_push(errors@, found);
                    assert(found@ == make(ids[i as int]));
                    assert((start + kept.map_values(make)).push(found@) =~= start
                        + kept.map_values(make).push(found@));
                }
                errors.push(found);
            }
            i += 1;
        }
        assert(ids.take(self.source_id_references@.len() as int) =~= ids);
    }

    /// Runs all rules: the duplicate check on astro objects, entries and
    /// facts, the reserved-identifier check on entries and facts, the
    /// curiosity check and the source check, in this order.
    pub fn validate(&self, project: &Project, baseline: &Baseline) -> (errors: ErrorSet)
        ensures
            views(errors@) == validation_findings(self@, project@.system_files, baseline@),
    {
        let mut errors: ErrorSet = Vec::new();
        assert(views(errors@) =~= Seq::<FindingView>::empty());
        self.validate_id_set_duplicates(&mut errors, "Astro Object", &self.astro_object_ids);
        self.validate_id_set_duplicates(&mut errors, "Entry", &self.entry_ids);
        self.validate_id_set_duplicates(&mut errors, "Fact", &self.fact_ids);
        self.validate_id_taken(&mut errors, "Entry", &self.entry_ids, &baseline.entry_ids);
        self.validate_id_taken(&mut errors, "Fact", &self.fact_ids, &baseline.fact_ids);
        self.validate_curiosity_references(&project.system_files, &mut errors);
        self.validate_source_ids(&mut errors, &baseline.entry_ids);
        assert(views(errors@) =~= validation_findings(self@, project@.system_files, baseline@));
        errors
    }
}

} // verus!
