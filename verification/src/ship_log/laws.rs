//! What holds of the rules of the ship log, whatever the project.

use vstd::prelude::*;
use crate::diagnostics::FindingView;
use crate::project::ProjectFileView;
use crate::ship_log::baseline::BaselineView;
use crate::ship_log::checks::{curiosities_of_text, curiosity_findings, custom_curiosities, duplicate_finding, duplicate_findings, duplicated_ids, is_repeated, is_taken, is_unknown_curiosity, is_unknown_entry, pick, repeated, source_findings, taken_finding, taken_findings, taken_ids, unknown_curiosities, unknown_curiosity_finding, unknown_entry_finding, unknown_sources, validation_findings, values_of};
use crate::diagnostics::DocumentIdView;
use crate::ship_log::harvest::{id_of_element, is_element_child, lemma_tag_names_differ, new_draft, child_yield, document_yield, find_named, harvest_children, harvest_entry, unnamed, upsert_all, Harvest};
use crate::ship_log::Vector2;
use crate::xml::XmlNodeView;
use crate::ship_log::lookup::add_missing;
use crate::ship_log::{EntryView, IdView, ShipLogContextView};
use crate::text_map::{lemma_upsert, TextMapView};
use crate::sorting::{insert_by_key, lemma_stable_order, stable_order};
use crate::text::{holds_text, lemma_filter_add, lemma_text_less_irreflexive, text_less};

verus! {

/// Accepts the identifiers with the value `value`.
pub open spec fn with_value(value: Seq<char>) -> spec_fn(IdView) -> bool {
    |id: IdView| id.value == value
}

/// Accepts the indices at which `ids` has the value `value`.
pub open spec fn at_value(ids: Seq<IdView>, value: Seq<char>) -> spec_fn(usize) -> bool {
    |i: usize| ids[i as int].value == value
}

/// Accepts nothing.
pub open spec fn nothing() -> spec_fn(usize) -> bool {
    |i: usize| false
}

/// Whether the value `value` stands at two places of `ids`.
pub open spec fn occurs_twice(ids: Seq<IdView>, value: Seq<char>) -> bool {
    exists|i: int, j: int|
        0 <= i < j < ids.len() && (#[trigger] ids[i]).value == value && (#[trigger] ids[j]).value
            == value
}

/// The first `n` indices.
pub open spec fn indices(n: nat) -> Seq<usize> {
    Seq::new(n, |i: int| i as usize)
}

/// Filtering a mapped list is mapping the list filtered by what the filter
/// says of the mapped values.
proof fn lemma_filter_of_map<A, B>(
    list: Seq<A>,
    make: spec_fn(A) -> B,
    keep: spec_fn(B) -> bool,
    keep_before: spec_fn(A) -> bool,
)
    requires
        forall|i: int| 0 <= i < list.len() ==> keep_before(list[i]) == keep(make(list[i])),
    ensures
        list.map_values(make).filter(keep) == list.filter(keep_before).map_values(make),
    decreases list.len(),
{
    reveal(Seq::filter);
    if list.len() == 0 {
        assert(list.map_values(make).filter(keep) =~= list.filter(keep_before).map_values(make));
    } else {
        let front = list.drop_last();
        assert forall|i: int| 0 <= i < front.len() implies keep_before(front[i]) == keep(
            make(front[i]),
        ) by {
            assert(front[i] == list[i]);
        }
        lemma_filter_of_map(front, make, keep, keep_before);
        assert(list.map_values(make).drop_last() =~= front.map_values(make));
        assert(list.map_values(make).last() == make(list.last()));
        if keep_before(list.last()) {
            assert(front.filter(keep_before).push(list.last()).map_values(make)
                =~= front.filter(keep_before).map_values(make).push(make(list.last())));
        }
    }
}

/// Filtering twice is filtering once by both.
proof fn lemma_filter_of_filter<A>(
    list: Seq<A>,
    first: spec_fn(A) -> bool,
    second: spec_fn(A) -> bool,
    both: spec_fn(A) -> bool,
)
    requires
        forall|i: int| 0 <= i < list.len() ==> both(list[i]) == (first(list[i]) && second(list[i])),
    ensures
        list.filter(first).filter(second) == list.filter(both),
    decreases list.len(),
{
    reveal(Seq::filter);
    if list.len() > 0 {
        let front = list.drop_last();
        assert forall|i: int| 0 <= i < front.len() implies both(front[i]) == (first(front[i])
            && second(front[i])) by {
            assert(front[i] == list[i]);
        }
        lemma_filter_of_filter(front, first, second, both);
        if first(list.last()) {
            assert(front.filter(first).push(list.last()).drop_last() =~= front.filter(first));
        }
    }
}

/// A filter that accepts nothing of a list leaves nothing.
proof fn lemma_filter_nothing<A>(list: Seq<A>, keep: spec_fn(A) -> bool)
    requires
        forall|i: int| 0 <= i < list.len() ==> !keep(list[i]),
    ensures
        list.filter(keep) == Seq::<A>::empty(),
    decreases list.len(),
{
    reveal(Seq::filter);
    if list.len() == 0 {
        assert(list =~= Seq::<A>::empty());
    } else {
        let front = list.drop_last();
        assert forall|i: int| 0 <= i < front.len() implies !keep(front[i]) by {
            assert(front[i] == list[i]);
        }
        lemma_filter_nothing(front, keep);
    }
}

/// What a filter keeps of a list, it accepts, and it stood in the list.
proof fn lemma_filter_members<A>(list: Seq<A>, keep: spec_fn(A) -> bool)
    ensures
        forall|k: int|
            0 <= k < list.filter(keep).len() ==> keep(#[trigger] list.filter(keep)[k])
                && list.contains(list.filter(keep)[k]),
        forall|i: int|
            0 <= i < list.len() && keep(list[i]) ==> list.filter(keep).contains(#[trigger] list[i]),
    decreases list.len(),
{
    reveal(Seq::filter);
    if list.len() > 0 {
        let front = list.drop_last();
        lemma_filter_members(front, keep);
        let kept = list.filter(keep);
        assert forall|k: int| 0 <= k < kept.len() implies keep(#[trigger] kept[k])
            && list.contains(kept[k]) by {
            if k < front.filter(keep).len() {
                assert(kept[k] == front.filter(keep)[k]);
                let at = choose|at: int| 0 <= at < front.len() && front[at] == kept[k];
                assert(list[at] == kept[k]);
            } else {
                assert(kept[k] == list.last());
                assert(list[list.len() - 1] == kept[k]);
            }
        }
        assert forall|i: int| 0 <= i < list.len() && keep(list[i]) implies kept.contains(
            #[trigger] list[i],
        ) by {
            if i < front.len() {
                assert(front[i] == list[i]);
                let at = choose|at: int|
                    0 <= at < front.filter(keep).len() && front.filter(keep)[at] == list[i];
                assert(kept[at] == list[i]);
            } else {
                assert(kept[kept.len() - 1] == list[i]);
            }
        }
    }
}

/// Putting an index into an order adds it to the indices of a value if it has
/// the value, behind those that were there, and changes nothing else.
proof fn lemma_insert_keeps_order_of_value(
    ids: Seq<IdView>,
    order: Seq<usize>,
    k: usize,
    value: Seq<char>,
)
    requires
        k < ids.len(),
        forall|i: int| 0 <= i < order.len() ==> (#[trigger] order[i]) < ids.len(),
    ensures
        insert_by_key(values_of(ids), order, k).filter(at_value(ids, value)) == if ids[k as int].value
            == value {
            order.filter(at_value(ids, value)).push(k)
        } else {
            order.filter(at_value(ids, value))
        },
    decreases order.len(),
{
    reveal(Seq::filter);
    let keys = values_of(ids);
    let keep = at_value(ids, value);
    if order.len() == 0 {
        assert(seq![k].drop_last() =~= Seq::<usize>::empty());
        assert(order =~= Seq::<usize>::empty());
    } else if text_less(keys[k as int], keys[order.last() as int]) {
        let front = order.drop_last();
        assert forall|i: int| 0 <= i < front.len() implies (#[trigger] front[i]) < ids.len() by {
            assert(front[i] == order[i]);
        }
        lemma_insert_keeps_order_of_value(ids, front, k, value);
        let inner = insert_by_key(keys, front, k);
        assert(inner.push(order.last()).drop_last() =~= inner);
        assert(order[order.len() - 1] < ids.len());
        lemma_text_less_irreflexive(keys[k as int]);
    } else {
        assert(order.push(k).drop_last() =~= order);
    }
}

/// In a stable order, the indices of a value stand as they stand in the list.
proof fn lemma_stable_order_of_value(ids: Seq<IdView>, n: nat, value: Seq<char>)
    requires
        n <= ids.len(),
        n <= usize::MAX,
    ensures
        stable_order(values_of(ids), n).filter(at_value(ids, value)) == indices(n).filter(
            at_value(ids, value),
        ),
    decreases n,
{
    reveal(Seq::filter);
    let keys = values_of(ids);
    if n == 0 {
        assert(indices(0) =~= Seq::<usize>::empty());
    } else {
        let m = (n - 1) as nat;
        lemma_stable_order_of_value(ids, m, value);
        lemma_stable_order(keys, m);
        lemma_insert_keeps_order_of_value(ids, stable_order(keys, m), m as usize, value);
        assert(indices(n).drop_last() =~= indices(m));
        assert(indices(n).last() == m as usize);
    }
}

/// The duplicate check on one value: where a value stands `k` times among
/// `ids` and `k` is at least 2, the duplicated identifiers hold exactly those
/// `k` occurrences of it, each as it stands in `ids` and in that order; where
/// it stands once or never, they hold none of it. Each duplicated identifier
/// gives one finding, at its own place.
pub proof fn lemma_duplicates_of_a_value(ids: Seq<IdView>, value: Seq<char>)
    requires
        ids.len() <= usize::MAX,
    ensures
        duplicated_ids(ids).filter(with_value(value)) == if occurs_twice(ids, value) {
            ids.filter(with_value(value))
        } else {
            Seq::<IdView>::empty()
        },
        forall|name: Seq<char>|
            #![trigger duplicate_findings(ids, name)]
            duplicate_findings(ids, name).len() == duplicated_ids(ids).len() && forall|k: int|
                0 <= k < duplicated_ids(ids).len() ==> (#[trigger] duplicate_findings(ids, name)[k])
                    == duplicate_finding(name)(duplicated_ids(ids)[k]),
{
    let keys = values_of(ids);
    let n = ids.len();
    let order = stable_order(keys, n);
    let repeats = order.filter(is_repeated(keys));
    let here = at_value(ids, value);
    lemma_stable_order(keys, n);
    lemma_filter_members(order, is_repeated(keys));
    assert forall|i: int| 0 <= i < repeats.len() implies here(repeats[i]) == with_value(value)(
        pick(ids)(repeats[i]),
    ) by {}
    lemma_filter_of_map(repeats, pick(ids), with_value(value), here);
    if occurs_twice(ids, value) {
        let (a, b) = choose|a: int, b: int|
            0 <= a < b < ids.len() && (#[trigger] ids[a]).value == value && (#[trigger] ids[b]).value
                == value;
        assert forall|i: int| 0 <= i < order.len() implies here(order[i]) == (is_repeated(keys)(
            order[i],
        ) && here(order[i])) by {
            let x = order[i] as int;
            if ids[x].value == value {
                if x == a {
                    assert(keys[b] == keys[x]);
                } else {
                    assert(keys[a] == keys[x]);
                }
                assert(repeated(keys, x));
            }
        }
        lemma_filter_of_filter(order, is_repeated(keys), here, here);
        lemma_stable_order_of_value(ids, n, value);
        assert(indices(n).map_values(pick(ids)) =~= ids);
        assert forall|i: int| 0 <= i < indices(n).len() implies here(indices(n)[i])
            == with_value(value)(pick(ids)(indices(n)[i])) by {}
        lemma_filter_of_map(indices(n), pick(ids), with_value(value), here);
    } else {
        assert forall|i: int| 0 <= i < order.len() implies nothing()(order[i]) == (is_repeated(
            keys,
        )(order[i]) && here(order[i])) by {
            let x = order[i] as int;
            if repeated(keys, x) && ids[x].value == value {
                let j = choose|j: int| 0 <= j < keys.len() && j != x && keys[j] == keys[x];
                if j < x {
                    assert(ids[j].value == value && ids[x].value == value);
                } else {
                    assert(ids[x].value == value && ids[j].value == value);
                }
            }
        }
        lemma_filter_of_filter(order, is_repeated(keys), here, nothing());
        lemma_filter_nothing(order, nothing());
        assert(Seq::<usize>::empty().map_values(pick(ids)) =~= Seq::<IdView>::empty());
    }
}

/// Reserved-identifier check: an identifier whose value the base game has
/// taken is among the taken ones, and has its finding, whether its value
/// stands once or more often among `ids`.
pub proof fn lemma_reserved_id_is_flagged(
    ids: Seq<IdView>,
    name: Seq<char>,
    reserved: Seq<Seq<char>>,
    i: int,
)
    requires
        0 <= i < ids.len(),
        holds_text(reserved, ids[i].value),
    ensures
        taken_ids(ids, reserved).contains(ids[i]),
        taken_findings(ids, name, reserved).contains(taken_finding(name)(ids[i])),
{
    lemma_filter_members(ids, is_taken(reserved));
    let taken = taken_ids(ids, reserved);
    let at = choose|at: int| 0 <= at < taken.len() && taken[at] == ids[i];
    assert(taken_findings(ids, name, reserved)[at] == taken_finding(name)(ids[i]));
}

/// The findings of the reserved-identifier check on entries and on facts are
/// findings of the validation.
pub proof fn lemma_reserved_ids_reach_validation(
    ctx: ShipLogContextView,
    system_files: Seq<ProjectFileView>,
    baseline: BaselineView,
    finding: FindingView,
)
    requires
        taken_findings(ctx.entry_ids, "Entry"@, baseline.entry_ids).contains(finding)
            || taken_findings(ctx.fact_ids, "Fact"@, baseline.fact_ids).contains(finding),
    ensures
        validation_findings(ctx, system_files, baseline).contains(finding),
{
    let all = validation_findings(ctx, system_files, baseline);
    let d1 = duplicate_findings(ctx.astro_object_ids, "Astro Object"@);
    let d2 = duplicate_findings(ctx.entry_ids, "Entry"@);
    let d3 = duplicate_findings(ctx.fact_ids, "Fact"@);
    let t1 = taken_findings(ctx.entry_ids, "Entry"@, baseline.entry_ids);
    let t2 = taken_findings(ctx.fact_ids, "Fact"@, baseline.fact_ids);
    if t1.contains(finding) {
        let at = choose|at: int| 0 <= at < t1.len() && t1[at] == finding;
        assert(all[d1.len() + d2.len() + d3.len() + at] == finding);
    } else {
        let at = choose|at: int| 0 <= at < t2.len() && t2[at] == finding;
        assert(all[d1.len() + d2.len() + d3.len() + t1.len() + at] == finding);
    }
}

/// What one system config declares is among the curiosities of the project.
pub proof fn lemma_declared_is_custom(files: Seq<ProjectFileView>, i: int, value: Seq<char>)
    requires
        0 <= i < files.len(),
        holds_text(curiosities_of_text(files[i].contents), value),
    ensures
        holds_text(custom_curiosities(files), value),
    decreases files.len(),
{
    let front = custom_curiosities(files.drop_last());
    let last = curiosities_of_text(files.last().contents);
    if i == files.len() - 1 {
        let at = choose|at: int| 0 <= at < last.len() && last[at] == value;
        assert((front + last)[front.len() + at] == value);
    } else {
        assert(files.drop_last()[i] == files[i]);
        lemma_declared_is_custom(files.drop_last(), i, value);
        let at = choose|at: int| 0 <= at < front.len() && front[at] == value;
        assert((front + last)[at] == value);
    }
}

/// Curiosity check: a curiosity that one of the system configs declares, in
/// whichever config and at whichever place of its list, is never reported:
/// no reference that the check reports has its value, and so no finding of
/// the check is one for a reference to it.
pub proof fn lemma_declared_curiosity_is_not_reported(
    references: Seq<IdView>,
    files: Seq<ProjectFileView>,
    i: int,
    value: Seq<char>,
)
    requires
        0 <= i < files.len(),
        holds_text(curiosities_of_text(files[i].contents), value),
    ensures
        forall|k: int|
            0 <= k < unknown_curiosities(references, custom_curiosities(files)).len() ==> (
            #[trigger] unknown_curiosities(references, custom_curiosities(files))[k]).value
                != value,
        curiosity_findings(references, custom_curiosities(files)).len() == unknown_curiosities(
            references,
            custom_curiosities(files),
        ).len(),
        forall|k: int|
            0 <= k < unknown_curiosities(references, custom_curiosities(files)).len() ==> (
            #[trigger] curiosity_findings(references, custom_curiosities(files))[k])
                == unknown_curiosity_finding()(
                unknown_curiosities(references, custom_curiosities(files))[k],
            ),
{
    lemma_declared_is_custom(files, i, value);
    lemma_filter_members(references, is_unknown_curiosity(custom_curiosities(files)));
}

/// Source check, one reference at a time: the findings for two lists of
/// references, joined, are the findings for each, joined.
pub proof fn lemma_source_findings_add(
    first: Seq<IdView>,
    second: Seq<IdView>,
    entries: Seq<Seq<char>>,
    reserved: Seq<Seq<char>>,
)
    ensures
        source_findings(first + second, entries, reserved) == source_findings(
            first,
            entries,
            reserved,
        ) + source_findings(second, entries, reserved),
{
    lemma_filter_add(first, second, is_unknown_entry(entries, reserved));
    let a = unknown_sources(first, entries, reserved);
    let b = unknown_sources(second, entries, reserved);
    assert((a + b).map_values(unknown_entry_finding()) =~= a.map_values(unknown_entry_finding())
        + b.map_values(unknown_entry_finding()));
}

/// Source check: a source that is an entry of the project or an entry of the
/// base game gives no finding; any other gives exactly one, at its place.
pub proof fn lemma_source_findings_one(
    reference: IdView,
    entries: Seq<Seq<char>>,
    reserved: Seq<Seq<char>>,
)
    ensures
        source_findings(seq![reference], entries, reserved) == if holds_text(
            entries,
            reference.value,
        ) || holds_text(reserved, reference.value) {
            Seq::<FindingView>::empty()
        } else {
            seq![unknown_entry_finding()(reference)]
        },
{
    reveal(Seq::filter);
    let keep = is_unknown_entry(entries, reserved);
    let one = seq![reference];
    assert(one.drop_last() =~= Seq::<IdView>::empty());
    assert(one.drop_last().filter(keep) =~= Seq::<IdView>::empty());
    if keep(reference) {
        assert(one.filter(keep) =~= seq![reference]);
        assert(seq![reference].map_values(unknown_entry_finding()) =~= seq![
            unknown_entry_finding()(reference),
        ]);
    } else {
        assert(one.filter(keep) =~= Seq::<IdView>::empty());
        assert(Seq::<IdView>::empty().map_values(unknown_entry_finding())
            =~= Seq::<FindingView>::empty());
    }
}

/// The last of `entries` with the identifier `id`.
pub open spec fn last_with_id(entries: Seq<EntryView>, id: Seq<char>) -> Option<EntryView>
    decreases entries.len(),
{
    if entries.len() == 0 {
        None
    } else if entries.last().id == id {
        Some(entries.last())
    } else {
        last_with_id(entries.drop_last(), id)
    }
}

/// Entries of the project put into a map: under an identifier stands the
/// last entry that came with it, and where none came, what stood there
/// before. So a later entry of the project takes the place of an earlier one
/// with its identifier.
pub proof fn lemma_later_entries_win(
    map: TextMapView<EntryView>,
    entries: Seq<EntryView>,
    id: Seq<char>,
)
    requires
        map.wf(),
    ensures
        upsert_all(map, entries).wf(),
        upsert_all(map, entries).lookup(id) == match last_with_id(entries, id) {
            Some(entry) => Some(entry),
            None => map.lookup(id),
        },
    decreases entries.len(),
{
    if entries.len() > 0 {
        lemma_later_entries_win(map, entries.drop_last(), id);
        lemma_upsert(upsert_all(map, entries.drop_last()), entries.last().id, entries.last());
    }
}

/// Every entry of a harvest has an identifier and a name, and belongs to the
/// astro object `astro_object`.
pub open spec fn entries_are_whole(harvest: Harvest, astro_object: Seq<char>) -> bool {
    forall|k: int|
        0 <= k < harvest.entries.len() ==> {
            &&& (#[trigger] harvest.entries[k]).id.len() > 0
            &&& harvest.entries[k].name.len() > 0
            &&& harvest.entries[k].astro_object == astro_object
        }
}

/// What one child of an entry yields holds whole entries only, and leaves the
/// entry with its astro object.
proof fn lemma_child_yields_whole_entries(
    nodes: Seq<XmlNodeView>,
    file: DocumentIdView,
    astro_object: Seq<char>,
    positions: TextMapView<Vector2>,
    j: int,
    draft: EntryView,
)
    requires
        draft.astro_object == astro_object,
    ensures
        entries_are_whole(
            child_yield(nodes, file, astro_object, positions, j, draft).0,
            astro_object,
        ),
        child_yield(nodes, file, astro_object, positions, j, draft).1.astro_object == astro_object,
    decreases nodes.len() - j, nodes.len() + 2,
{
    if 0 <= j < nodes.len() {
        let node = nodes[j];
        if node.name != "ID"@ && node.name != "Name"@ && node.name != "IsCuriosity"@ && node.name
            != "Curiosity"@ && node.name != "RumorFact"@ && node.name != "ExploreFact"@
            && node.name == "Entry"@ {
            lemma_entry_yields_whole_entries(
                nodes,
                file,
                astro_object,
                positions,
                Some(draft.id),
                j,
            );
        }
    }
}

/// What the children of an entry yield holds whole entries only, and leaves
/// the entry with its astro object.
proof fn lemma_children_yield_whole_entries(
    nodes: Seq<XmlNodeView>,
    file: DocumentIdView,
    astro_object: Seq<char>,
    positions: TextMapView<Vector2>,
    entry: int,
    upto: int,
    start: EntryView,
)
    requires
        start.astro_object == astro_object,
    ensures
        entries_are_whole(
            harvest_children(nodes, file, astro_object, positions, entry, upto, start).0,
            astro_object,
        ),
        harvest_children(nodes, file, astro_object, positions, entry, upto, start).1.astro_object
            == astro_object,
    decreases nodes.len() - entry, upto,
{
    if !(entry < 0 || upto <= entry + 1 || upto > nodes.len()) {
        lemma_children_yield_whole_entries(
            nodes,
            file,
            astro_object,
            positions,
            entry,
            upto - 1,
            start,
        );
        let before = harvest_children(nodes, file, astro_object, positions, entry, upto - 1, start);
        lemma_child_yields_whole_entries(nodes, file, astro_object, positions, upto - 1, before.1);
    }
}

/// An entry is kept only with an identifier, never without a name, and under
/// the astro object that it was declared for: this holds of every entry that
/// an entry element yields, itself and those that it holds.
pub proof fn lemma_entry_yields_whole_entries(
    nodes: Seq<XmlNodeView>,
    file: DocumentIdView,
    astro_object: Seq<char>,
    positions: TextMapView<Vector2>,
    parent: Option<Seq<char>>,
    entry: int,
)
    ensures
        entries_are_whole(
            harvest_entry(nodes, file, astro_object, positions, parent, entry),
            astro_object,
        ),
    decreases nodes.len() - entry, nodes.len() + 1,
{
    lemma_children_yield_whole_entries(
        nodes,
        file,
        astro_object,
        positions,
        entry,
        nodes.len() as int,
        crate::ship_log::harvest::new_draft(
            crate::ship_log::harvest::id_of_element(nodes, entry),
            astro_object,
            parent,
        ),
    );
    reveal_strlit("UNNAMED");
    assert(unnamed().len() == 7);
}

/// A document without an element named `AstroObjectEntry` yields nothing, and
/// a context that takes it in stays as it is.
pub proof fn lemma_document_without_astro_object(
    ctx: ShipLogContextView,
    nodes: Seq<XmlNodeView>,
    file: DocumentIdView,
    relative_path: Option<Seq<char>>,
)
    requires
        find_named(nodes, "AstroObjectEntry"@, 0) is None,
    ensures
        ctx.absorb_document(document_yield(nodes, file, ctx.position_map), relative_path) == ctx,
{
    crate::ship_log::harvest::lemma_absorb_empty(ctx);
    assert(ctx.astro_object_ids + Seq::<IdView>::empty() =~= ctx.astro_object_ids);
}

/// A child of an entry changes neither the entry's identifier nor its parent
/// nor its astro object.
proof fn lemma_child_keeps_the_identifier(
    nodes: Seq<XmlNodeView>,
    file: DocumentIdView,
    astro_object: Seq<char>,
    positions: TextMapView<Vector2>,
    j: int,
    draft: EntryView,
)
    ensures
        ({
            let after = child_yield(nodes, file, astro_object, positions, j, draft).1;
            &&& after.id == draft.id
            &&& after.parent == draft.parent
            &&& after.astro_object == draft.astro_object
        }),
{
    let after = child_yield(nodes, file, astro_object, positions, j, draft);
    if 0 <= j < nodes.len() {
        let fact = crate::ship_log::harvest::fact_yield(nodes, file, j, draft);
        assert(fact.1.id == draft.id && fact.1.parent == draft.parent && fact.1.astro_object
            == draft.astro_object);
    }
}

/// The children of an entry change neither its identifier nor its parent nor
/// its astro object: these are fixed before the children are walked.
pub proof fn lemma_children_keep_the_identifier(
    nodes: Seq<XmlNodeView>,
    file: DocumentIdView,
    astro_object: Seq<char>,
    positions: TextMapView<Vector2>,
    entry: int,
    upto: int,
    start: EntryView,
)
    ensures
        ({
            let after = harvest_children(nodes, file, astro_object, positions, entry, upto, start).1;
            &&& after.id == start.id
            &&& after.parent == start.parent
            &&& after.astro_object == start.astro_object
        }),
    decreases upto,
{
    if !(entry < 0 || upto <= entry + 1 || upto > nodes.len()) {
        lemma_children_keep_the_identifier(
            nodes,
            file,
            astro_object,
            positions,
            entry,
            upto - 1,
            start,
        );
        let before = harvest_children(nodes, file, astro_object, positions, entry, upto - 1, start);
        lemma_child_keeps_the_identifier(nodes, file, astro_object, positions, upto - 1, before.1);
    }
}

/// An entry is kept under the identifier that it declares last, wherever
/// among its children that stands, below the parent that it was given and
/// under its astro object; it comes behind the entries that it holds. An
/// entry that declares no identifier, or an empty one, is not kept.
pub proof fn lemma_entry_is_kept_under_its_id(
    nodes: Seq<XmlNodeView>,
    file: DocumentIdView,
    astro_object: Seq<char>,
    positions: TextMapView<Vector2>,
    parent: Option<Seq<char>>,
    entry: int,
)
    ensures
        ({
            let yielded = harvest_entry(nodes, file, astro_object, positions, parent, entry);
            let held = harvest_children(
                nodes,
                file,
                astro_object,
                positions,
                entry,
                nodes.len() as int,
                new_draft(id_of_element(nodes, entry), astro_object, parent),
            );
            if id_of_element(nodes, entry).len() > 0 {
                &&& yielded.entries.len() == held.0.entries.len() + 1
                &&& yielded.entries.last().id == id_of_element(nodes, entry)
                &&& yielded.entries.last().parent == parent
                &&& yielded.entries.last().astro_object == astro_object
            } else {
                yielded == held.0
            }
        }),
{
    lemma_children_keep_the_identifier(
        nodes,
        file,
        astro_object,
        positions,
        entry,
        nodes.len() as int,
        new_draft(id_of_element(nodes, entry), astro_object, parent),
    );
}

/// An entry that another entry holds has that entry's identifier as its
/// parent, whether it stands before or behind the `ID` of the entry that
/// holds it: what the children of the entry `entry` up to and with the nested
/// entry `nested` yield is what the children before it yield, and then what
/// the nested entry yields below the identifier of `entry`.
pub proof fn lemma_nested_entry_has_its_parent(
    nodes: Seq<XmlNodeView>,
    file: DocumentIdView,
    astro_object: Seq<char>,
    positions: TextMapView<Vector2>,
    parent: Option<Seq<char>>,
    entry: int,
    nested: int,
)
    requires
        is_element_child(nodes, entry, nested),
        nodes[nested].name == "Entry"@,
    ensures
        ({
            let start = new_draft(id_of_element(nodes, entry), astro_object, parent);
            harvest_children(nodes, file, astro_object, positions, entry, nested + 1, start).0
                == harvest_children(
                nodes,
                file,
                astro_object,
                positions,
                entry,
                nested,
                start,
            ).0.join(
                harvest_entry(
                    nodes,
                    file,
                    astro_object,
                    positions,
                    Some(id_of_element(nodes, entry)),
                    nested,
                ),
            )
        }),
{
    let start = new_draft(id_of_element(nodes, entry), astro_object, parent);
    lemma_tag_names_differ();
    lemma_children_keep_the_identifier(
        nodes,
        file,
        astro_object,
        positions,
        entry,
        nested,
        start,
    );
    let before = harvest_children(nodes, file, astro_object, positions, entry, nested, start);
    let next = child_yield(nodes, file, astro_object, positions, nested, before.1);
    assert(next.0 == harvest_entry(
        nodes,
        file,
        astro_object,
        positions,
        Some(before.1.id),
        nested,
    ));
    assert(harvest_children(nodes, file, astro_object, positions, entry, nested + 1, start).0
        == before.0.join(next.0));
}

/// What more children of an entry yield comes behind what fewer of them
/// yield: the entries that were yielded stay where they are.
proof fn lemma_children_yield_in_turn(
    nodes: Seq<XmlNodeView>,
    file: DocumentIdView,
    astro_object: Seq<char>,
    positions: TextMapView<Vector2>,
    entry: int,
    fewer: int,
    more: int,
    start: EntryView,
)
    requires
        0 <= entry < fewer <= more <= nodes.len(),
    ensures
        ({
            let first = harvest_children(nodes, file, astro_object, positions, entry, fewer, start).0;
            let second = harvest_children(nodes, file, astro_object, positions, entry, more, start).0;
            &&& first.entries.len() <= second.entries.len()
            &&& forall|k: int|
                0 <= k < first.entries.len() ==> second.entries[k] == first.entries[k]
        }),
    decreases more,
{
    if fewer < more {
        lemma_children_yield_in_turn(
            nodes,
            file,
            astro_object,
            positions,
            entry,
            fewer,
            more - 1,
            start,
        );
    }
}

/// An entry with an identifier that another entry holds is kept with that
/// entry's identifier as its parent, and under the same astro object,
/// whether it stands before or behind the `ID` of the entry that holds it.
pub proof fn lemma_nested_entry_is_kept_below_its_parent(
    nodes: Seq<XmlNodeView>,
    file: DocumentIdView,
    astro_object: Seq<char>,
    positions: TextMapView<Vector2>,
    parent: Option<Seq<char>>,
    entry: int,
    nested: int,
)
    requires
        is_element_child(nodes, entry, nested),
        nodes[nested].name == "Entry"@,
        id_of_element(nodes, nested).len() > 0,
    ensures
        ({
            let yielded = harvest_entry(nodes, file, astro_object, positions, parent, entry);
            exists|k: int|
                0 <= k < yielded.entries.len() && (#[trigger] yielded.entries[k]).id
                    == id_of_element(nodes, nested) && yielded.entries[k].parent == Some(
                    id_of_element(nodes, entry),
                ) && yielded.entries[k].astro_object == astro_object
        }),
{
    let own = id_of_element(nodes, entry);
    let start = new_draft(own, astro_object, parent);
    let inner = harvest_entry(nodes, file, astro_object, positions, Some(own), nested);
    lemma_entry_is_kept_under_its_id(nodes, file, astro_object, positions, Some(own), nested);
    lemma_nested_entry_has_its_parent(nodes, file, astro_object, positions, parent, entry, nested);
    let before = harvest_children(nodes, file, astro_object, positions, entry, nested, start).0;
    let with_nested = harvest_children(
        nodes,
        file,
        astro_object,
        positions,
        entry,
        nested + 1,
        start,
    ).0;
    let at = before.entries.len() + inner.entries.len() - 1;
    assert(with_nested.entries[at] == inner.entries.last());
    lemma_children_yield_in_turn(
        nodes,
        file,
        astro_object,
        positions,
        entry,
        nested + 1,
        nodes.len() as int,
        start,
    );
    let all = harvest_children(
        nodes,
        file,
        astro_object,
        positions,
        entry,
        nodes.len() as int,
        start,
    ).0;
    assert(all.entries[at] == inner.entries.last());
    let yielded = harvest_entry(nodes, file, astro_object, positions, parent, entry);
    assert(yielded.entries[at] == inner.entries.last());
}

/// The first of `entries` with the identifier `id`.
pub open spec fn first_with_id(entries: Seq<EntryView>, id: Seq<char>) -> Option<EntryView>
    decreases entries.len(),
{
    if entries.len() == 0 {
        None
    } else {
        match first_with_id(entries.drop_last(), id) {
            Some(entry) => Some(entry),
            None => if entries.last().id == id {
                Some(entries.last())
            } else {
                None
            },
        }
    }
}

/// The entries of the project win over those of the base game: after the
/// entries of the base game were put in, what stood under an identifier
/// before still stands there, and under an identifier that the project does
/// not use stands the first entry of the base game with it.
pub proof fn lemma_project_entries_win(
    map: TextMapView<EntryView>,
    entries: Seq<EntryView>,
    id: Seq<char>,
)
    requires
        map.wf(),
    ensures
        add_missing(map, entries).wf(),
        add_missing(map, entries).lookup(id) == match map.lookup(id) {
            Some(entry) => Some(entry),
            None => first_with_id(entries, id),
        },
    decreases entries.len(),
{
    if entries.len() > 0 {
        let before = add_missing(map, entries.drop_last());
        lemma_project_entries_win(map, entries.drop_last(), id);
        lemma_project_entries_win(map, entries.drop_last(), entries.last().id);
        lemma_upsert(before, entries.last().id, entries.last());
    }
}

} // verus!
