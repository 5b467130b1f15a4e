//! The curiosity check looks only at which curiosities are declared, never at
//! where: neither the order of the system configs nor the order within a
//! list of curiosities changes its findings.

use vstd::prelude::*;
use crate::json::{texts_under, Json};
use crate::project::ProjectFileView;
use crate::ship_log::checks::{curiosities_of_text, curiosity_findings, custom_curiosities, declared_curiosities, is_unknown_curiosity};
use crate::ship_log::IdView;
use crate::text::holds_text;

verus! {

/// Two lists hold the same texts, in whichever order and however often.
pub open spec fn same_texts(first: Seq<Seq<char>>, second: Seq<Seq<char>>) -> bool {
    forall|value: Seq<char>| #[trigger] holds_text(first, value) == holds_text(second, value)
}

/// One of `files` declares the curiosity `value`.
pub open spec fn declared_by_a_file(files: Seq<ProjectFileView>, value: Seq<char>) -> bool {
    exists|i: int|
        0 <= i < files.len() && holds_text(
            curiosities_of_text((#[trigger] files[i]).contents),
            value,
        )
}

/// One of `items` holds the text `value` under `key`.
pub open spec fn held_by_an_item(items: Seq<Json>, key: Seq<char>, value: Seq<char>) -> bool {
    exists|i: int|
        0 <= i < items.len() && match (#[trigger] items[i]).member(key) {
            Some(found) => found.text() == Some(value),
            None => false,
        }
}

/// Two filters that accept the same values of a list keep the same.
proof fn lemma_filter_alike<A>(list: Seq<A>, first: spec_fn(A) -> bool, second: spec_fn(A) -> bool)
    requires
        forall|i: int| 0 <= i < list.len() ==> first(list[i]) == second(list[i]),
    ensures
        list.filter(first) == list.filter(second),
    decreases list.len(),
{
    reveal(Seq::filter);
    if list.len() > 0 {
        let front = list.drop_last();
        assert forall|i: int| 0 <= i < front.len() implies first(front[i]) == second(front[i]) by {
            assert(front[i] == list[i]);
        }
        lemma_filter_alike(front, first, second);
    }
}

/// A text is among two lists, joined, exactly when it is in one of them.
proof fn lemma_holds_text_add(first: Seq<Seq<char>>, second: Seq<Seq<char>>, value: Seq<char>)
    ensures
        holds_text(first + second, value) == (holds_text(first, value) || holds_text(
            second,
            value,
        )),
{
    let both = first + second;
    if holds_text(first, value) {
        let i = choose|i: int| 0 <= i < first.len() && first[i] == value;
        assert(both[i] == value);
    }
    if holds_text(second, value) {
        let i = choose|i: int| 0 <= i < second.len() && second[i] == value;
        assert(both[first.len() + i] == value);
    }
    if holds_text(both, value) {
        let i = choose|i: int| 0 <= i < both.len() && both[i] == value;
        if i < first.len() {
            assert(first[i] == value);
        } else {
            assert(second[i - first.len()] == value);
        }
    }
}

/// The curiosities of a project are those that one of its system configs
/// declares.
pub proof fn lemma_custom_is_what_files_declare(files: Seq<ProjectFileView>, value: Seq<char>)
    ensures
        holds_text(custom_curiosities(files), value) == declared_by_a_file(files, value),
    decreases files.len(),
{
    if files.len() > 0 {
        let front = files.drop_last();
        lemma_custom_is_what_files_declare(front, value);
        lemma_holds_text_add(
            custom_curiosities(front),
            curiosities_of_text(files.last().contents),
            value,
        );
        if declared_by_a_file(front, value) {
            let i = choose|i: int|
                0 <= i < front.len() && holds_text(
                    curiosities_of_text((#[trigger] front[i]).contents),
                    value,
                );
            assert(files[i] == front[i]);
        }
        if holds_text(curiosities_of_text(files.last().contents), value) {
            assert(files[files.len() - 1] == files.last());
        }
        if declared_by_a_file(files, value) {
            let i = choose|i: int|
                0 <= i < files.len() && holds_text(
                    curiosities_of_text((#[trigger] files[i]).contents),
                    value,
                );
            if i < front.len() {
                assert(front[i] == files[i]);
            }
        }
    }
}

/// The texts under `key` of a list are those that one of its items holds
/// under `key`.
pub proof fn lemma_texts_under_is_what_items_hold(
    items: Seq<Json>,
    key: Seq<char>,
    value: Seq<char>,
)
    ensures
        holds_text(texts_under(items, key), value) == held_by_an_item(items, key, value),
    decreases items.len(),
{
    if items.len() > 0 {
        let front = items.drop_last();
        let rest = texts_under(front, key);
        let all = texts_under(items, key);
        lemma_texts_under_is_what_items_hold(front, key, value);
        let last_holds = match items.last().member(key) {
            Some(found) => found.text() == Some(value),
            None => false,
        };
        if held_by_an_item(front, key, value) {
            let i = choose|i: int|
                0 <= i < front.len() && match (#[trigger] front[i]).member(key) {
                    Some(found) => found.text() == Some(value),
                    None => false,
                };
            assert(items[i] == front[i]);
            let at = choose|at: int| 0 <= at < rest.len() && rest[at] == value;
            assert(all[at] == value);
        }
        if last_holds {
            assert(items[items.len() - 1] == items.last());
            assert(all[all.len() - 1] == value);
        }
        if held_by_an_item(items, key, value) {
            let i = choose|i: int|
                0 <= i < items.len() && match (#[trigger] items[i]).member(key) {
                    Some(found) => found.text() == Some(value),
                    None => false,
                };
            if i < front.len() {
                assert(front[i] == items[i]);
            }
        }
        if holds_text(all, value) {
            let at = choose|at: int| 0 <= at < all.len() && all[at] == value;
            if at < rest.len() {
                assert(rest[at] == value);
            }
        }
    }
}

/// The findings of the curiosity check depend on which curiosities are
/// declared and on nothing else: two lists that hold the same texts give the
/// same findings, the same ones in the same order.
pub proof fn lemma_findings_by_what_is_declared(
    references: Seq<IdView>,
    first: Seq<Seq<char>>,
    second: Seq<Seq<char>>,
)
    requires
        same_texts(first, second),
    ensures
        curiosity_findings(references, first) == curiosity_findings(references, second),
{
    assert forall|i: int| 0 <= i < references.len() implies is_unknown_curiosity(first)(
        references[i],
    ) == is_unknown_curiosity(second)(references[i]) by {
        assert(holds_text(first, references[i].value) == holds_text(
            second,
            references[i].value,
        ));
    }
    lemma_filter_alike(references, is_unknown_curiosity(first), is_unknown_curiosity(second));
}

/// The order of the system configs does not matter: configs that are the
/// same but for their order give the same findings.
pub proof fn lemma_order_of_files_does_not_matter(
    references: Seq<IdView>,
    first: Seq<ProjectFileView>,
    second: Seq<ProjectFileView>,
)
    requires
        first.to_multiset() == second.to_multiset(),
    ensures
        curiosity_findings(references, custom_curiosities(first)) == curiosity_findings(
            references,
            custom_curiosities(second),
        ),
{
    first.to_multiset_ensures();
    second.to_multiset_ensures();
    assert forall|value: Seq<char>| #[trigger]
        holds_text(custom_curiosities(first), value) == holds_text(
            custom_curiosities(second),
            value,
        ) by {
        lemma_custom_is_what_files_declare(first, value);
        lemma_custom_is_what_files_declare(second, value);
        if declared_by_a_file(first, value) {
            let i = choose|i: int|
                0 <= i < first.len() && holds_text(
                    curiosities_of_text((#[trigger] first[i]).contents),
                    value,
                );
            assert(first.contains(first[i]));
            assert(first.to_multiset().count(first[i]) > 0);
            assert(second.to_multiset().count(first[i]) > 0);
            assert(second.contains(first[i]));
            let j = choose|j: int| 0 <= j < second.len() && second[j] == first[i];
            assert(holds_text(curiosities_of_text(second[j].contents), value));
        }
        if declared_by_a_file(second, value) {
            let i = choose|i: int|
                0 <= i < second.len() && holds_text(
                    curiosities_of_text((#[trigger] second[i]).contents),
                    value,
                );
            assert(second.contains(second[i]));
            assert(second.to_multiset().count(second[i]) > 0);
            assert(first.to_multiset().count(second[i]) > 0);
            assert(first.contains(second[i]));
            let j = choose|j: int| 0 <= j < first.len() && first[j] == second[i];
            assert(holds_text(curiosities_of_text(first[j].contents), value));
        }
    }
    lemma_findings_by_what_is_declared(
        references,
        custom_curiosities(first),
        custom_curiosities(second),
    );
}

/// The order within a list of curiosities does not matter: two configs whose
/// `curiosities` lists are the same but for their order declare the same
/// curiosities.
pub proof fn lemma_order_in_a_list_does_not_matter(first: Json, second: Json)
    requires
        first.member("curiosities"@) is Some,
        second.member("curiosities"@) is Some,
        first.member("curiosities"@).unwrap().items() is Some,
        second.member("curiosities"@).unwrap().items() is Some,
        first.member("curiosities"@).unwrap().items().unwrap().to_multiset() == second.member(
            "curiosities"@,
        ).unwrap().items().unwrap().to_multiset(),
    ensures
        same_texts(declared_curiosities(first), declared_curiosities(second)),
{
    let a = first.member("curiosities"@).unwrap().items().unwrap();
    let b = second.member("curiosities"@).unwrap().items().unwrap();
    a.to_multiset_ensures();
    b.to_multiset_ensures();
    assert forall|value: Seq<char>| #[trigger]
        holds_text(declared_curiosities(first), value) == holds_text(
            declared_curiosities(second),
            value,
        ) by {
        lemma_texts_under_is_what_items_hold(a, "id"@, value);
        lemma_texts_under_is_what_items_hold(b, "id"@, value);
        if held_by_an_item(a, "id"@, value) {
            let i = choose|i: int|
                0 <= i < a.len() && match (#[trigger] a[i]).member("id"@) {
                    Some(found) => found.text() == Some(value),
                    None => false,
                };
            assert(a.contains(a[i]));
            assert(a.to_multiset().count(a[i]) > 0);
            assert(b.to_multiset().count(a[i]) > 0);
            assert(b.contains(a[i]));
            let j = choose|j: int| 0 <= j < b.len() && b[j] == a[i];
            assert(match b[j].member("id"@) {
                Some(found) => found.text() == Some(value),
                None => false,
            });
        }
        if held_by_an_item(b, "id"@, value) {
            let i = choose|i: int|
                0 <= i < b.len() && match (#[trigger] b[i]).member("id"@) {
                    Some(found) => found.text() == Some(value),
                    None => false,
                };
            assert(b.contains(b[i]));
            assert(b.to_multiset().count(b[i]) > 0);
            assert(a.to_multiset().count(b[i]) > 0);
            assert(a.contains(b[i]));
            let j = choose|j: int| 0 <= j < a.len() && a[j] == b[i];
            assert(match a[j].member("id"@) {
                Some(found) => found.text() == Some(value),
                None => false,
            });
        }
    }
}

/// Configs that declare the same curiosities, file by file, give the same
/// findings, in whichever order each declares them.
pub proof fn lemma_files_declaring_alike(
    references: Seq<IdView>,
    first: Seq<ProjectFileView>,
    second: Seq<ProjectFileView>,
)
    requires
        first.len() == second.len(),
        forall|i: int|
            0 <= i < first.len() ==> same_texts(
                curiosities_of_text((#[trigger] first[i]).contents),
                curiosities_of_text(second[i].contents),
            ),
    ensures
        curiosity_findings(references, custom_curiosities(first)) == curiosity_findings(
            references,
            custom_curiosities(second),
        ),
{
    assert forall|value: Seq<char>| #[trigger]
        holds_text(custom_curiosities(first), value) == holds_text(
            custom_curiosities(second),
            value,
        ) by {
        lemma_custom_is_what_files_declare(first, value);
        lemma_custom_is_what_files_declare(second, value);
        if declared_by_a_file(first, value) {
            let i = choose|i: int|
                0 <= i < first.len() && holds_text(
                    curiosities_of_text((#[trigger] first[i]).contents),
                    value,
                );
            assert(holds_text(curiosities_of_text(first[i].contents), value) == holds_text(
                curiosities_of_text(second[i].contents),
                value,
            ));
        }
        if declared_by_a_file(second, value) {
            let i = choose|i: int|
                0 <= i < second.len() && holds_text(
                    curiosities_of_text((#[trigger] second[i]).contents),
                    value,
                );
            assert(holds_text(curiosities_of_text(first[i].contents), value) == holds_text(
                curiosities_of_text(second[i].contents),
                value,
            ));
            assert(first[i] == first[i]);
        }
    }
    lemma_findings_by_what_is_declared(
        references,
        custom_curiosities(first),
        custom_curiosities(second),
    );
}

} // verus!
