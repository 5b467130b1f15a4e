//! Texts as sequences of characters: their order, and searching lists of them.

use vstd::prelude::*;
use vstd::string::*;

verus! {

/// The order of texts: character by character, by code point; a proper prefix
/// comes first.
pub open spec fn text_less(a: Seq<char>, b: Seq<char>) -> bool
    decreases a.len(),
{
    if b.len() == 0 {
        false
    } else if a.len() == 0 {
        true
    } else if a[0] != b[0] {
        (a[0] as u32) < (b[0] as u32)
    } else {
        text_less(a.drop_first(), b.drop_first())
    }
}

/// Two different characters have different code points.
proof fn lemma_code_points_differ(c: char, d: char)
    requires
        c != d,
    ensures
        c as u32 != d as u32,
{
}

/// No text comes before itself.
pub proof fn lemma_text_less_irreflexive(a: Seq<char>)
    ensures
        !text_less(a, a),
    decreases a.len(),
{
    if a.len() > 0 {
        lemma_text_less_irreflexive(a.drop_first());
    }
}

/// Of two different texts one comes before the other.
pub proof fn lemma_text_less_total(a: Seq<char>, b: Seq<char>)
    ensures
        text_less(a, b) || text_less(b, a) || a == b,
    decreases a.len(),
{
    if a.len() == 0 || b.len() == 0 {
        if a.len() == 0 && b.len() == 0 {
            assert(a =~= b);
        }
    } else if a[0] == b[0] {
        lemma_text_less_total(a.drop_first(), b.drop_first());
        if a.drop_first() == b.drop_first() {
            assert(a =~= seq![a[0]] + a.drop_first());
            assert(b =~= seq![b[0]] + b.drop_first());
        }
    } else {
        lemma_code_points_differ(a[0], b[0]);
    }
}

/// The order of texts is transitive.
pub proof fn lemma_text_less_transitive(a: Seq<char>, b: Seq<char>, c: Seq<char>)
    requires
        text_less(a, b),
        text_less(b, c),
    ensures
        text_less(a, c),
    decreases a.len(),
{
    if a.len() > 0 && a[0] == b[0] && b[0] == c[0] {
        lemma_text_less_transitive(a.drop_first(), b.drop_first(), c.drop_first());
    }
}

/// Whether `list` holds `value`.
pub open spec fn holds_text(list: Seq<Seq<char>>, value: Seq<char>) -> bool {
    exists|i: int| 0 <= i < list.len() && list[i] == value
}

/// The views of a list of values, one by one.
pub open spec fn views<T: View>(list: Seq<T>) -> Seq<T::V> {
    Seq::new(list.len(), |i: int| list[i]@)
}

/// The views of a list with one more value are the views of the list with one
/// more view.
pub proof fn lemma_views_push<T: View>(list: Seq<T>, last: T)
    ensures
        views(list.push(last)) == views(list).push(last@),
{
    assert(views(list.push(last)) =~= views(list).push(last@));
}

/// The views of a list with one value replaced are the views of the list with
/// one view replaced.
pub proof fn lemma_views_update<T: View>(list: Seq<T>, i: int, value: T)
    requires
        0 <= i < list.len(),
    ensures
        views(list.update(i, value)) == views(list).update(i, value@),
{
    assert(views(list.update(i, value)) =~= views(list).update(i, value@));
}

/// The views of two lists, joined, are the views of the joined list.
pub proof fn lemma_views_add<T: View>(first: Seq<T>, second: Seq<T>)
    ensures
        views(first + second) == views(first) + views(second),
{
    assert(views(first + second) =~= views(first) + views(second));
}

/// Of the first `i + 1` values, those that `keep` accepts: those of the first
/// `i`, and the one at `i` if `keep` accepts it.
pub proof fn lemma_filter_step<T>(list: Seq<T>, i: int, keep: spec_fn(T) -> bool)
    requires
        0 <= i < list.len(),
    ensures
        list.take(i + 1).filter(keep) == if keep(list[i]) {
            list.take(i).filter(keep).push(list[i])
        } else {
            list.take(i).filter(keep)
        },
{
    reveal(Seq::filter);
    assert(list.take(i + 1).drop_last() =~= list.take(i));
}

/// Mapping a list with one more value gives the mapped list with one more.
pub proof fn lemma_map_push<T, U>(list: Seq<T>, last: T, make: spec_fn(T) -> U)
    ensures
        list.push(last).map_values(make) == list.map_values(make).push(make(last)),
{
    assert(list.push(last).map_values(make) =~= list.map_values(make).push(make(last)));
}

/// Filtering two lists, joined, is joining the two filtered.
pub proof fn lemma_filter_add<T>(first: Seq<T>, second: Seq<T>, keep: spec_fn(T) -> bool)
    ensures
        (first + second).filter(keep) == first.filter(keep) + second.filter(keep),
    decreases second.len(),
{
    reveal(Seq::filter);
    if second.len() == 0 {
        assert(first + second =~= first);
        assert(first.filter(keep) + second.filter(keep) =~= first.filter(keep));
    } else {
        lemma_filter_add(first, second.drop_last(), keep);
        assert((first + second).drop_last() =~= first + second.drop_last());
        assert((first + second).last() == second.last());
        if keep(second.last()) {
            assert((first.filter(keep) + second.drop_last().filter(keep)).push(second.last())
                =~= first.filter(keep) + second.drop_last().filter(keep).push(second.last()));
        }
    }
}

/// `<` on `str`, which std documents as the lexicographic order of the bytes,
/// the same as the order of the code points.
#[verifier::external_body]
pub(crate) fn text_before(a: &str, b: &str) -> (r: bool)
    ensures
        r == text_less(a@, b@),
{
    a < b
}

/// `==` on `str`: the two hold the same characters.
#[verifier::external_body]
pub(crate) fn same_text(a: &str, b: &str) -> (r: bool)
    ensures
        r == (a@ == b@),
{
    a == b
}

/// Whether one of the strings of `list` equals `value`.
pub fn contains_text(list: &Vec<String>, value: &str) -> (r: bool)
    ensures
        r == holds_text(views(list@), value@),
{
    let mut i: usize = 0;
    while i < list.len()
        invariant
            i <= list.len(),
            forall|j: int| 0 <= j < i ==> list@[j]@ != value@,
        decreases list.len() - i,
    {
        if same_text(list[i].as_str(), value) {
            assert(views(list@)[i as int] == value@);
            return true;
        }
        i += 1;
    }
    assert(forall|j: int| 0 <= j < list.len() ==> views(list@)[j] == #[trigger] list@[j]@);
    false
}

/// The parts of a text between the occurrences of `separator`: one more part
/// than there are occurrences.
pub open spec fn split_by(text: Seq<char>, separator: char) -> Seq<Seq<char>>
    decreases text.len(),
{
    if text.len() == 0 {
        seq![Seq::empty()]
    } else {
        let rest = split_by(text.drop_last(), separator);
        if text.last() == separator {
            rest.push(Seq::empty())
        } else {
            rest.drop_last().push(rest.last().push(text.last()))
        }
    }
}

/// The parts of a text between the occurrences of `separator`.
pub fn split_text(text: &str, separator: char) -> (r: Vec<String>)
    ensures
        views(r@) == split_by(text@, separator),
        r@.len() >= 1,
{
    let count: usize = text.unicode_len();
    let mut parts: Vec<String> = Vec::new();
    let mut start: usize = 0;
    let mut i: usize = 0;
    proof {
        assert(text@.take(0) =~= Seq::<char>::empty());
        assert(text@.subrange(0, 0) =~= Seq::<char>::empty());
        assert(views(parts@).push(Seq::<char>::empty()) =~= seq![Seq::<char>::empty()]);
    }
    while i < count
        invariant
            start <= i <= count,
            count == text@.len(),
            split_by(text@.take(i as int), separator) == views(parts@).push(
                text@.subrange(start as int, i as int),
            ),
        decreases count - i,
    {
        let c = text.get_char(i);
        proof {
            assert(text@.take(i + 1).drop_last() =~= text@.take(i as int));
            assert(text@.take(i + 1).last() == c);
            let rest = views(parts@).push(text@.subrange(start as int, i as int));
            assert(rest.drop_last() =~= views(parts@));
        }
        if c == separator {
            let part = String::from_str(text.substring_char(start, i));
            proof {
                lemma_views_push(parts@, part);
                assert(text@.subrange(i + 1, i + 1) =~= Seq::<char>::empty());
            }
            parts.push(part);
            start = i + 1;
        } else {
            proof {
                assert(text@.subrange(start as int, i as int).push(c) =~= text@.subrange(
                    start as int,
                    i + 1,
                ));
            }
        }
        i += 1;
    }
    let part = String::from_str(text.substring_char(start, count));
    proof {
        lemma_views_push(parts@, part);
        assert(text@.take(count as int) =~= text@);
    }
    parts.push(part);
    parts
}

} // verus!
