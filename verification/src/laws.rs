//! What holds of the differencer, the projector and the three standard filters together.
//!
//! A projection keeps every node that a filter chose, null or not. What falls away is a
//! container with nothing to show, so an empty array or object is never shown. The laws below
//! say exactly where that matters.
use crate::config::ConfigView;
use crate::delta::compare;
use crate::delta::DeltaView;
use crate::filters::delta_to_first_set;
use crate::filters::delta_to_second_set;
use crate::filters::equal_set;
use crate::json::no_entries;
use crate::json::Json;
use crate::project::present;
use crate::project::project;
use crate::project::project_entries;
use crate::project::project_items;
use crate::project::Policy;
use crate::run::as_planned;
use crate::run::run_plan;
use crate::run::same_outcome;
use crate::run::Failure;
use crate::run::Output;
use vstd::prelude::*;

verus! {

/// Every leaf of the delta is `Equal`.
pub open spec fn all_equal(delta: DeltaView) -> bool
    decreases delta,
{
    match delta {
        DeltaView::Equal(_) => true,
        DeltaView::List(items) => forall|i: int| 0 <= i < items.len() ==> all_equal(#[trigger] items[i]),
        DeltaView::Mapping(entries) => forall|key: Seq<char>|
            entries.dom().contains(key) ==> all_equal(#[trigger] entries[key]),
        _ => false,
    }
}

/// The delta holds no leaf at all: it is made of lists and mappings that come down to empty
/// ones.
pub open spec fn hollow(delta: DeltaView) -> bool
    decreases delta,
{
    match delta {
        DeltaView::List(items) => forall|i: int| 0 <= i < items.len() ==> hollow(#[trigger] items[i]),
        DeltaView::Mapping(entries) => forall|key: Seq<char>|
            entries.dom().contains(key) ==> hollow(#[trigger] entries[key]),
        _ => false,
    }
}

/// The document holds no empty array and no empty object, at any depth.
pub open spec fn full(document: Json) -> bool
    decreases document,
{
    match document {
        Json::Array(items) => items.len() > 0 && forall|i: int|
            0 <= i < items.len() ==> full(#[trigger] items[i]),
        Json::Object(entries) => entries != no_entries() && forall|key: Seq<char>|
            entries.dom().contains(key) ==> full(#[trigger] entries[key]),
        _ => true,
    }
}

/// What a projection shows under a key: the value that the object holds there, and nothing
/// where the projection is absent, is no object or has not the key.
pub open spec fn value_at(projection: Option<Json>, key: Seq<char>) -> Option<Json> {
    match projection {
        Some(Json::Object(entries)) => if entries.dom().contains(key) {
            Some(entries[key])
        } else {
            None
        },
        _ => None,
    }
}

/// The keys that a projection shows.
pub open spec fn keys_of(projection: Option<Json>) -> Set<Seq<char>> {
    Set::new(|key: Seq<char>| value_at(projection, key) is Some)
}

/// The keys that the three standard projections of a delta show, taken together.
pub open spec fn shown_keys(delta: DeltaView) -> Set<Seq<char>> {
    keys_of(project(delta, equal_set())).union(keys_of(project(delta, delta_to_second_set()))).union(
        keys_of(project(delta, delta_to_first_set())),
    )
}

/// Whether two deltas are each other's mirror image: the same shape throughout, the same
/// equal nodes, in each pair of differing nodes the two sides exchanged, and each node of one
/// side alone on the other side.
pub open spec fn mirrored(delta: DeltaView, image: DeltaView) -> bool
    decreases delta,
{
    match (delta, image) {
        (DeltaView::Equal(a), DeltaView::Equal(b)) => a == b,
        (DeltaView::DifferentContent(a, b), DeltaView::DifferentContent(c, d)) => a == d && b == c,
        (DeltaView::DifferentVariant(a, b), DeltaView::DifferentVariant(c, d)) => a == d && b == c,
        (DeltaView::MissingInSecond(a), DeltaView::MissingInFirst(b)) => a == b,
        (DeltaView::MissingInFirst(a), DeltaView::MissingInSecond(b)) => a == b,
        (DeltaView::List(x), DeltaView::List(y)) => {
            &&& x.len() == y.len()
            &&& forall|i: int| 0 <= i < x.len() ==> mirrored(#[trigger] x[i], y[i])
        },
        (DeltaView::Mapping(x), DeltaView::Mapping(y)) => {
            &&& x.dom() =~= y.dom()
            &&& forall|key: Seq<char>| x.dom().contains(key) ==> mirrored(#[trigger] x[key], y[key])
        },
        _ => false,
    }
}

/// Where every item is a document, the documents among the items are all of them.
pub proof fn lemma_present_all(items: Seq<Option<Json>>)
    requires
        forall|i: int| 0 <= i < items.len() ==> (#[trigger] items[i]) is Some,
    ensures
        present(items).len() == items.len(),
        forall|i: int| 0 <= i < items.len() ==> #[trigger] present(items)[i] == items[i]->Some_0,
    decreases items.len(),
{
    if items.len() > 0 {
        let front = items.drop_last();
        assert forall|i: int| 0 <= i < front.len() implies (#[trigger] front[i]) is Some by {
            assert(front[i] == items[i]);
        }
        lemma_present_all(front);
        assert forall|i: int| 0 <= i < items.len() implies #[trigger] present(items)[i] == items[i]->Some_0 by {
            if i < front.len() {
                assert(front[i] == items[i]);
                assert(present(items)[i] == present(front)[i]);
            }
        }
    }
}

/// There are no more documents among the items than items, and there is none exactly when
/// every item is absent.
pub proof fn lemma_present_empty(items: Seq<Option<Json>>)
    ensures
        present(items).len() <= items.len(),
        present(items).len() == 0 <==> forall|i: int| 0 <= i < items.len() ==> (#[trigger] items[i]) is None,
    decreases items.len(),
{
    if items.len() > 0 {
        let front = items.drop_last();
        lemma_present_empty(front);
        if present(items).len() == 0 {
            assert forall|i: int| 0 <= i < items.len() implies (#[trigger] items[i]) is None by {
                if i < front.len() {
                    assert(front[i] == items[i]);
                }
            }
        }
        if forall|i: int| 0 <= i < items.len() ==> (#[trigger] items[i]) is None {
            assert(items[items.len() - 1] is None);
            assert forall|i: int| 0 <= i < front.len() implies (#[trigger] front[i]) is None by {
                assert(front[i] == items[i]);
            }
        }
    }
}

/// Where there are as many documents among the items as items, every item is a document.
pub proof fn lemma_present_full(items: Seq<Option<Json>>)
    requires
        present(items).len() == items.len(),
    ensures
        forall|i: int| 0 <= i < items.len() ==> (#[trigger] items[i]) is Some,
    decreases items.len(),
{
    if items.len() > 0 {
        let front = items.drop_last();
        lemma_present_empty(front);
        lemma_present_full(front);
        assert forall|i: int| 0 <= i < items.len() implies (#[trigger] items[i]) is Some by {
            if i < front.len() {
                assert(front[i] == items[i]);
            }
        }
    }
}

/// The projection of a mapping that the policy leaves to the projector shows under each key
/// the projection of the delta under the key.
pub proof fn lemma_value_at(delta: DeltaView, policy: Policy, key: Seq<char>)
    requires
        delta is Mapping,
        policy(delta) is None,
    ensures
        value_at(project(delta, policy), key) == if delta->Mapping_0.dom().contains(key) {
            project(delta->Mapping_0[key], policy)
        } else {
            None
        },
{
    let kept = project_entries(delta, policy);
    assert(kept == no_entries() ==> !kept.dom().contains(key));
}

/// Deep equality holds of a document and itself.
pub proof fn lemma_same_reflexive(document: Json)
    ensures
        document.same(document),
    decreases document,
{
    match document {
        Json::Array(items) => {
            assert forall|i: int| 0 <= i < items.len() implies (#[trigger] items[i]).same(items[i]) by {
                lemma_same_reflexive(items[i]);
            }
        },
        Json::Object(entries) => {
            assert forall|key: Seq<char>| entries.dom().contains(key) implies (#[trigger] entries[key]).same(
                entries[key],
            ) by {
                lemma_same_reflexive(entries[key]);
            }
        },
        _ => {},
    }
}

/// Two documents that are deeply equal have a delta that is `Equal` at every leaf.
pub proof fn law_equal_documents(first: Json, second: Json)
    requires
        first.same(second),
    ensures
        all_equal(compare(first, second)),
    decreases first,
{
    match (first, second) {
        (Json::Array(a), Json::Array(b)) => {
            let items = compare(first, second)->List_0;
            assert forall|i: int| 0 <= i < items.len() implies all_equal(#[trigger] items[i]) by {
                law_equal_documents(a[i], b[i]);
            }
        },
        (Json::Object(a), Json::Object(b)) => {
            let entries = compare(first, second)->Mapping_0;
            assert forall|key: Seq<char>| entries.dom().contains(key) implies all_equal(
                #[trigger] entries[key],
            ) by {
                law_equal_documents(a[key], b[key]);
            }
        },
        _ => {},
    }
}

/// A delta that is `Equal` at every leaf shows no difference: both difference projections are
/// absent.
pub proof fn law_no_difference(delta: DeltaView)
    requires
        all_equal(delta),
    ensures
        project(delta, delta_to_second_set()) is None,
        project(delta, delta_to_first_set()) is None,
    decreases delta,
{
    match delta {
        DeltaView::List(items) => {
            let to_second = project_items(delta, delta_to_second_set());
            let to_first = project_items(delta, delta_to_first_set());
            assert forall|i: int| 0 <= i < items.len() implies (#[trigger] to_second[i]) is None by {
                law_no_difference(items[i]);
            }
            assert forall|i: int| 0 <= i < items.len() implies (#[trigger] to_first[i]) is None by {
                law_no_difference(items[i]);
            }
            lemma_present_empty(to_second);
            lemma_present_empty(to_first);
        },
        DeltaView::Mapping(entries) => {
            assert forall|key: Seq<char>| entries.dom().contains(key) implies project(
                #[trigger] entries[key],
                delta_to_second_set(),
            ) is None && project(entries[key], delta_to_first_set()) is None by {
                law_no_difference(entries[key]);
            }
            assert(project_entries(delta, delta_to_second_set()) =~= no_entries());
            assert(project_entries(delta, delta_to_first_set()) =~= no_entries());
        },
        _ => {},
    }
}

/// What is equal in two deeply equal documents is the first document, where it holds no empty
/// array or object.
pub proof fn law_equal_set_of_same(first: Json, second: Json)
    requires
        first.same(second),
        full(first),
    ensures
        project(compare(first, second), equal_set()) == Some(first),
    decreases first,
{
    let delta = compare(first, second);
    match (first, second) {
        (Json::Array(a), Json::Array(b)) => {
            let each = project_items(delta, equal_set());
            assert forall|i: int| 0 <= i < a.len() implies #[trigger] each[i] == Some(a[i]) by {
                assert(full(a[i]));
                law_equal_set_of_same(a[i], b[i]);
            }
            lemma_present_all(each);
            assert(present(each) =~= a);
        },
        (Json::Object(a), Json::Object(b)) => {
            assert forall|key: Seq<char>| a.dom().contains(key) implies project(
                #[trigger] delta->Mapping_0[key],
                equal_set(),
            ) == Some(a[key]) by {
                assert(full(a[key]));
                law_equal_set_of_same(a[key], b[key]);
            }
            assert(project_entries(delta, equal_set()) =~= a);
        },
        _ => {},
    }
}

/// What is equal in a document and itself is the document only where it holds no empty array
/// or object.
pub proof fn law_equal_set_only_of_full(document: Json)
    requires
        project(compare(document, document), equal_set()) == Some(document),
    ensures
        full(document),
    decreases document,
{
    let delta = compare(document, document);
    match document {
        Json::Array(items) => {
            let each = project_items(delta, equal_set());
            assert(present(each) == items);
            lemma_present_full(each);
            lemma_present_all(each);
            assert forall|i: int| 0 <= i < items.len() implies full(#[trigger] items[i]) by {
                assert(each[i] is Some);
                assert(present(each)[i] == each[i]->Some_0);
                law_equal_set_only_of_full(items[i]);
            }
        },
        Json::Object(entries) => {
            let kept = project_entries(delta, equal_set());
            assert(kept == entries);
            assert forall|key: Seq<char>| entries.dom().contains(key) implies full(
                #[trigger] entries[key],
            ) by {
                assert(kept.dom().contains(key));
                assert(kept[key] == entries[key]);
                law_equal_set_only_of_full(entries[key]);
            }
        },
        _ => {},
    }
}

/// Reflexivity. The delta of a document and itself is `Equal` at every leaf, and both
/// difference projections of it are absent. Its equal-set projection is the document exactly
/// when the document holds no empty array or object; nulls are kept.
pub proof fn law_reflexive(document: Json)
    ensures
        all_equal(compare(document, document)),
        project(compare(document, document), delta_to_second_set()) is None,
        project(compare(document, document), delta_to_first_set()) is None,
        project(compare(document, document), equal_set()) == Some(document) <==> full(document),
{
    lemma_same_reflexive(document);
    law_equal_documents(document, document);
    law_no_difference(compare(document, document));
    if full(document) {
        law_equal_set_of_same(document, document);
    }
    if project(compare(document, document), equal_set()) == Some(document) {
        law_equal_set_only_of_full(document);
    }
}

/// Antisymmetry of the difference views. What differs between a first and a second document,
/// seen from the first, is what differs between them with their places exchanged, seen from
/// the one that then comes second: the same positions, in each pair the same two nodes in the
/// same order, and the same nodes that only the one document holds. The same holds with the
/// two views exchanged.
pub proof fn law_mirrored_views(first: Json, second: Json)
    ensures
        project(compare(first, second), delta_to_second_set()) == project(
            compare(second, first),
            delta_to_first_set(),
        ),
        project(compare(first, second), delta_to_first_set()) == project(
            compare(second, first),
            delta_to_second_set(),
        ),
{
    lemma_mirrored_views(first, second);
    lemma_mirrored_views(second, first);
}

/// The difference of two documents as seen from the first is their difference, with their
/// places exchanged, as seen from the second.
pub proof fn lemma_mirrored_views(first: Json, second: Json)
    ensures
        project(compare(first, second), delta_to_second_set()) == project(
            compare(second, first),
            delta_to_first_set(),
        ),
    decreases first,
{
    let forth = compare(first, second);
    let back = compare(second, first);
    match (first, second) {
        (Json::Array(a), Json::Array(b)) => {
            let seen = project_items(forth, delta_to_second_set());
            let mirror = project_items(back, delta_to_first_set());
            assert(seen.len() == mirror.len());
            assert forall|i: int| 0 <= i < seen.len() implies #[trigger] seen[i] == mirror[i] by {
                if i < a.len() && i < b.len() {
                    lemma_mirrored_views(a[i], b[i]);
                }
            }
            assert(seen =~= mirror);
        },
        (Json::Object(a), Json::Object(b)) => {
            assert forall|key: Seq<char>| a.dom().contains(key) || b.dom().contains(key) implies project(
                #[trigger] forth->Mapping_0[key],
                delta_to_second_set(),
            ) == project(back->Mapping_0[key], delta_to_first_set()) by {
                if a.dom().contains(key) && b.dom().contains(key) {
                    lemma_mirrored_views(a[key], b[key]);
                }
            }
            assert(project_entries(forth, delta_to_second_set()) =~= project_entries(
                back,
                delta_to_first_set(),
            ));
        },
        _ => {},
    }
}

/// The two difference views of one delta, pair by pair. The view from the second document is
/// the view from the first of the mirror image of the delta: in the same containers and in the
/// same order, where the one view shows a pair the other shows the pair with its two sides
/// exchanged, and each shows the bare nodes of its own side. What is equal is the same in both.
pub proof fn law_views_of_one_delta(delta: DeltaView, image: DeltaView)
    requires
        mirrored(delta, image),
    ensures
        project(delta, delta_to_first_set()) == project(image, delta_to_second_set()),
        project(delta, delta_to_second_set()) == project(image, delta_to_first_set()),
        project(delta, equal_set()) == project(image, equal_set()),
    decreases delta,
{
    match (delta, image) {
        (DeltaView::List(x), DeltaView::List(y)) => {
            assert forall|i: int| 0 <= i < x.len() implies {
                &&& project(#[trigger] x[i], delta_to_first_set()) == project(y[i], delta_to_second_set())
                &&& project(x[i], delta_to_second_set()) == project(y[i], delta_to_first_set())
                &&& project(x[i], equal_set()) == project(y[i], equal_set())
            } by {
                law_views_of_one_delta(x[i], y[i]);
            }
            assert(project_items(delta, delta_to_first_set()) =~= project_items(image, delta_to_second_set()));
            assert(project_items(delta, delta_to_second_set()) =~= project_items(image, delta_to_first_set()));
            assert(project_items(delta, equal_set()) =~= project_items(image, equal_set()));
        },
        (DeltaView::Mapping(x), DeltaView::Mapping(y)) => {
            assert forall|key: Seq<char>| x.dom().contains(key) implies {
                &&& project(#[trigger] x[key], delta_to_first_set()) == project(y[key], delta_to_second_set())
                &&& project(x[key], delta_to_second_set()) == project(y[key], delta_to_first_set())
                &&& project(x[key], equal_set()) == project(y[key], equal_set())
            } by {
                law_views_of_one_delta(x[key], y[key]);
            }
            assert(project_entries(delta, delta_to_first_set()) =~= project_entries(
                image,
                delta_to_second_set(),
            ));
            assert(project_entries(delta, delta_to_second_set()) =~= project_entries(
                image,
                delta_to_first_set(),
            ));
            assert(project_entries(delta, equal_set()) =~= project_entries(image, equal_set()));
        },
        _ => {},
    }
}

/// A delta is hollow exactly when all three standard projections of it are absent.
pub proof fn law_hollow(delta: DeltaView)
    ensures
        hollow(delta) <==> {
            &&& project(delta, equal_set()) is None
            &&& project(delta, delta_to_second_set()) is None
            &&& project(delta, delta_to_first_set()) is None
        },
    decreases delta,
{
    match delta {
        DeltaView::List(items) => {
            let equal = project_items(delta, equal_set());
            let to_second = project_items(delta, delta_to_second_set());
            let to_first = project_items(delta, delta_to_first_set());
            lemma_present_empty(equal);
            lemma_present_empty(to_second);
            lemma_present_empty(to_first);
            assert forall|i: int| 0 <= i < items.len() implies (hollow(#[trigger] items[i]) <==> equal[i] is None
                && to_second[i] is None && to_first[i] is None) by {
                law_hollow(items[i]);
            }
            if hollow(delta) {
                assert forall|i: int| 0 <= i < items.len() implies (#[trigger] equal[i]) is None by {
                    assert(hollow(items[i]));
                }
                assert forall|i: int| 0 <= i < items.len() implies (#[trigger] to_second[i]) is None by {
                    assert(hollow(items[i]));
                }
                assert forall|i: int| 0 <= i < items.len() implies (#[trigger] to_first[i]) is None by {
                    assert(hollow(items[i]));
                }
            } else {
                let i = choose|i: int| 0 <= i < items.len() && !hollow(#[trigger] items[i]);
                assert(equal[i] is Some || to_second[i] is Some || to_first[i] is Some);
            }
        },
        DeltaView::Mapping(entries) => {
            let equal = project_entries(delta, equal_set());
            let to_second = project_entries(delta, delta_to_second_set());
            let to_first = project_entries(delta, delta_to_first_set());
            assert forall|key: Seq<char>| entries.dom().contains(key) implies (hollow(#[trigger] entries[key])
                <==> !equal.dom().contains(key) && !to_second.dom().contains(key) && !to_first.dom().contains(
                key,
            )) by {
                law_hollow(entries[key]);
            }
            if hollow(delta) {
                assert(equal =~= no_entries());
                assert(to_second =~= no_entries());
                assert(to_first =~= no_entries());
            }
            if equal == no_entries() && to_second == no_entries() && to_first == no_entries() {
                assert forall|key: Seq<char>| entries.dom().contains(key) implies hollow(
                    #[trigger] entries[key],
                ) by {
                    assert(!equal.dom().contains(key));
                    assert(!to_second.dom().contains(key));
                    assert(!to_first.dom().contains(key));
                }
            }
        },
        _ => {},
    }
}

/// Key-union completeness, key by key. The three standard projections of the delta of two
/// objects show a key exactly when one of the objects has the key and the delta under the key
/// is not hollow.
pub proof fn law_shown_keys(first: Map<Seq<char>, Json>, second: Map<Seq<char>, Json>, key: Seq<char>)
    ensures
        shown_keys(compare(Json::Object(first), Json::Object(second))).contains(key) <==> {
            &&& first.dom().union(second.dom()).contains(key)
            &&& !hollow(compare(Json::Object(first), Json::Object(second))->Mapping_0[key])
        },
{
    let delta = compare(Json::Object(first), Json::Object(second));
    if first.dom().union(second.dom()).contains(key) {
        law_hollow(delta->Mapping_0[key]);
    }
    lemma_value_at(delta, equal_set(), key);
    lemma_value_at(delta, delta_to_second_set(), key);
    lemma_value_at(delta, delta_to_first_set(), key);
}

/// Key-union completeness. Where no delta under a key is hollow, the keys that the three
/// standard projections of the delta of two objects show are the keys of the two objects.
pub proof fn law_key_union(first: Map<Seq<char>, Json>, second: Map<Seq<char>, Json>)
    requires
        forall|key: Seq<char>|
            first.dom().union(second.dom()).contains(key) ==> !hollow(
                #[trigger] compare(Json::Object(first), Json::Object(second))->Mapping_0[key],
            ),
    ensures
        shown_keys(compare(Json::Object(first), Json::Object(second))) == first.dom().union(second.dom()),
{
    let delta = compare(Json::Object(first), Json::Object(second));
    assert forall|key: Seq<char>| shown_keys(delta).contains(key) <==> first.dom().union(second.dom()).contains(
        key,
    ) by {
        law_shown_keys(first, second, key);
    }
    assert(shown_keys(delta) =~= first.dom().union(second.dom()));
}

/// A key of both objects with deeply equal values is shown by the equal-set projection alone:
/// with what is equal in the two values, which is the first object's value where that holds no
/// empty array or object, and not at all exactly when the delta under the key is hollow.
pub proof fn law_key_of_equal_values(
    first: Map<Seq<char>, Json>,
    second: Map<Seq<char>, Json>,
    key: Seq<char>,
)
    requires
        first.dom().contains(key),
        second.dom().contains(key),
        first[key].same(second[key]),
    ensures
        ({
            let delta = compare(Json::Object(first), Json::Object(second));
            &&& value_at(project(delta, delta_to_second_set()), key) is None
            &&& value_at(project(delta, delta_to_first_set()), key) is None
            &&& value_at(project(delta, equal_set()), key) == project(
                compare(first[key], second[key]),
                equal_set(),
            )
            &&& value_at(project(delta, equal_set()), key) is None <==> hollow(compare(first[key], second[key]))
            &&& full(first[key]) ==> value_at(project(delta, equal_set()), key) == Some(first[key])
        }),
{
    let delta = compare(Json::Object(first), Json::Object(second));
    law_equal_documents(first[key], second[key]);
    law_no_difference(compare(first[key], second[key]));
    law_hollow(compare(first[key], second[key]));
    if full(first[key]) {
        law_equal_set_of_same(first[key], second[key]);
    }
    lemma_value_at(delta, equal_set(), key);
    lemma_value_at(delta, delta_to_second_set(), key);
    lemma_value_at(delta, delta_to_first_set(), key);
}

/// A key of one object alone is shown by the difference projection of that object's side
/// alone, with the bare value that the object holds under it, null or not.
pub proof fn law_key_of_one_side(first: Map<Seq<char>, Json>, second: Map<Seq<char>, Json>, key: Seq<char>)
    requires
        first.dom().contains(key) != second.dom().contains(key),
    ensures
        ({
            let delta = compare(Json::Object(first), Json::Object(second));
            &&& value_at(project(delta, equal_set()), key) is None
            &&& first.dom().contains(key) ==> {
                &&& value_at(project(delta, delta_to_second_set()), key) == Some(first[key])
                &&& value_at(project(delta, delta_to_first_set()), key) is None
            }
            &&& second.dom().contains(key) ==> {
                &&& value_at(project(delta, delta_to_first_set()), key) == Some(second[key])
                &&& value_at(project(delta, delta_to_second_set()), key) is None
            }
        }),
{
    let delta = compare(Json::Object(first), Json::Object(second));
    lemma_value_at(delta, equal_set(), key);
    lemma_value_at(delta, delta_to_second_set(), key);
    lemma_value_at(delta, delta_to_first_set(), key);
}

/// Running again. The outcome of a comparison rests on the configuration and the two texts
/// alone: two runs on the same ones give the same files with the same contents, or the same
/// failure.
pub proof fn law_run_again(
    config: ConfigView,
    first: Seq<u8>,
    second: Seq<u8>,
    once: Result<Vec<Output>, Failure>,
    again: Result<Vec<Output>, Failure>,
)
    requires
        as_planned(once, run_plan(config, first, second)),
        as_planned(again, run_plan(config, first, second)),
    ensures
        same_outcome(once, again),
{
}

} // verus!
