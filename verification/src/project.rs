//! The delta projector: one recursive fold that turns a delta into a document, under a filter
//! that decides node by node what is kept.
//!
//! A projection is a document or absent. A null that a filter hands back is a document like any
//! other; only a node that the filter leaves alone can come out absent.
use crate::delta::distinct_keys;
use crate::delta::entry_views;
use crate::delta::keyed;
use crate::delta::lemma_keyed;
use crate::delta::Delta;
use crate::delta::DeltaView;
use crate::json::array_value;
use crate::json::entries_of;
use crate::json::json_of;
use crate::json::map_insert;
use crate::json::map_is_empty;
use crate::json::map_with_capacity;
use crate::json::no_entries;
use crate::json::object_value;
use crate::json::Json;
use vstd::prelude::*;

verus! {

/// The policy of a projection: for each node of a delta, the document that stands in the place
/// of the node, or nothing where the node is left to the projector.
pub type Policy = spec_fn(DeltaView) -> Option<Json>;

/// Whether what a filter or the projector handed back is what was chosen: the same document,
/// or nothing.
pub open spec fn answers(kept: Option<serde_json::Value>, chosen: Option<Json>) -> bool {
    match kept {
        Some(value) => chosen == Some(json_of(value)),
        None => chosen is None,
    }
}

/// Whether a filter follows a policy: whatever it hands back for a node is what the policy
/// chose for what the node stands for.
pub open spec fn follows<'a, F: Fn(&Delta<'a>) -> Option<serde_json::Value>>(
    filter: F,
    policy: Policy,
) -> bool {
    forall|delta: &Delta<'a>, kept: Option<serde_json::Value>| #[trigger]
        call_ensures(filter, (delta,), kept) ==> answers(kept, policy(delta@))
}

/// The documents among the items, in their order, without the absent ones.
pub open spec fn present(items: Seq<Option<Json>>) -> Seq<Json>
    decreases items.len(),
{
    if items.len() == 0 {
        Seq::empty()
    } else {
        match items.last() {
            Some(document) => present(items.drop_last()).push(document),
            None => present(items.drop_last()),
        }
    }
}

/// The array of the items, or absent where there is none.
pub open spec fn array_or_absent(items: Seq<Json>) -> Option<Json> {
    if items.len() == 0 {
        None
    } else {
        Some(Json::Array(items))
    }
}

/// The object of the entries, or absent where there is none.
pub open spec fn object_or_absent(entries: Map<Seq<char>, Json>) -> Option<Json> {
    if entries == no_entries() {
        None
    } else {
        Some(Json::Object(entries))
    }
}

/// The projection of a delta under a policy: a document, or nothing where it is absent.
///
/// Where the policy chooses a document for a node, the document stands for the node as it is,
/// null or not, and nothing below the node is looked at. Where it does not, a `List` becomes
/// the array of the projections of its items and a `Mapping` the object of the projections of
/// its entries, in both without those that are absent, and absent itself when nothing is left.
/// Any other node is absent.
pub open spec fn project(delta: DeltaView, policy: Policy) -> Option<Json>
    decreases delta, 1int,
{
    match policy(delta) {
        Some(document) => Some(document),
        None => match delta {
            DeltaView::List(_) => array_or_absent(present(project_items(delta, policy))),
            DeltaView::Mapping(_) => object_or_absent(project_entries(delta, policy)),
            _ => None,
        },
    }
}

/// The projections of the items of a `List`, one for each item, absent ones included.
pub open spec fn project_items(delta: DeltaView, policy: Policy) -> Seq<Option<Json>>
    decreases delta, 0int,
{
    match delta {
        DeltaView::List(items) => Seq::new(
            items.len(),
            |i: int|
                if 0 <= i < items.len() {
                    project(items[i], policy)
                } else {
                    None
                },
        ),
        _ => Seq::empty(),
    }
}

/// The projections of the entries of a `Mapping` that are not absent, by key.
pub open spec fn project_entries(delta: DeltaView, policy: Policy) -> Map<Seq<char>, Json>
    decreases delta, 0int,
{
    match delta {
        DeltaView::Mapping(entries) => Map::new(
            |key: Seq<char>| entries.dom().contains(key) && project(entries[key], policy) is Some,
            |key: Seq<char>|
                if entries.dom().contains(key) {
                    project(entries[key], policy)->Some_0
                } else {
                    Json::Null
                },
        ),
        _ => Map::empty(),
    }
}

/// The document that is printed for a projection: the projection itself, or null where it is
/// absent.
pub open spec fn rendered(projection: Option<Json>) -> Json {
    match projection {
        Some(document) => document,
        None => Json::Null,
    }
}

impl<'a> Delta<'a> {
    /// Folds the delta into a `Value` that can be serialized into a JSON file, asking the filter
    /// at each node: the projection of the delta under the policy that the filter follows, or
    /// nothing where the projection is absent.
    pub fn to_value<F>(&self, filter_node: &F) -> (value: Option<serde_json::Value>) where
        F: Fn(&Delta<'a>) -> Option<serde_json::Value>,

        requires
            self.wf(),
            forall|delta: &Delta<'a>| call_requires(*filter_node, (delta,)),
        ensures
            forall|policy: Policy| #[trigger]
                follows(*filter_node, policy) ==> answers(value, project(self@, policy)),
        decreases self,
    {
        let kept = filter_node(self);
        match kept {
            Some(val) => Some(val),
            None => match self {
                Delta::List(list) => {
                    let ghost mut each: Seq<Option<Json>> = Seq::empty();
                    let mut array: Vec<serde_json::Value> = Vec::with_capacity(list.len());
                    let mut i: usize = 0;
                    while i < list.len()
                        invariant
                            i <= list@.len(),
                            self.wf(),
                            *self is List,
                            self->List_0 == *list,
                            forall|delta: &Delta<'a>| call_requires(*filter_node, (delta,)),
                            each.len() == i,
                            forall|t: int, policy: Policy|
                                0 <= t < i && #[trigger] follows(*filter_node, policy) ==> #[trigger] each[t]
                                    == project(list@[t]@, policy),
                            array@.map_values(|item: serde_json::Value| json_of(item)) == present(each),
                        decreases list@.len() - i,
                    {
                        proof {
                            assert(decreases_to!(self => self->List_0@[i as int]));
                        }
                        let diff = list[i].to_value(filter_node);
                        let ghost before = array@.map_values(|item: serde_json::Value| json_of(item));
                        let ghost listed = each;
                        match diff {
                            None => {
                                proof {
                                    each = each.push(None);
                                }
                            },
                            Some(item) => {
                                proof {
                                    each = each.push(Some(json_of(item)));
                                }
                                array.push(item);
                            },
                        }
                        proof {
                            assert(each.drop_last() =~= listed);
                            assert(array@.map_values(|item: serde_json::Value| json_of(item)) =~= match each.last() {
                                Some(document) => before.push(document),
                                None => before,
                            });
                        }
                        i += 1;
                    }
                    let value = if array.is_empty() {
                        None
                    } else {
                        Some(array_value(array))
                    };
                    proof {
                        assert forall|policy: Policy| #[trigger] follows(*filter_node, policy) implies answers(
                            value,
                            project(self@, policy),
                        ) by {
                            Delta::lemma_list_view(*list);
                            assert(each =~= project_items(self@, policy));
                        }
                    }
                    value
                },
                Delta::Mapping(map) => {
                    let ghost pairs = entry_views(map@);
                    let ghost mut each: Seq<Option<Json>> = Seq::empty();
                    let mut object = map_with_capacity(map.len());
                    let mut i: usize = 0;
                    proof {
                        Delta::lemma_mapping_view(*map);
                    }
                    while i < map.len()
                        invariant
                            i <= map@.len(),
                            self.wf(),
                            *self is Mapping,
                            self->Mapping_0 == *map,
                            forall|delta: &Delta<'a>| call_requires(*filter_node, (delta,)),
                            pairs == entry_views(map@),
                            distinct_keys(pairs),
                            each.len() == i,
                            forall|t: int, policy: Policy|
                                0 <= t < i && #[trigger] follows(*filter_node, policy) ==> #[trigger] each[t]
                                    == project(pairs[t].1, policy),
                            kept_of(pairs, each, entries_of(object)),
                        decreases map@.len() - i,
                    {
                        proof {
                            assert(decreases_to!(self => self->Mapping_0@[i as int].1));
                        }
                        let key = map[i].0;
                        let diff = map[i].1.to_value(filter_node);
                        let ghost before = entries_of(object);
                        let ghost listed = each;
                        proof {
                            assert(pairs[i as int] == (key@, map@[i as int].1@));
                        }
                        match diff {
                            None => {
                                proof {
                                    each = each.push(None);
                                }
                            },
                            Some(item) => {
                                proof {
                                    each = each.push(Some(json_of(item)));
                                }
                                map_insert(&mut object, key.clone(), item);
                            },
                        }
                        proof {
                            lemma_kept_next(pairs, listed, before, each.last());
                        }
                        i += 1;
                    }
                    let value = if map_is_empty(&object) {
                        None
                    } else {
                        Some(object_value(object))
                    };
                    proof {
                        assert forall|policy: Policy| #[trigger] follows(*filter_node, policy) implies answers(
                            value,
                            project(self@, policy),
                        ) by {
                            lemma_kept_all(pairs, each, entries_of(object), policy);
                        }
                    }
                    value
                },
                _ => None,
            },
        }
    }
}

/// Whether `kept` holds, of the first entries of `pairs`, as many as `each` is long, those whose
/// projection in `each` is not absent: each under its key.
pub open spec fn kept_of(
    pairs: Seq<(Seq<char>, DeltaView)>,
    each: Seq<Option<Json>>,
    kept: Map<Seq<char>, Json>,
) -> bool {
    &&& forall|key: Seq<char>| #[trigger]
        kept.dom().contains(key) <==> exists|t: int|
            0 <= t < each.len() && (#[trigger] pairs[t]).0 == key && each[t] is Some
    &&& forall|t: int|
        0 <= t < each.len() && (#[trigger] each[t]) is Some ==> kept[pairs[t].0] == each[t]->Some_0
}

/// One more entry: its projection is put under its key where it is not absent.
pub proof fn lemma_kept_next(
    pairs: Seq<(Seq<char>, DeltaView)>,
    each: Seq<Option<Json>>,
    kept: Map<Seq<char>, Json>,
    next: Option<Json>,
)
    requires
        distinct_keys(pairs),
        each.len() < pairs.len(),
        kept_of(pairs, each, kept),
    ensures
        kept_of(
            pairs,
            each.push(next),
            match next {
                Some(document) => kept.insert(pairs[each.len() as int].0, document),
                None => kept,
            },
        ),
{
    let n = each.len() as int;
    let more = each.push(next);
    let after = match next {
        Some(document) => kept.insert(pairs[n].0, document),
        None => kept,
    };
    assert forall|key: Seq<char>| #[trigger] after.dom().contains(key) <==> exists|t: int|
        0 <= t < more.len() && (#[trigger] pairs[t]).0 == key && more[t] is Some by {
        if after.dom().contains(key) {
            if kept.dom().contains(key) {
                let t = choose|t: int|
                    0 <= t < each.len() && (#[trigger] pairs[t]).0 == key && each[t] is Some;
                assert(0 <= t < more.len() && pairs[t].0 == key && more[t] is Some);
            } else {
                assert(0 <= n < more.len() && pairs[n].0 == key && more[n] is Some);
            }
        }
        if exists|t: int| 0 <= t < more.len() && (#[trigger] pairs[t]).0 == key && more[t] is Some {
            let t = choose|t: int| 0 <= t < more.len() && (#[trigger] pairs[t]).0 == key && more[t] is Some;
            if t < n {
                assert(0 <= t < each.len() && pairs[t].0 == key && each[t] is Some);
            }
        }
    }
    assert forall|t: int| 0 <= t < more.len() && (#[trigger] more[t]) is Some implies after[pairs[t].0]
        == more[t]->Some_0 by {
        if t < n {
            assert(each[t] == more[t]);
            assert(pairs[t].0 != pairs[n].0);
        }
    }
}

/// With every entry looked at, what was kept is the projection of the entries of the mapping.
pub proof fn lemma_kept_all(
    pairs: Seq<(Seq<char>, DeltaView)>,
    each: Seq<Option<Json>>,
    kept: Map<Seq<char>, Json>,
    policy: Policy,
)
    requires
        distinct_keys(pairs),
        each.len() == pairs.len(),
        kept_of(pairs, each, kept),
        forall|t: int| 0 <= t < each.len() ==> #[trigger] each[t] == project(pairs[t].1, policy),
    ensures
        kept == project_entries(DeltaView::Mapping(keyed(pairs)), policy),
{
    let entries = keyed(pairs);
    let projected = project_entries(DeltaView::Mapping(entries), policy);
    lemma_keyed(pairs);
    assert forall|key: Seq<char>| projected.dom().contains(key) implies kept.dom().contains(key) && kept[key]
        == projected[key] by {
        let t = choose|t: int| 0 <= t < pairs.len() && (#[trigger] pairs[t]).0 == key;
        assert(entries.contains_pair(pairs[t].0, pairs[t].1));
        assert(each[t] is Some);
    }
    assert forall|key: Seq<char>| kept.dom().contains(key) implies projected.dom().contains(key) by {
        let t = choose|t: int| 0 <= t < each.len() && (#[trigger] pairs[t]).0 == key && each[t] is Some;
        assert(entries.contains_pair(pairs[t].0, pairs[t].1));
    }
    assert(kept =~= projected);
}

} // verus!
