//! The structural differencer: the delta of two documents, node by node.
use crate::json::as_array;
use crate::json::as_object;
use crate::json::entries_of;
use crate::json::entry_of;
use crate::json::json_of;
use crate::json::kind_of;
use crate::json::lists_entries;
use crate::json::map_contains_key;
use crate::json::map_entries;
use crate::json::map_get;
use crate::json::value_eq;
use crate::json::Json;
use crate::json::Kind;
use vstd::prelude::*;

verus! {

/// The delta of two documents as a mathematical value: what [`Delta`] stands for.
pub enum DeltaView {
    /// Both documents hold this node.
    Equal(Json),
    /// Both nodes have one shape, and differ in what they hold.
    DifferentContent(Json, Json),
    /// The two nodes have different shapes.
    DifferentVariant(Json, Json),
    /// The first document holds this node where the second holds none.
    MissingInSecond(Json),
    /// The second document holds this node where the first holds none.
    MissingInFirst(Json),
    /// The deltas of two arrays, position by position.
    List(Seq<DeltaView>),
    /// The deltas of two objects, key by key.
    Mapping(Map<Seq<char>, DeltaView>),
}

/// The map that a list of keyed items stands for. Of two items under one key the later counts.
pub open spec fn keyed<T>(pairs: Seq<(Seq<char>, T)>) -> Map<Seq<char>, T>
    decreases pairs.len(),
{
    if pairs.len() == 0 {
        Map::empty()
    } else {
        keyed(pairs.drop_last()).insert(pairs.last().0, pairs.last().1)
    }
}

/// No key comes twice in the list.
pub open spec fn distinct_keys<T>(pairs: Seq<(Seq<char>, T)>) -> bool {
    forall|i: int, j: int| 0 <= i < j < pairs.len() ==> (#[trigger] pairs[i]).0 != (#[trigger] pairs[j]).0
}

/// With no key twice, the map of a list holds each item of the list under its key, and no
/// other key.
pub proof fn lemma_keyed<T>(pairs: Seq<(Seq<char>, T)>)
    requires
        distinct_keys(pairs),
    ensures
        forall|i: int| 0 <= i < pairs.len() ==> keyed(pairs).contains_pair((#[trigger] pairs[i]).0, pairs[i].1),
        forall|key: Seq<char>| #[trigger]
            keyed(pairs).dom().contains(key) ==> exists|i: int|
                0 <= i < pairs.len() && (#[trigger] pairs[i]).0 == key,
    decreases pairs.len(),
{
    if pairs.len() > 0 {
        let front = pairs.drop_last();
        assert(distinct_keys(front)) by {
            assert forall|i: int, j: int| 0 <= i < j < front.len() implies (#[trigger] front[i]).0 != (
            #[trigger] front[j]).0 by {
                assert(front[i] == pairs[i]);
                assert(front[j] == pairs[j]);
            }
        }
        lemma_keyed(front);
        assert forall|i: int| 0 <= i < pairs.len() implies keyed(pairs).contains_pair(
            (#[trigger] pairs[i]).0,
            pairs[i].1,
        ) by {
            if i < pairs.len() - 1 {
                assert(front[i] == pairs[i]);
                assert(pairs[i].0 != pairs[pairs.len() - 1].0);
            }
        }
        assert forall|key: Seq<char>| #[trigger] keyed(pairs).dom().contains(key) implies exists|i: int|
            0 <= i < pairs.len() && (#[trigger] pairs[i]).0 == key by {
            if key == pairs.last().0 {
                assert(pairs[pairs.len() - 1].0 == key);
            } else {
                assert(keyed(front).dom().contains(key));
                let i = choose|i: int| 0 <= i < front.len() && (#[trigger] front[i]).0 == key;
                assert(front[i] == pairs[i]);
            }
        }
    }
}

/// The delta of two scalars of one shape: equal, or of different content.
pub open spec fn leaf(first: Json, second: Json) -> DeltaView {
    if first.same(second) {
        DeltaView::Equal(first)
    } else {
        DeltaView::DifferentContent(first, second)
    }
}

/// The delta of two documents.
///
/// Two nulls are equal. Two booleans, two numbers or two strings are equal or of different
/// content. Two arrays are compared position by position up to the length of the shorter; each
/// further item of the longer is missing in the other document. Two objects are compared key by
/// key: a key of both by its two values, a key of one as missing in the other. Two nodes of
/// different shapes are of different variant.
pub open spec fn compare(first: Json, second: Json) -> DeltaView
    decreases first,
{
    match (first, second) {
        (Json::Null, Json::Null) => DeltaView::Equal(first),
        (Json::Bool(_), Json::Bool(_)) => leaf(first, second),
        (Json::Number(_), Json::Number(_)) => leaf(first, second),
        (Json::String(_), Json::String(_)) => leaf(first, second),
        (Json::Array(a), Json::Array(b)) => DeltaView::List(
            Seq::new(
                if a.len() >= b.len() {
                    a.len()
                } else {
                    b.len()
                },
                |i: int|
                    if 0 <= i < a.len() && i < b.len() {
                        compare(a[i], b[i])
                    } else if 0 <= i < a.len() {
                        DeltaView::MissingInSecond(a[i])
                    } else {
                        DeltaView::MissingInFirst(b[i])
                    },
            ),
        ),
        (Json::Object(a), Json::Object(b)) => DeltaView::Mapping(
            Map::new(
                |key: Seq<char>| a.dom().contains(key) || b.dom().contains(key),
                |key: Seq<char>|
                    if a.dom().contains(key) && b.dom().contains(key) {
                        compare(a[key], b[key])
                    } else if a.dom().contains(key) {
                        DeltaView::MissingInSecond(a[key])
                    } else {
                        DeltaView::MissingInFirst(b[key])
                    },
            ),
        ),
        _ => DeltaView::DifferentVariant(first, second),
    }
}

/// Represents the possible delta between two JSON nodes. A delta borrows the nodes of the two
/// documents it was computed from.
#[derive(Debug)]
pub enum Delta<'a> {
    Equal(&'a serde_json::Value),
    DifferentContent((&'a serde_json::Value, &'a serde_json::Value)),
    DifferentVariant((&'a serde_json::Value, &'a serde_json::Value)),
    MissingInSecond(&'a serde_json::Value),
    MissingInFirst(&'a serde_json::Value),
    List(Vec<Delta<'a>>),
    Mapping(Vec<(&'a String, Delta<'a>)>),
}

impl<'a> Delta<'a> {
    /// What the delta stands for: each borrowed node by the document it holds, a `List` by the
    /// list of what its items stand for, a `Mapping` by the map of its entries.
    pub open spec fn model(&self) -> DeltaView
        decreases self, 1int,
    {
        match self {
            Delta::Equal(v) => DeltaView::Equal(json_of(**v)),
            Delta::DifferentContent((v1, v2)) => DeltaView::DifferentContent(json_of(**v1), json_of(**v2)),
            Delta::DifferentVariant((v1, v2)) => DeltaView::DifferentVariant(json_of(**v1), json_of(**v2)),
            Delta::MissingInSecond(v) => DeltaView::MissingInSecond(json_of(**v)),
            Delta::MissingInFirst(v) => DeltaView::MissingInFirst(json_of(**v)),
            Delta::List(_) => DeltaView::List(self.item_models()),
            Delta::Mapping(_) => DeltaView::Mapping(keyed(self.entry_models())),
        }
    }

    /// What the items of a `List` stand for, in their order.
    pub open spec fn item_models(&self) -> Seq<DeltaView>
        decreases self, 0int,
    {
        match self {
            Delta::List(list) => Seq::new(
                list@.len(),
                |i: int|
                    if 0 <= i < list@.len() {
                        list@[i].model()
                    } else {
                        arbitrary()
                    },
            ),
            _ => Seq::empty(),
        }
    }

    /// The keys of the entries of a `Mapping`, each with what its delta stands for, in their
    /// order.
    pub open spec fn entry_models(&self) -> Seq<(Seq<char>, DeltaView)>
        decreases self, 0int,
    {
        match self {
            Delta::Mapping(entries) => Seq::new(
                entries@.len(),
                |i: int|
                    if 0 <= i < entries@.len() {
                        (entries@[i].0@, entries@[i].1.model())
                    } else {
                        arbitrary()
                    },
            ),
            _ => Seq::empty(),
        }
    }
}

impl<'a> View for Delta<'a> {
    type V = DeltaView;

    open spec fn view(&self) -> DeltaView {
        self.model()
    }
}

/// The keys of the entries of a `Delta::Mapping`, each with the view of its delta.
pub open spec fn entry_views(entries: Seq<(&String, Delta)>) -> Seq<(Seq<char>, DeltaView)> {
    Seq::new(entries.len(), |i: int| (entries[i].0@, entries[i].1@))
}

impl<'a> Delta<'a> {
    /// Well-formedness: in every `Mapping` of the delta no key comes twice.
    pub open spec fn wf(&self) -> bool
        decreases self,
    {
        match self {
            Delta::List(list) => forall|i: int| 0 <= i < list@.len() ==> (#[trigger] list@[i]).wf(),
            Delta::Mapping(entries) => {
                &&& forall|i: int| 0 <= i < entries@.len() ==> (#[trigger] entries@[i]).1.wf()
                &&& forall|i: int, j: int|
                    0 <= i < j < entries@.len() ==> (#[trigger] entries@[i]).0@ != (#[trigger] entries@[j]).0@
            },
            _ => true,
        }
    }

    /// The view of a `List` is the list of the views of its items.
    pub proof fn lemma_list_view(list: Vec<Delta<'a>>)
        ensures
            Delta::List(list)@ == DeltaView::List(list@.map_values(|d: Delta| d@)),
    {
        assert(Delta::List(list).item_models() =~= list@.map_values(|d: Delta| d@));
    }

    /// The view of a `Mapping` is the map of its entries, and in a well-formed one no key comes
    /// twice.
    pub proof fn lemma_mapping_view(entries: Vec<(&'a String, Delta<'a>)>)
        ensures
            Delta::Mapping(entries)@ == DeltaView::Mapping(keyed(entry_views(entries@))),
            Delta::Mapping(entries).wf() ==> distinct_keys(entry_views(entries@)),
    {
        assert(Delta::Mapping(entries).entry_models() =~= entry_views(entries@));
    }

    /// Creates a new instance of `Delta` according to the given values: equal where the two
    /// documents are deeply equal, of different content where they are not.
    pub fn new(lhs: &'a serde_json::Value, rhs: &'a serde_json::Value) -> (delta: Delta<'a>)
        ensures
            delta@ == leaf(json_of(*lhs), json_of(*rhs)),
            delta.wf(),
    {
        if value_eq(lhs, rhs) {
            Delta::Equal(lhs)
        } else {
            Delta::DifferentContent((lhs, rhs))
        }
    }
}

/// The deltas of two objects, key by key: what `compare` makes of their entries.
pub open spec fn compare_entries(first: Map<Seq<char>, Json>, second: Map<Seq<char>, Json>) -> Map<
    Seq<char>,
    DeltaView,
> {
    compare(Json::Object(first), Json::Object(second))->Mapping_0
}

/// How far the entries of the deltas of two objects have come, with the entries of the first
/// object looked at and `done` entries of the second: `pairs` begins with the keys of the first
/// object in the order of `listed1`, goes on with keys of the second object alone, holds every
/// key of the second object among its first `done` that the first has not, holds no key twice,
/// and under each key the delta that `compare` makes there.
pub open spec fn covers(
    pairs: Seq<(Seq<char>, DeltaView)>,
    listed1: Seq<(Seq<char>, Json)>,
    listed2: Seq<(Seq<char>, Json)>,
    done: int,
    first: Map<Seq<char>, Json>,
    second: Map<Seq<char>, Json>,
) -> bool {
    &&& listed1.len() <= pairs.len()
    &&& 0 <= done <= listed2.len()
    &&& distinct_keys(pairs)
    &&& forall|k: int| 0 <= k < listed1.len() ==> (#[trigger] pairs[k]).0 == listed1[k].0
    &&& forall|k: int|
        0 <= k < pairs.len() ==> compare_entries(first, second).contains_pair(
            (#[trigger] pairs[k]).0,
            pairs[k].1,
        )
    &&& forall|k: int|
        listed1.len() <= k < pairs.len() ==> !first.dom().contains((#[trigger] pairs[k]).0) && exists|t: int|
            0 <= t < done && (#[trigger] listed2[t]).0 == pairs[k].0
    &&& forall|t: int|
        0 <= t < done ==> first.dom().contains((#[trigger] listed2[t]).0) || exists|k: int|
            0 <= k < pairs.len() && (#[trigger] pairs[k]).0 == listed2[t].0
}

/// With the entries of the first object looked at, nothing of the second is covered yet.
pub proof fn lemma_first_document_covered(
    pairs: Seq<(Seq<char>, DeltaView)>,
    listed1: Seq<(Seq<char>, Json)>,
    listed2: Seq<(Seq<char>, Json)>,
    first: Map<Seq<char>, Json>,
    second: Map<Seq<char>, Json>,
)
    requires
        lists_entries(listed1, first),
        pairs.len() == listed1.len(),
        forall|k: int|
            0 <= k < pairs.len() ==> #[trigger] pairs[k] == (
                listed1[k].0,
                compare_entries(first, second)[listed1[k].0],
            ),
    ensures
        covers(pairs, listed1, listed2, 0, first, second),
{
    assert forall|k: int| 0 <= k < pairs.len() implies compare_entries(first, second).contains_pair(
        (#[trigger] pairs[k]).0,
        pairs[k].1,
    ) by {
        assert(first.contains_pair(listed1[k].0, listed1[k].1));
    }
    assert forall|k: int, l: int| 0 <= k < l < pairs.len() implies (#[trigger] pairs[k]).0 != (
    #[trigger] pairs[l]).0 by {
        assert(listed1[k].0 != listed1[l].0);
    }
}

/// One more entry of the second object: where the first object has its key, the entries stay
/// as they are; where it has not, the entry comes last, as missing in the first.
pub proof fn lemma_second_document_next(
    pairs: Seq<(Seq<char>, DeltaView)>,
    listed1: Seq<(Seq<char>, Json)>,
    listed2: Seq<(Seq<char>, Json)>,
    done: int,
    first: Map<Seq<char>, Json>,
    second: Map<Seq<char>, Json>,
)
    requires
        lists_entries(listed1, first),
        lists_entries(listed2, second),
        done < listed2.len(),
        covers(pairs, listed1, listed2, done, first, second),
    ensures
        second.contains_pair(listed2[done].0, listed2[done].1),
        first.dom().contains(listed2[done].0) ==> covers(pairs, listed1, listed2, done + 1, first, second),
        !first.dom().contains(listed2[done].0) ==> covers(
            pairs.push((listed2[done].0, DeltaView::MissingInFirst(listed2[done].1))),
            listed1,
            listed2,
            done + 1,
            first,
            second,
        ),
{
    let key = listed2[done].0;
    assert(second.contains_pair(listed2[done].0, listed2[done].1));
    if first.dom().contains(key) {
        assert forall|k: int| listed1.len() <= k < pairs.len() implies !first.dom().contains(
            (#[trigger] pairs[k]).0,
        ) && exists|t: int| 0 <= t < done + 1 && (#[trigger] listed2[t]).0 == pairs[k].0 by {
            let t = choose|t: int| 0 <= t < done && (#[trigger] listed2[t]).0 == pairs[k].0;
            assert(0 <= t < done + 1 && listed2[t].0 == pairs[k].0);
        }
    } else {
        let more = pairs.push((key, DeltaView::MissingInFirst(listed2[done].1)));
        let last = pairs.len() as int;
        assert forall|k: int, l: int| 0 <= k < l < more.len() implies (#[trigger] more[k]).0 != (
        #[trigger] more[l]).0 by {
            if l == last {
                if k < listed1.len() {
                    assert(first.contains_pair(listed1[k].0, listed1[k].1));
                } else {
                    let t = choose|t: int| 0 <= t < done && (#[trigger] listed2[t]).0 == pairs[k].0;
                    assert(listed2[t].0 != listed2[done].0);
                }
            } else {
                assert(more[k] == pairs[k]);
                assert(more[l] == pairs[l]);
            }
        }
        assert forall|k: int| 0 <= k < listed1.len() implies (#[trigger] more[k]).0 == listed1[k].0 by {
            assert(more[k] == pairs[k]);
        }
        assert forall|k: int| 0 <= k < more.len() implies compare_entries(first, second).contains_pair(
            (#[trigger] more[k]).0,
            more[k].1,
        ) by {
            if k < last {
                assert(more[k] == pairs[k]);
            }
        }
        assert forall|k: int| listed1.len() <= k < more.len() implies !first.dom().contains(
            (#[trigger] more[k]).0,
        ) && exists|t: int| 0 <= t < done + 1 && (#[trigger] listed2[t]).0 == more[k].0 by {
            if k == last {
                assert(listed2[done].0 == more[k].0);
            } else {
                assert(more[k] == pairs[k]);
                let t = choose|t: int| 0 <= t < done && (#[trigger] listed2[t]).0 == pairs[k].0;
                assert(0 <= t < done + 1 && listed2[t].0 == more[k].0);
            }
        }
        assert forall|t: int| 0 <= t < done + 1 implies first.dom().contains((#[trigger] listed2[t]).0)
            || exists|k: int| 0 <= k < more.len() && (#[trigger] more[k]).0 == listed2[t].0 by {
            if t == done {
                assert(more[last].0 == listed2[t].0);
            } else if !first.dom().contains(listed2[t].0) {
                let k = choose|k: int| 0 <= k < pairs.len() && (#[trigger] pairs[k]).0 == listed2[t].0;
                assert(more[k] == pairs[k]);
            }
        }
    }
}

/// With the entries of both objects looked at, the entries are those of the delta of the two
/// objects.
pub proof fn lemma_both_documents_covered(
    pairs: Seq<(Seq<char>, DeltaView)>,
    listed1: Seq<(Seq<char>, Json)>,
    listed2: Seq<(Seq<char>, Json)>,
    first: Map<Seq<char>, Json>,
    second: Map<Seq<char>, Json>,
)
    requires
        lists_entries(listed1, first),
        lists_entries(listed2, second),
        covers(pairs, listed1, listed2, listed2.len() as int, first, second),
    ensures
        distinct_keys(pairs),
        keyed(pairs) == compare_entries(first, second),
{
    let expected = compare_entries(first, second);
    lemma_keyed(pairs);
    assert forall|key: Seq<char>| expected.dom().contains(key) implies keyed(pairs).dom().contains(key) by {
        if first.dom().contains(key) {
            let t = choose|t: int| 0 <= t < listed1.len() && (#[trigger] listed1[t]).0 == key;
            assert(pairs[t].0 == key);
            assert(keyed(pairs).contains_pair(pairs[t].0, pairs[t].1));
        } else {
            let t = choose|t: int| 0 <= t < listed2.len() && (#[trigger] listed2[t]).0 == key;
            let k = choose|k: int| 0 <= k < pairs.len() && (#[trigger] pairs[k]).0 == listed2[t].0;
            assert(keyed(pairs).contains_pair(pairs[k].0, pairs[k].1));
        }
    }
    assert forall|key: Seq<char>| keyed(pairs).dom().contains(key) implies expected.dom().contains(key)
        && keyed(pairs)[key] == expected[key] by {
        let t = choose|t: int| 0 <= t < pairs.len() && (#[trigger] pairs[t]).0 == key;
        assert(keyed(pairs).contains_pair(pairs[t].0, pairs[t].1));
        assert(expected.contains_pair(pairs[t].0, pairs[t].1));
    }
    assert(keyed(pairs) =~= expected);
}

/// Compare two JSON nodes.
pub fn compare_values<'a>(val1: &'a serde_json::Value, val2: &'a serde_json::Value) -> (delta: Delta<'a>)
    ensures
        delta@ == compare(json_of(*val1), json_of(*val2)),
        delta.wf(),
    decreases json_of(*val1),
{
    let ghost first = json_of(*val1);
    let ghost second = json_of(*val2);
    match (kind_of(val1), kind_of(val2)) {
        (Kind::Null, Kind::Null) => Delta::Equal(val1),
        (Kind::Bool, Kind::Bool) => Delta::new(val1, val2),
        (Kind::Number, Kind::Number) => Delta::new(val1, val2),
        (Kind::String, Kind::String) => Delta::new(val1, val2),
        (Kind::Array, Kind::Array) => {
            // comparison where the "key" is the index of the nodes in the array
            let v1 = as_array(val1).unwrap();
            let v2 = as_array(val2).unwrap();
            let ghost a = first->Array_0;
            let ghost b = second->Array_0;
            let ghost expected = compare(first, second)->List_0;
            let mut v: Vec<Delta<'a>> = Vec::with_capacity(
                if v1.len() >= v2.len() {
                    v1.len()
                } else {
                    v2.len()
                },
            );
            let mut i: usize = 0;
            while i < v1.len() && i < v2.len()
                invariant
                    i <= v1@.len(),
                    i <= v2@.len(),
                    v@.len() == i,
                    first == json_of(*val1),
                    first == Json::Array(a),
                    second == Json::Array(b),
                    v1@.map_values(|item: serde_json::Value| json_of(item)) == a,
                    v2@.map_values(|item: serde_json::Value| json_of(item)) == b,
                    expected == compare(first, second)->List_0,
                    forall|k: int| 0 <= k < i ==> (#[trigger] v@[k])@ == expected[k] && v@[k].wf(),
                decreases v1@.len() - i,
            {
                proof {
                    assert(json_of(v1@[i as int]) == a[i as int]);
                    assert(json_of(v2@[i as int]) == b[i as int]);
                }
                let diff = compare_values(&v1[i], &v2[i]);
                v.push(diff);
                i += 1;
            }
            let missing_in_second = v1.len() > v2.len();
            let rest = if missing_in_second {
                v1
            } else {
                v2
            };
            while i < rest.len()
                invariant
                    v1@.len() <= i || v2@.len() <= i,
                    i <= rest@.len(),
                    v@.len() == i,
                    missing_in_second == (v1@.len() > v2@.len()),
                    rest == if missing_in_second {
                        v1
                    } else {
                        v2
                    },
                    first == Json::Array(a),
                    second == Json::Array(b),
                    v1@.map_values(|item: serde_json::Value| json_of(item)) == a,
                    v2@.map_values(|item: serde_json::Value| json_of(item)) == b,
                    expected == compare(first, second)->List_0,
                    forall|k: int| 0 <= k < i ==> (#[trigger] v@[k])@ == expected[k] && v@[k].wf(),
                decreases rest@.len() - i,
            {
                proof {
                    if missing_in_second {
                        assert(json_of(v1@[i as int]) == a[i as int]);
                    } else {
                        assert(json_of(v2@[i as int]) == b[i as int]);
                    }
                }
                let val = &rest[i];
                if missing_in_second {
                    v.push(Delta::MissingInSecond(val));
                } else {
                    v.push(Delta::MissingInFirst(val));
                }
                i += 1;
            }
            proof {
                assert(v1@.len() == a.len());
                assert(v2@.len() == b.len());
                Delta::lemma_list_view(v);
                assert(v@.map_values(|d: Delta| d@) =~= expected);
            }
            Delta::List(v)
        },
        (Kind::Object, Kind::Object) => {
            // compare according to the key of the nodes in the map
            let m1 = as_object(val1).unwrap();
            let m2 = as_object(val2).unwrap();
            let ghost a = entries_of(*m1);
            let ghost b = entries_of(*m2);
            let mut nodes: Vec<(&'a String, Delta<'a>)> = Vec::new();
            // iterate over the nodes of the first document
            let entries1 = map_entries(m1);
            let ghost listed1 = entries1@.map_values(|entry: (&String, &serde_json::Value)| entry_of(entry));
            let mut i: usize = 0;
            while i < entries1.len()
                invariant
                    i <= entries1@.len(),
                    nodes@.len() == i,
                    first == json_of(*val1),
                    first == Json::Object(a),
                    second == Json::Object(b),
                    b == entries_of(*m2),
                    listed1 == entries1@.map_values(|entry: (&String, &serde_json::Value)| entry_of(entry)),
                    lists_entries(listed1, a),
                    forall|k: int| 0 <= k < i ==> (#[trigger] nodes@[k]).1.wf(),
                    forall|k: int|
                        0 <= k < i ==> #[trigger] entry_views(nodes@)[k] == (
                            listed1[k].0,
                            compare_entries(a, b)[listed1[k].0],
                        ),
                decreases entries1@.len() - i,
            {
                let (k, v1) = entries1[i];
                let ghost before = nodes@;
                proof {
                    assert(listed1[i as int] == entry_of(entries1@[i as int]));
                    assert(a.contains_pair(listed1[i as int].0, listed1[i as int].1));
                    assert(decreases_to!(first => first->Object_0[k@]));
                }
                match map_get(m2, k) {
                    Some(v2) => {
                        let diff = compare_values(v1, v2);
                        nodes.push((k, diff));
                    },
                    None => {
                        nodes.push((k, Delta::MissingInSecond(v1)));
                    },
                }
                proof {
                    assert forall|t: int| 0 <= t < i + 1 implies #[trigger] entry_views(nodes@)[t] == (
                        listed1[t].0,
                        compare_entries(a, b)[listed1[t].0],
                    ) by {
                        if t < i {
                            assert(entry_views(nodes@)[t] == entry_views(before)[t]);
                        }
                    }
                }
                i += 1;
            }
            // iterate over the nodes of the second document
            let entries2 = map_entries(m2);
            let ghost listed2 = entries2@.map_values(|entry: (&String, &serde_json::Value)| entry_of(entry));
            let mut j: usize = 0;
            proof {
                lemma_first_document_covered(entry_views(nodes@), listed1, listed2, a, b);
            }
            while j < entries2.len()
                invariant
                    j <= entries2@.len(),
                    a == entries_of(*m1),
                    listed2 == entries2@.map_values(|entry: (&String, &serde_json::Value)| entry_of(entry)),
                    lists_entries(listed1, a),
                    lists_entries(listed2, b),
                    forall|k: int| 0 <= k < nodes@.len() ==> (#[trigger] nodes@[k]).1.wf(),
                    covers(entry_views(nodes@), listed1, listed2, j as int, a, b),
                decreases entries2@.len() - j,
            {
                let (k, v2) = entries2[j];
                let ghost before = nodes@;
                proof {
                    assert(listed2[j as int] == entry_of(entries2@[j as int]));
                    lemma_second_document_next(entry_views(before), listed1, listed2, j as int, a, b);
                }
                if !map_contains_key(m1, k) {
                    nodes.push((k, Delta::MissingInFirst(v2)));
                    proof {
                        assert(entry_views(nodes@) =~= entry_views(before).push(
                            (listed2[j as int].0, DeltaView::MissingInFirst(listed2[j as int].1)),
                        ));
                    }
                }
                j += 1;
            }
            proof {
                lemma_both_documents_covered(entry_views(nodes@), listed1, listed2, a, b);
                Delta::lemma_mapping_view(nodes);
                assert forall|k: int, l: int| 0 <= k < l < nodes@.len() implies (#[trigger] nodes@[k]).0@ != (
                #[trigger] nodes@[l]).0@ by {
                    assert(entry_views(nodes@)[k].0 != entry_views(nodes@)[l].0);
                }
            }
            Delta::Mapping(nodes)
        },
        _ => Delta::DifferentVariant((val1, val2)),
    }
}

} // verus!
