//! The three standard filters: what both documents share, and what differs as seen from each
//! of the two.
use crate::delta::Delta;
use crate::delta::DeltaView;
use crate::json::array_value;
use crate::json::clone_value;
use crate::json::json_of;
use crate::json::Json;
use crate::project::answers;
use crate::project::Policy;
use vstd::prelude::*;

verus! {

/// The array of two documents.
pub open spec fn pair(left: Json, right: Json) -> Json {
    Json::Array(seq![left, right])
}

/// Keeps the nodes that are equal in both documents, each as it is.
pub open spec fn equal_set() -> Policy {
    |delta: DeltaView|
        match delta {
            DeltaView::Equal(document) => Some(document),
            _ => None,
        }
}

/// Keeps the nodes that differ, each as the pair of the first document's node and the second's,
/// and the nodes that are missing in the second document, each as it is.
pub open spec fn delta_to_second_set() -> Policy {
    |delta: DeltaView|
        match delta {
            DeltaView::DifferentContent(first, second) => Some(pair(first, second)),
            DeltaView::DifferentVariant(first, second) => Some(pair(first, second)),
            DeltaView::MissingInSecond(first) => Some(first),
            _ => None,
        }
}

/// Keeps the nodes that differ, each as the pair of the second document's node and the first's,
/// and the nodes that are missing in the first document, each as it is.
pub open spec fn delta_to_first_set() -> Policy {
    |delta: DeltaView|
        match delta {
            DeltaView::DifferentContent(first, second) => Some(pair(second, first)),
            DeltaView::DifferentVariant(first, second) => Some(pair(second, first)),
            DeltaView::MissingInFirst(second) => Some(second),
            _ => None,
        }
}

/// The filter for the intersection set of the equal nodes.
pub fn equal<'a>(d: &Delta<'a>) -> (kept: Option<serde_json::Value>)
    ensures
        answers(kept, equal_set()(d@)),
{
    if let Delta::Equal(val) = d {
        Some(clone_value(val))
    } else {
        None
    }
}

/// The filter for the nodes that are different between the two documents or missing in the
/// second.
pub fn delta_to_second<'a>(d: &Delta<'a>) -> (kept: Option<serde_json::Value>)
    ensures
        answers(kept, delta_to_second_set()(d@)),
{
    match d {
        Delta::DifferentContent((v1, v2)) | Delta::DifferentVariant((v1, v2)) => {
            let items = vec![clone_value(v1), clone_value(v2)];
            assert(items@.map_values(|item: serde_json::Value| json_of(item)) =~= seq![
                json_of(**v1),
                json_of(**v2),
            ]);
            Some(array_value(items))
        },
        Delta::MissingInSecond(v) => Some(clone_value(v)),
        _ => None,
    }
}

/// The filter for the nodes that are different between the two documents or missing in the
/// first.
pub fn delta_to_first<'a>(d: &Delta<'a>) -> (kept: Option<serde_json::Value>)
    ensures
        answers(kept, delta_to_first_set()(d@)),
{
    match d {
        Delta::DifferentContent((v1, v2)) | Delta::DifferentVariant((v1, v2)) => {
            let items = vec![clone_value(v2), clone_value(v1)];
            assert(items@.map_values(|item: serde_json::Value| json_of(item)) =~= seq![
                json_of(**v2),
                json_of(**v1),
            ]);
            Some(array_value(items))
        },
        Delta::MissingInFirst(v) => Some(clone_value(v)),
        _ => None,
    }
}

} // verus!
