//! What a peer can send to a running scheduler, and what it is answered.

use crate::group::{SerializedGroupModel, SerializedTaskGroup};
use vstd::prelude::*;

verus! {

/// A message between a scheduler and its peers.
#[derive(Debug, PartialEq, Eq)]
pub enum Queries {
    /// The acknowledgement of a request; as a request, it asks for nothing.
    Ack,
    /// The request to take a new group into the schedule.
    NewTaskGroup(SerializedTaskGroup),
}

/// The value of a [`Queries`].
pub enum QueryModel {
    Ack,
    NewTaskGroup(SerializedGroupModel),
}

impl DeepView for Queries {
    type V = QueryModel;

    open spec fn deep_view(&self) -> QueryModel {
        match self {
            Queries::Ack => QueryModel::Ack,
            Queries::NewTaskGroup(group) => QueryModel::NewTaskGroup(group.deep_view()),
        }
    }
}

} // verus!
