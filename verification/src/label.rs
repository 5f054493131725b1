//! Labels: the keys under which a search records what it has reached.

use vstd::prelude::*;
use crate::network::VertexId;
use crate::state::StateVariable;

verus! {

/// A compact projection of (vertex, state). Two labels at one vertex with
/// different state summaries are different keys of the search tree.
#[derive(Clone, Copy, Debug, PartialEq, Eq, Structural, Hash)]
pub enum Label {
    /// The vertex alone.
    Vertex(VertexId),
    /// The vertex with one integer that summarizes the state.
    VertexWithIntState { vertex_id: VertexId, state: usize },
}

impl Label {
    /// The vertex that the label stands at.
    pub open spec fn vertex(self) -> VertexId {
        match self {
            Label::Vertex(vertex_id) => vertex_id,
            Label::VertexWithIntState { vertex_id, .. } => vertex_id,
        }
    }

    /// Whether labels of this form are never compared for dominance.
    pub open spec fn skips_pruning(self) -> bool {
        self is Vertex
    }

    /// The vertex that the label stands at.
    pub fn vertex_id(&self) -> (v: &VertexId)
        ensures
            *v == self.vertex(),
    {
        match self {
            Label::Vertex(vertex_id) => vertex_id,
            Label::VertexWithIntState { vertex_id, .. } => vertex_id,
        }
    }

    /// True for the labels that carry no state: with nothing to compare,
    /// pruning leaves them alone.
    pub fn does_not_require_pruning(&self) -> (b: bool)
        ensures
            b == self.skips_pruning(),
    {
        match self {
            Label::Vertex(_) => true,
            Label::VertexWithIntState { .. } => false,
        }
    }
}

/// How the state of a previous label stands to the state of a next label.
/// Label states are maximized: `Less` says that the next label is better.
#[derive(Clone, Copy, Debug, PartialEq, Eq, Structural, Hash)]
pub enum LabelOrder {
    Less,
    Equal,
    Greater,
}

/// Why a label model could not answer.
#[derive(Debug)]
pub enum LabelModelError {
    /// The two labels are of forms that the model cannot compare.
    Incomparable(Label, Label),
    /// The state at the vertex is not of the form that the model labels.
    BadState(VertexId),
}

/// Defines the partial order on label states that dominance rests on.
///
/// `order` is the mathematical comparison; `compare` computes it.
pub trait LabelModel {
    /// How the state of `prev` stands to the state of `next`.
    spec fn order(&self, prev: Label, next: Label) -> Result<LabelOrder, LabelModelError>;

    /// Computes [`LabelModel::order`].
    fn compare(&self, prev: &Label, next: &Label) -> (r: Result<LabelOrder, LabelModelError>)
        ensures
            r == self.order(*prev, *next),
    ;

    /// The label of the state `state` at `vertex_id`. No contract: a search
    /// checks what it is given.
    fn label_from_state(&self, vertex_id: VertexId, state: &Vec<StateVariable>) -> Result<
        Label,
        LabelModelError,
    >;
}

/// The model of searches keyed by vertex alone: no label is ever better than
/// another, so nothing is pruned.
#[derive(Clone, Copy, Debug, Default)]
pub struct VertexLabelModel {}

impl LabelModel for VertexLabelModel {
    open spec fn order(&self, prev: Label, next: Label) -> Result<LabelOrder, LabelModelError> {
        Ok(LabelOrder::Greater)
    }

    fn compare(&self, prev: &Label, next: &Label) -> (r: Result<LabelOrder, LabelModelError>) {
        Ok(LabelOrder::Greater)
    }

    /// The vertex alone, whatever the state.
    fn label_from_state(&self, vertex_id: VertexId, state: &Vec<StateVariable>) -> (r: Result<
        Label,
        LabelModelError,
    >)
        ensures
            r == Ok::<Label, LabelModelError>(Label::Vertex(vertex_id)),
    {
        Ok(Label::Vertex(vertex_id))
    }
}

/// Orders labels by their integer state; a label without one counts as
/// incomparable.
#[derive(Clone, Copy, Debug, Default)]
pub struct IntStateLabelModel {}

impl LabelModel for IntStateLabelModel {
    open spec fn order(&self, prev: Label, next: Label) -> Result<LabelOrder, LabelModelError> {
        match (prev, next) {
            (
                Label::VertexWithIntState { state: s1, .. },
                Label::VertexWithIntState { state: s2, .. },
            ) => Ok(
                if s1 < s2 {
                    LabelOrder::Less
                } else if s1 == s2 {
                    LabelOrder::Equal
                } else {
                    LabelOrder::Greater
                },
            ),
            _ => Err(LabelModelError::Incomparable(prev, next)),
        }
    }

    fn compare(&self, prev: &Label, next: &Label) -> (r: Result<LabelOrder, LabelModelError>) {
        match (prev, next) {
            (
                Label::VertexWithIntState { state: s1, .. },
                Label::VertexWithIntState { state: s2, .. },
            ) => {
                if *s1 < *s2 {
                    Ok(LabelOrder::Less)
                } else if *s1 == *s2 {
                    Ok(LabelOrder::Equal)
                } else {
                    Ok(LabelOrder::Greater)
                }
            },
            _ => Err(LabelModelError::Incomparable(*prev, *next)),
        }
    }

    /// The vertex with the first state variable, which must not be
    /// negative, as its integer state.
    fn label_from_state(&self, vertex_id: VertexId, state: &Vec<StateVariable>) -> (r: Result<
        Label,
        LabelModelError,
    >)
        ensures
            r == if state@.len() > 0 && 0 <= state@[0].0 <= usize::MAX {
                Ok::<Label, LabelModelError>(
                    Label::VertexWithIntState { vertex_id, state: state@[0].0 as usize },
                )
            } else {
                Err::<Label, LabelModelError>(LabelModelError::BadState(vertex_id))
            },
    {
        if state.len() == 0 {
            return Err(LabelModelError::BadState(vertex_id));
        }
        let value: i64 = state[0].0;
        if value < 0 || value as u64 > usize::MAX as u64 {
            return Err(LabelModelError::BadState(vertex_id));
        }
        Ok(Label::VertexWithIntState { vertex_id, state: value as usize })
    }
}

} // verus!
