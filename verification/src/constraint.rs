//! The default constraint models and the records that configure them.

use vstd::prelude::*;
use std::collections::HashSet;
use vstd::std_specs::hash::group_hash_axioms;
use crate::network::{Edge, EdgeId, EdgeRef};
use crate::search::models::ConstraintModel;
use crate::state::StateVariable;

verus! {

/// Names the file that holds the road class of each edge, one row for each
/// edge id.
#[derive(Debug)]
pub struct RoadClassConstraintConfig {
    pub road_class_input_file: String,
}

/// The configuration of a road class model as a builder receives it.
#[derive(Debug)]
pub struct RoadClassBuilderConfig {
    pub model_type: String,
    pub road_class_input_file: String,
}

/// Names the file that holds the turn restrictions.
#[derive(Debug)]
pub struct TurnRestrictionConstraintConfig {
    pub turn_restriction_input_file: String,
}

/// Names the file that holds the vehicle restrictions.
#[derive(Debug)]
pub struct VehicleRestrictionConfig {
    pub vehicle_restriction_input_file: String,
}

/// The configuration of a vehicle restriction model as a builder receives
/// it.
#[derive(Debug)]
pub struct VehicleRestrictionBuilderConfig {
    pub model_type: String,
    pub vehicle_restriction_input_file: String,
}

/// One parameter of a vehicle as a query gives it: the name of what is
/// measured, the value in thousandths of the unit, and the name of the
/// unit.
#[derive(Debug)]
pub struct VehicleParameterConfig {
    pub name: String,
    pub value: u64,
    pub unit: String,
}

/// The parameters of the vehicle that a query asks a route for.
#[derive(Debug)]
pub struct VehicleRestrictionQuery {
    pub vehicle_parameters: Vec<VehicleParameterConfig>,
}

/// Builds the vehicle restriction model from the file that a
/// [`VehicleRestrictionConfig`] names.
#[derive(Clone, Copy, Debug, Default)]
pub struct VehicleRestrictionBuilder {}

/// One forbidden turn: from the edge `prev_edge_id` into the edge
/// `next_edge_id`.
#[derive(Clone, Copy, Debug, PartialEq, Eq, Structural, Hash)]
pub struct RestrictionRecord {
    pub prev_edge_id: EdgeId,
    pub next_edge_id: EdgeId,
}

/// The turns that are forbidden: a set of keys, one for each turn (see
/// [`turn_key`]).
#[derive(Debug)]
pub struct TurnRestrictionFrontierService {
    pub restricted_edge_pairs: HashSet<u128>,
}

/// Whether `records` forbid the turn from `prev` into `next`.
pub open spec fn forbids(records: Seq<RestrictionRecord>, prev: EdgeId, next: EdgeId) -> bool {
    records.contains(RestrictionRecord { prev_edge_id: prev, next_edge_id: next })
}

/// The number that a key counts the edge before the turn by: more than any
/// edge id.
pub const KEY_BASE: u128 = 0x1_0000_0000_0000_0000;

/// The key of the turn from `prev` into `next`: the two edge ids side by
/// side in one number.
pub open spec fn turn_key(prev: EdgeId, next: EdgeId) -> u128 {
    (prev.0 * KEY_BASE + next.0) as u128
}

/// Different turns have different keys.
pub proof fn lemma_turn_key(prev: EdgeId, next: EdgeId, other_prev: EdgeId, other_next: EdgeId)
    ensures
        turn_key(prev, next) == prev.0 * KEY_BASE + next.0,
        turn_key(prev, next) == turn_key(other_prev, other_next) ==> prev == other_prev && next
            == other_next,
{
    let base = KEY_BASE as int;
    let (p, n, q, m) = (prev.0 as int, next.0 as int, other_prev.0 as int, other_next.0 as int);
    assert(0 <= n < base && 0 <= m < base && 0 <= p < base && 0 <= q < base);
    assert(p * base + n < base * base && q * base + m < base * base) by (nonlinear_arith)
        requires
            0 <= n < base,
            0 <= m < base,
            0 <= p < base,
            0 <= q < base,
    ;
    assert(p * base + n == q * base + m ==> p == q && n == m) by (nonlinear_arith)
        requires
            0 <= n < base,
            0 <= m < base,
            base > 0,
    ;
}

impl TurnRestrictionFrontierService {
    /// Whether the service forbids the turn from `prev` into `next`.
    pub open spec fn forbids_turn(&self, prev: EdgeId, next: EdgeId) -> bool {
        self.restricted_edge_pairs@.contains(turn_key(prev, next))
    }

    /// Whether the service forbids exactly the turns of `records`.
    pub open spec fn holds(&self, records: Seq<RestrictionRecord>) -> bool {
        forall|prev: EdgeId, next: EdgeId|
            #[trigger] self.forbids_turn(prev, next) <==> forbids(records, prev, next)
    }

    /// The key of a turn.
    pub fn key_of(prev: EdgeId, next: EdgeId) -> (key: u128)
        ensures
            key == turn_key(prev, next),
    {
        proof {
            lemma_turn_key(prev, next, prev, next);
        }
        let high: u128 = prev.0 as u128;
        let low: u128 = next.0 as u128;
        assert(high * KEY_BASE + low <= u128::MAX) by (nonlinear_arith)
            requires
                high < KEY_BASE,
                low < KEY_BASE,
                KEY_BASE == 0x1_0000_0000_0000_0000,
        ;
        high * KEY_BASE + low
    }

    /// The service that forbids the turns of `records`.
    pub fn new(records: Vec<RestrictionRecord>) -> (service: Self)
        ensures
            service.holds(records@),
    {
        broadcast use group_hash_axioms;

        let mut service = TurnRestrictionFrontierService { restricted_edge_pairs: HashSet::new() };
        let mut i: usize = 0;
        while i < records.len()
            invariant
                i <= records.len(),
                service.holds(records@.take(i as int)),
            decreases records.len() - i,
        {
            let record: RestrictionRecord = records[i];
            let ghost held = service;
            let key = TurnRestrictionFrontierService::key_of(
                record.prev_edge_id,
                record.next_edge_id,
            );
            service.restricted_edge_pairs.insert(key);
            proof {
                let seen = records@.take(i as int);
                let more = records@.take(i + 1);
                assert(more =~= seen.push(record));
                assert forall|prev: EdgeId, next: EdgeId| #[trigger]
                    service.forbids_turn(prev, next) <==> forbids(more, prev, next) by {
                    let turn = RestrictionRecord { prev_edge_id: prev, next_edge_id: next };
                    lemma_turn_key(prev, next, record.prev_edge_id, record.next_edge_id);
                    assert(held.forbids_turn(prev, next) <==> forbids(seen, prev, next));
                    if seen.contains(turn) {
                        let w = choose|w: int| 0 <= w < seen.len() && seen[w] == turn;
                        assert(more[w] == turn);
                    }
                    if turn == record {
                        assert(more[i as int] == turn);
                    }
                    if more.contains(turn) {
                        let w = choose|w: int| 0 <= w < more.len() && more[w] == turn;
                        if w < i {
                            assert(seen[w] == turn);
                        }
                    }
                }
            }
            i += 1;
        }
        assert(records@.take(i as int) =~= records@);
        service
    }

    /// Whether the turn from `prev` into `next` is forbidden.
    pub fn is_restricted(&self, prev: EdgeId, next: EdgeId) -> (b: bool)
        ensures
            b == self.forbids_turn(prev, next),
    {
        broadcast use group_hash_axioms;

        let key = TurnRestrictionFrontierService::key_of(prev, next);
        self.restricted_edge_pairs.contains(&key)
    }
}

/// Builds the turn restriction model.
#[derive(Clone, Copy, Debug, Default)]
pub struct TurnRestrictionBuilder {}

impl TurnRestrictionBuilder {
    /// The service that forbids the turns of `records`. A turn that is
    /// recorded more than once is held once.
    pub fn build(&self, records: &Vec<RestrictionRecord>) -> (service:
        TurnRestrictionFrontierService)
        ensures
            service.holds(records@),
    {
        let mut copies: Vec<RestrictionRecord> = Vec::new();
        let mut i: usize = 0;
        while i < records.len()
            invariant
                i <= records.len(),
                copies@ == records@.take(i as int),
            decreases records.len() - i,
        {
            copies.push(records[i]);
            assert(copies@ =~= records@.take(i + 1));
            i += 1;
        }
        assert(records@.take(i as int) =~= records@);
        TurnRestrictionFrontierService::new(copies)
    }
}

impl ConstraintModel for TurnRestrictionFrontierService {
    /// An edge may be entered unless the turn into it from the edge before
    /// is forbidden. At the start of a search every edge may be entered.
    fn valid_frontier(
        &self,
        edge: &Edge,
        prev_edge: Option<EdgeRef>,
        state: &Vec<StateVariable>,
    ) -> (admitted: bool)
        ensures
            admitted == match prev_edge {
                Some(prev) => !self.forbids_turn(prev.1, edge.edge_id),
                None => true,
            },
    {
        match prev_edge {
            Some(prev) => !self.is_restricted(prev.1, edge.edge_id),
            None => true,
        }
    }
}

/// Why a constraint model could not be built.
#[derive(Debug)]
pub enum ConstraintModelError {
    BuildError(String),
}

/// The most road classes that can be told apart.
pub const MAX_ROAD_CLASSES: usize = 256;

/// The names of a list, as sequences of characters.
pub open spec fn names_of(names: Seq<String>) -> Seq<Seq<char>> {
    names.map_values(|n: String| n@)
}

/// The names of the first `n` rows without repetitions, in the order in
/// which they first occur.
pub open spec fn distinct_names(names: Seq<Seq<char>>, n: nat) -> Seq<Seq<char>>
    decreases n,
{
    if n == 0 {
        Seq::empty()
    } else {
        let before = distinct_names(names, (n - 1) as nat);
        if before.contains(names[n - 1]) {
            before
        } else {
            before.push(names[n - 1])
        }
    }
}

/// Builds the road class model.
#[derive(Clone, Copy, Debug, Default)]
pub struct RoadClassBuilder {}

impl RoadClassBuilder {
    /// Encodes the road class of each edge as a small number.
    ///
    /// `classes[e]` names the road class of edge `e`. Each name gets the
    /// number of names that occurred before it for the first time. The
    /// result is the number of the class of each edge, and the names by
    /// their numbers. More than 256 different names are refused.
    pub fn encode(classes: &Vec<String>) -> (r: Result<(Vec<u8>, Vec<String>), ConstraintModelError>)
        ensures
            match r {
                Ok((encoded, mapping)) => {
                    &&& names_of(mapping@) == distinct_names(names_of(classes@), classes@.len())
                    &&& mapping@.len() <= MAX_ROAD_CLASSES
                    &&& encoded@.len() == classes@.len()
                    &&& forall|e: int|
                        0 <= e < classes@.len() ==> (#[trigger] encoded@[e]) < mapping@.len()
                            && mapping@[encoded@[e] as int]@ == classes@[e]@
                },
                Err(_) => distinct_names(names_of(classes@), classes@.len()).len()
                    > MAX_ROAD_CLASSES,
            },
    {
        let ghost names = names_of(classes@);
        let mut mapping: Vec<String> = Vec::new();
        let mut encoded: Vec<u8> = Vec::new();
        let mut i: usize = 0;
        assert(names_of(mapping@) =~= distinct_names(names, 0));
        while i < classes.len()
            invariant
                i <= classes.len(),
                names == names_of(classes@),
                names_of(mapping@) == distinct_names(names, i as nat),
                mapping@.len() <= MAX_ROAD_CLASSES,
                encoded@.len() == i,
                forall|e: int|
                    0 <= e < i ==> (#[trigger] encoded@[e]) < mapping@.len()
                        && mapping@[encoded@[e] as int]@ == classes@[e]@,
            decreases classes.len() - i,
        {
            let class = &classes[i];
            assert(names[i as int] == class@);
            let ghost known = names_of(mapping@);
            let mut found: Option<usize> = None;
            let mut j: usize = 0;
            while j < mapping.len() && found.is_none()
                invariant
                    j <= mapping.len(),
                    known == names_of(mapping@),
                    match found {
                        Some(id) => id < mapping.len() && known[id as int] == class@,
                        None => forall|k: int| 0 <= k < j ==> #[trigger] known[k] != class@,
                    },
                decreases mapping.len() - j,
            {
                assert(known[j as int] == mapping@[j as int]@);
                if mapping[j] == *class {
                    found = Some(j);
                }
                j += 1;
            }
            match found {
                Some(id) => {
                    assert(known[id as int] == class@);
                    assert(known.contains(class@));
                    encoded.push(id as u8);
                },
                None => {
                    assert(!known.contains(class@));
                    let id: usize = mapping.len();
                    if id >= MAX_ROAD_CLASSES {
                        proof {
                            lemma_names_grow(names, (i + 1) as nat, classes@.len());
                        }
                        return Err(
                            ConstraintModelError::BuildError(
                                "too many unique road classes, max is 256".to_string(),
                            ),
                        );
                    }
                    mapping.push(class.clone());
                    encoded.push(id as u8);
                    assert(names_of(mapping@) =~= known.push(class@));
                    assert forall|e: int| 0 <= e < i implies (#[trigger] encoded@[e])
                        < mapping@.len() && mapping@[encoded@[e] as int]@ == classes@[e]@ by {
                        assert(known[encoded@[e] as int] == classes@[e]@);
                    }
                },
            }
            i += 1;
        }
        Ok((encoded, mapping))
    }
}

/// More rows never give fewer distinct names.
proof fn lemma_names_grow(names: Seq<Seq<char>>, i: nat, n: nat)
    requires
        i <= n,
    ensures
        distinct_names(names, i).len() <= distinct_names(names, n).len(),
    decreases n - i,
{
    if i < n {
        lemma_names_grow(names, i, (n - 1) as nat);
    }
}

/// How the spatial index of a map is keyed.
#[derive(Clone, Copy, Debug, PartialEq, Eq, Structural, Hash)]
pub enum SpatialIndexType {
    /// The index finds the nearest vertices.
    VertexOriented,
    /// The index finds the nearest edges.
    EdgeOriented,
}

impl Default for SpatialIndexType {
    fn default() -> (t: SpatialIndexType)
        ensures
            t == SpatialIndexType::VertexOriented,
    {
        SpatialIndexType::VertexOriented
    }
}

} // verus!
