use vstd::prelude::*;

use crate::common::{lt_spec, Numeric};

verus! {

/// A node with distinct identity and position-equivalence keys.
///
/// The identity key deduplicates records; the position key collapses distinct
/// logical states onto one physical place for pruning. `same_key_spec` says
/// whether the two keys coincide for every node of the type; when it is true,
/// `keys_consistent` obliges the two keys to agree, and the registry prunes
/// with a non-strict comparison.
pub trait CustomNode: Sized + Send + Sync {
    spec fn id_spec(&self) -> u64;

    spec fn pos_spec(&self) -> u64;

    spec fn same_key_spec() -> bool;

    fn get_node_id(&self) -> (r: u64)
        ensures
            r == self.id_spec(),
    ;

    fn get_position_hash(&self) -> (r: u64)
        ensures
            r == self.pos_spec(),
    ;

    fn node_id_and_position_hash_same() -> (r: bool)
        ensures
            r == Self::same_key_spec(),
    ;

    proof fn keys_consistent(&self)
        ensures
            Self::same_key_spec() ==> self.id_spec() == self.pos_spec(),
    ;

    /// A faithful duplicate of the node, equal to the original. Backtracing
    /// uses it to hand out owned path nodes.
    fn clone_node(&self) -> (r: Self)
        ensures
            r == *self,
    ;
}

/// A node with a single key serving as both identity and position.
pub trait Node: Sized + Send + Sync {
    spec fn key_spec(&self) -> u64;

    fn get_key(&self) -> (r: u64)
        ensures
            r == self.key_spec(),
    ;

    /// A faithful duplicate of the node, equal to the original.
    fn clone_node(&self) -> (r: Self)
        ensures
            r == *self,
    ;
}

impl<T: Node> CustomNode for T {
    open spec fn id_spec(&self) -> u64 {
        self.key_spec()
    }

    open spec fn pos_spec(&self) -> u64 {
        self.key_spec()
    }

    open spec fn same_key_spec() -> bool {
        true
    }

    fn get_node_id(&self) -> u64 {
        self.get_key()
    }

    fn get_position_hash(&self) -> u64 {
        self.get_key()
    }

    fn node_id_and_position_hash_same() -> bool {
        true
    }

    proof fn keys_consistent(&self) {
    }

    fn clone_node(&self) -> Self {
        <T as Node>::clone_node(self)
    }
}

/// A node reachable in one step, with the cost of that step.
pub struct Successor<TNode, TNumber> {
    pub node: TNode,
    pub cost_to_move_here: TNumber,
}

/// A finished search result: the path from start to goal and its total
/// accrued cost.
pub struct ComputationResult<TNode, TNumber> {
    pub shortest_path: Vec<TNode>,
    pub shortest_path_cost: TNumber,
}

/// What the distance estimator is shown for one candidate node.
pub struct CurrentNodeDetails<'a, TNode, TNumber> {
    pub current_node: &'a TNode,
    pub cost_to_move_to_current: TNumber,
}

/// The ways a search can fail.
#[derive(Clone, Copy, Debug, PartialEq, Eq, Structural)]
pub enum Error {
    /// The frontier was exhausted without satisfying the termination
    /// predicate (or, for the budgeted search, without collecting a result).
    NoSolutionFound,
    /// An internal invariant was violated. The searches in this crate prove
    /// that they never return it.
    UnexpectedError,
    /// The configured iteration limit was reached before a result was found.
    IterLimitExceeded,
}

/// One record of the registry: a node, its accrued cost `g`, its heuristic
/// estimate `h`, and the identity key of the record it was expanded from.
pub(crate) struct NodeDetails<TNode, TNumber> {
    pub(crate) node: TNode,
    pub(crate) current_accrued_cost: TNumber,
    pub(crate) estimated_cost_to_goal: TNumber,
    pub(crate) parent: Option<u64>,
}

impl<TNode: CustomNode, TNumber: Numeric> NodeDetails<TNode, TNumber> {
    /// The frontier's sort key `f = g + h`.
    pub(crate) open spec fn f_spec(self) -> TNumber {
        self.current_accrued_cost.plus_spec(self.estimated_cost_to_goal)
    }

    pub(crate) open spec fn id_of(self) -> u64 {
        self.node.id_spec()
    }

    pub(crate) open spec fn pos_of(self) -> u64 {
        self.node.pos_spec()
    }
}

/// `s` holds no two records with the same identity key.
pub(crate) open spec fn ids_distinct<TNode: CustomNode, TNumber: Numeric>(
    s: Seq<NodeDetails<TNode, TNumber>>,
) -> bool {
    forall|i: int, j: int|
        0 <= i < j < s.len() ==> #[trigger] s[i].id_of() != #[trigger] s[j].id_of()
}

/// Some record in `s` carries the identity key `id`.
pub(crate) open spec fn has_id<TNode: CustomNode, TNumber: Numeric>(
    s: Seq<NodeDetails<TNode, TNumber>>,
    id: u64,
) -> bool {
    exists|i: int| 0 <= i < s.len() && #[trigger] s[i].id_of() == id
}

/// Some record among the first `bound` records of `s` carries `id`.
pub(crate) open spec fn has_id_before<TNode: CustomNode, TNumber: Numeric>(
    s: Seq<NodeDetails<TNode, TNumber>>,
    id: u64,
    bound: int,
) -> bool {
    exists|i: int| 0 <= i < bound && i < s.len() && #[trigger] s[i].id_of() == id
}

/// `rec` takes precedence over `other` for extraction: strictly smaller
/// `f`, or equal `f` and a smaller identity key. With distinct identity
/// keys this is a strict total order, so extraction is deterministic
/// regardless of how the frontier is stored.
pub(crate) open spec fn takes_precedence<TNode: CustomNode, TNumber: Numeric>(
    rec: NodeDetails<TNode, TNumber>,
    other: NodeDetails<TNode, TNumber>,
) -> bool {
    ||| lt_spec(rec.f_spec(), other.f_spec())
    ||| (rec.f_spec() == other.f_spec() && rec.id_of() < other.id_of())
}

/// What one fork-join worker hands back: either the first goal record it
/// found while expanding its parent, or the candidate records of all
/// non-goal successors.
pub(crate) enum WorkerOutcome<TNode, TNumber> {
    Terminal(NodeDetails<TNode, TNumber>),
    Candidates(Vec<NodeDetails<TNode, TNumber>>),
}

/// A worker's full answer: the parent record it was handed, returned for
/// archiving, together with what its expansion produced.
pub(crate) struct WorkerAnswer<TNode, TNumber> {
    pub(crate) parent: NodeDetails<TNode, TNumber>,
    pub(crate) outcome: WorkerOutcome<TNode, TNumber>,
}

/// The node registry: `candidate_nodes` is the frontier (discovered, not yet
/// expanded), `node_history` the closed set (expanded, append-only), and
/// `position_hash_to_min_accrued_cost` the cheapest accrued cost seen so far
/// at each position key, used for pruning.
pub(crate) struct NodeList<TNode, TNumber> {
    pub(crate) candidate_nodes: Vec<NodeDetails<TNode, TNumber>>,
    pub(crate) node_history: Vec<NodeDetails<TNode, TNumber>>,
    pub(crate) position_hash_to_min_accrued_cost: Vec<(u64, TNumber)>,
}

impl<TNode: CustomNode, TNumber: Numeric> NodeList<TNode, TNumber> {
    pub(crate) open spec fn frontier(self) -> Seq<NodeDetails<TNode, TNumber>> {
        self.candidate_nodes@
    }

    pub(crate) open spec fn history(self) -> Seq<NodeDetails<TNode, TNumber>> {
        self.node_history@
    }

    pub(crate) open spec fn positions(self) -> Seq<(u64, TNumber)> {
        self.position_hash_to_min_accrued_cost@
    }

    /// Every identity key appears in at most one record of the registry,
    /// the position table keys are unique, and every parent key resolves to
    /// a history record — for history records, to a strictly earlier one,
    /// which makes parent chains acyclic.
    pub(crate) open spec fn wf(self) -> bool {
        &&& ids_distinct(self.frontier())
        &&& ids_distinct(self.history())
        &&& forall|i: int, j: int|
            0 <= i < self.frontier().len() && 0 <= j < self.history().len()
                ==> #[trigger] self.frontier()[i].id_of() != #[trigger] self.history()[j].id_of()
        &&& forall|i: int, j: int|
            0 <= i < j < self.positions().len()
                ==> (#[trigger] self.positions()[i]).0 != (#[trigger] self.positions()[j]).0
        &&& forall|i: int|
            0 <= i < self.frontier().len() && (#[trigger] self.frontier()[i]).parent is Some
                ==> has_id(self.history(), self.frontier()[i].parent->0)
        &&& forall|i: int|
            0 <= i < self.history().len() && (#[trigger] self.history()[i]).parent is Some
                ==> has_id_before(self.history(), self.history()[i].parent->0, i)
    }

    /// The position table has an entry with key `pos`.
    pub(crate) open spec fn has_pos(self, pos: u64) -> bool {
        exists|i: int| 0 <= i < self.positions().len() && (#[trigger] self.positions()[i]).0 == pos
    }

    /// The index of the position table entry with key `pos`.
    pub(crate) open spec fn pos_index_of(self, pos: u64) -> int {
        choose|i: int| 0 <= i < self.positions().len() && (#[trigger] self.positions()[i]).0 == pos
    }

    /// The position table's entry for `pos`, if any.
    pub(crate) open spec fn pos_entry(self, pos: u64) -> Option<TNumber> {
        if self.has_pos(pos) {
            Some(self.positions()[self.pos_index_of(pos)].1)
        } else {
            None
        }
    }

    /// The position table after recording cost `c` at `pos`: the entry for
    /// `pos` becomes the minimum of `c` and what was known, and a missing
    /// entry is created.
    pub(crate) open spec fn positions_updated(self, pos: u64, c: TNumber) -> Seq<(u64, TNumber)> {
        if self.has_pos(pos) {
            let j = self.pos_index_of(pos);
            if lt_spec(c, self.positions()[j].1) {
                self.positions().update(j, (pos, c))
            } else {
                self.positions()
            }
        } else {
            self.positions().push((pos, c))
        }
    }

    /// The position table already knows a cost at this record's position that
    /// makes the record redundant: not worse when identity and position keys
    /// coincide, strictly better when they differ.
    pub(crate) open spec fn pos_blocks(self, d: NodeDetails<TNode, TNumber>) -> bool {
        match self.pos_entry(d.pos_of()) {
            Some(c) => if <TNode as CustomNode>::same_key_spec() {
                c.le_spec(d.current_accrued_cost)
            } else {
                lt_spec(c, d.current_accrued_cost)
            },
            None => false,
        }
    }

    /// The record's identity key was already expanded. Expanded identities
    /// are final and never reopened, so such a record is redundant.
    pub(crate) open spec fn history_blocks(self, d: NodeDetails<TNode, TNumber>) -> bool {
        has_id(self.history(), d.id_of())
    }

    /// A frontier record with the same identity key is at least as cheap,
    /// so the newcomer is redundant; a strictly cheaper newcomer replaces
    /// the dominated record instead.
    pub(crate) open spec fn frontier_blocks(self, d: NodeDetails<TNode, TNumber>) -> bool {
        exists|i: int|
            0 <= i < self.frontier().len() && (#[trigger] self.frontier()[i]).id_of() == d.id_of()
                && self.frontier()[i].current_accrued_cost.le_spec(d.current_accrued_cost)
    }

    /// Exactly when an insertion attempt is a no-op.
    pub(crate) open spec fn rejects(self, d: NodeDetails<TNode, TNumber>) -> bool {
        self.pos_blocks(d) || self.history_blocks(d) || self.frontier_blocks(d)
    }
}

} // verus!
