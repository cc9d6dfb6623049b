use vstd::prelude::*;

use crate::a_star::models::{
    has_id, has_id_before, ids_distinct, takes_precedence, CustomNode, Error, NodeDetails,
    NodeList, Successor,
};
use crate::common::{lt_spec, num_lt, Numeric};

verus! {

impl<TNode: CustomNode, TNumber: Numeric> Successor<TNode, TNumber> {
    pub fn new(node: TNode, cost_to_move_here: TNumber) -> (r: Self)
        ensures
            r.node == node,
            r.cost_to_move_here == cost_to_move_here,
    {
        Self { node, cost_to_move_here }
    }
}

impl<TNode: CustomNode, TNumber: Numeric> NodeDetails<TNode, TNumber> {
    pub(crate) fn new(
        node: TNode,
        current_accrued_cost: TNumber,
        estimated_cost_to_goal: TNumber,
    ) -> (r: Self)
        ensures
            r.node == node,
            r.current_accrued_cost == current_accrued_cost,
            r.estimated_cost_to_goal == estimated_cost_to_goal,
            r.parent is None,
    {
        Self { node, current_accrued_cost, parent: None, estimated_cost_to_goal }
    }

    pub(crate) fn new_with_parent(
        node: TNode,
        current_accrued_cost: TNumber,
        estimated_cost_to_goal: TNumber,
        parent_key: u64,
    ) -> (r: Self)
        ensures
            r.node == node,
            r.current_accrued_cost == current_accrued_cost,
            r.estimated_cost_to_goal == estimated_cost_to_goal,
            r.parent == Some(parent_key),
    {
        Self { node, current_accrued_cost, estimated_cost_to_goal, parent: Some(parent_key) }
    }

    /// The frontier's sort key `f = g + h`.
    #[inline(always)]
    pub(crate) fn sum_accrued_plus_estimated_cost(&self) -> (r: TNumber)
        ensures
            r == self.f_spec(),
    {
        self.current_accrued_cost.plus(self.estimated_cost_to_goal)
    }

    /// Whether this record is extracted ahead of `other`: smaller `f`, ties
    /// broken by the identity key.
    fn extracted_before(&self, other: &NodeDetails<TNode, TNumber>) -> (r: bool)
        ensures
            r == takes_precedence(*self, *other),
    {
        let own_f = self.sum_accrued_plus_estimated_cost();
        let other_f = other.sum_accrued_plus_estimated_cost();
        if num_lt(own_f, other_f) {
            true
        } else if num_lt(other_f, own_f) {
            proof {
                TNumber::le_properties(own_f, other_f, own_f);
            }
            false
        } else {
            proof {
                TNumber::le_properties(own_f, other_f, own_f);
                TNumber::le_properties(other_f, own_f, other_f);
            }
            self.node.get_node_id() < other.node.get_node_id()
        }
    }
}

/// For two records with distinct identity keys, extraction precedence is a
/// strict total order: exactly one of the two comes first.
pub(crate) proof fn lemma_precedence_total<TNode: CustomNode, TNumber: Numeric>(
    a: NodeDetails<TNode, TNumber>,
    b: NodeDetails<TNode, TNumber>,
)
    requires
        a.id_of() != b.id_of(),
    ensures
        takes_precedence(a, b) || takes_precedence(b, a),
        !(takes_precedence(a, b) && takes_precedence(b, a)),
{
    TNumber::le_properties(a.f_spec(), b.f_spec(), a.f_spec());
    TNumber::le_properties(b.f_spec(), a.f_spec(), b.f_spec());
}

impl<TNode: CustomNode, TNumber: Numeric> NodeList<TNode, TNumber> {
    /// A fresh registry whose frontier holds only the start record, with
    /// `g = h = 0` and no parent.
    pub(crate) fn new(start: TNode) -> (r: Self)
        ensures
            r.wf(),
            r.frontier().len() == 1,
            r.frontier()[0].node == start,
            r.frontier()[0].current_accrued_cost == TNumber::zero_spec(),
            r.frontier()[0].estimated_cost_to_goal == TNumber::zero_spec(),
            r.frontier()[0].parent is None,
            r.history().len() == 0,
            r.positions().len() == 1,
            r.positions()[0] == (start.pos_spec(), TNumber::zero_spec()),
    {
        let root = NodeDetails::new(start, TNumber::zero(), TNumber::zero());
        let position = root.node.get_position_hash();
        let accrued = root.current_accrued_cost;
        let mut result = Self {
            candidate_nodes: Vec::new(),
            node_history: Vec::new(),
            position_hash_to_min_accrued_cost: Vec::new(),
        };
        result.position_hash_to_min_accrued_cost.push((position, accrued));
        result.candidate_nodes.push(root);
        result
    }

    /// Index of the frontier record carrying `id`, if one exists.
    fn find_candidate_index(&self, id: u64) -> (r: Option<usize>)
        ensures
            match r {
                Some(i) => i < self.frontier().len() && self.frontier()[i as int].id_of() == id,
                None => !has_id(self.frontier(), id),
            },
    {
        let mut k: usize = 0;
        while k < self.candidate_nodes.len()
            invariant
                k <= self.frontier().len(),
                forall|j: int| 0 <= j < k ==> (#[trigger] self.frontier()[j]).id_of() != id,
            decreases self.frontier().len() - k,
        {
            if self.candidate_nodes[k].node.get_node_id() == id {
                return Some(k);
            }
            k += 1;
        }
        None
    }

    /// Index of the history record carrying `id`, if one exists.
    pub(crate) fn find_history_index(&self, id: u64) -> (r: Option<usize>)
        ensures
            match r {
                Some(i) => i < self.history().len() && self.history()[i as int].id_of() == id,
                None => !has_id(self.history(), id),
            },
    {
        let mut k: usize = 0;
        while k < self.node_history.len()
            invariant
                k <= self.history().len(),
                forall|j: int| 0 <= j < k ==> (#[trigger] self.history()[j]).id_of() != id,
            decreases self.history().len() - k,
        {
            if self.node_history[k].node.get_node_id() == id {
                return Some(k);
            }
            k += 1;
        }
        None
    }

    /// The position keys of the table are unique, so an entry found by scan
    /// is the entry the specification's `pos_index_of` selects.
    proof fn lemma_pos_index_unique(self, j: int)
        requires
            forall|a: int, b: int|
                0 <= a < b < self.positions().len()
                    ==> (#[trigger] self.positions()[a]).0 != (#[trigger] self.positions()[b]).0,
            0 <= j < self.positions().len(),
        ensures
            self.has_pos(self.positions()[j].0),
            self.pos_index_of(self.positions()[j].0) == j,
    {
        let pos = self.positions()[j].0;
        assert(self.has_pos(pos));
        let i = self.pos_index_of(pos);
        if i < j {
            assert(self.positions()[i].0 != self.positions()[j].0);
        } else if j < i {
            assert(self.positions()[j].0 != self.positions()[i].0);
        }
    }

    /// Inserts a record whose identity key is new to the registry, and
    /// records its accrued cost in the position table.
    fn insert_candidate(&mut self, details: NodeDetails<TNode, TNumber>)
        requires
            old(self).wf(),
            !has_id(old(self).frontier(), details.id_of()),
            !has_id(old(self).history(), details.id_of()),
            details.parent is Some ==> has_id(old(self).history(), details.parent->0),
        ensures
            final(self).wf(),
            final(self).frontier() == old(self).frontier().push(details),
            final(self).history() == old(self).history(),
            final(self).positions() == old(self).positions_updated(
                details.pos_of(),
                details.current_accrued_cost,
            ),
    {
        let position = details.node.get_position_hash();
        let accrued = details.current_accrued_cost;
        match self.find_position_index(position) {
            Some(j) => {
                proof {
                    old(self).lemma_pos_index_unique(j as int);
                }
                let existing = self.position_hash_to_min_accrued_cost[j].1;
                if num_lt(accrued, existing) {
                    self.position_hash_to_min_accrued_cost[j] = (position, accrued);
                }
                proof {
                    assert forall|a: int, b: int| 0 <= a < b < self.positions().len() implies (
                    #[trigger] self.positions()[a]).0 != (#[trigger] self.positions()[b]).0 by {
                        assert(self.positions()[a].0 == old(self).positions()[a].0);
                        assert(self.positions()[b].0 == old(self).positions()[b].0);
                    }
                }
            },
            None => {
                self.position_hash_to_min_accrued_cost.push((position, accrued));
                proof {
                    let new_len = self.positions().len() - 1;
                    assert forall|a: int, b: int| 0 <= a < b < self.positions().len() implies (
                    #[trigger] self.positions()[a]).0 != (#[trigger] self.positions()[b]).0 by {
                        if b == new_len {
                            assert(self.positions()[a] == old(self).positions()[a]);
                        } else {
                            assert(self.positions()[a] == old(self).positions()[a]);
                            assert(self.positions()[b] == old(self).positions()[b]);
                        }
                    }
                }
            },
        }
        self.candidate_nodes.push(details);
        proof {
            let new_len = self.frontier().len() - 1;
            assert forall|i: int, j: int| 0 <= i < j < self.frontier().len() implies (
            #[trigger] self.frontier()[i].id_of()) != (#[trigger] self.frontier()[j].id_of()) by {
                if j == new_len {
                    assert(self.frontier()[i] == old(self).frontier()[i]);
                }
            }
            assert forall|i: int, j: int|
                0 <= i < self.frontier().len() && 0 <= j < self.history().len() implies (
            #[trigger] self.frontier()[i].id_of()) != (#[trigger] self.history()[j].id_of()) by {
                if i < new_len {
                    assert(self.frontier()[i] == old(self).frontier()[i]);
                }
            }
        }
    }

    /// Offers a successor record to the registry. The attempt is a no-op
    /// exactly when `rejects` holds of the incoming record: the position
    /// table already knows a cost that makes it redundant, its identity key
    /// was already expanded (expanded identities are final and are never
    /// reopened), or an at-least-as-cheap frontier record carries the same
    /// identity. Otherwise any same-identity frontier record is removed, the
    /// record joins the frontier, and the position table is updated to the
    /// minimum accrued cost seen at its position.
    pub(crate) fn try_insert_successor(&mut self, details: NodeDetails<TNode, TNumber>)
        requires
            old(self).wf(),
            details.parent is Some ==> has_id(old(self).history(), details.parent->0),
        ensures
            final(self).wf(),
            final(self).history() == old(self).history(),
            old(self).rejects(details) ==> final(self).frontier() == old(self).frontier()
                && final(self).positions() == old(self).positions(),
            !old(self).rejects(details) ==> final(self).positions() == old(
                self,
            ).positions_updated(details.pos_of(), details.current_accrued_cost),
            !old(self).rejects(details) && !has_id(old(self).frontier(), details.id_of())
                ==> final(self).frontier() == old(self).frontier().push(details),
            !old(self).rejects(details) && has_id(old(self).frontier(), details.id_of())
                ==> exists|i: int|
                0 <= i < old(self).frontier().len() && (#[trigger] old(self).frontier()[i]).id_of()
                    == details.id_of() && final(self).frontier() == old(self).frontier().remove(
                    i,
                ).push(details),
            forall|i: int|
                0 <= i < final(self).frontier().len() ==> (exists|j: int|
                    0 <= j < old(self).frontier().len() && #[trigger] final(self).frontier()[i]
                        == old(self).frontier()[j]) || final(self).frontier()[i] == details,
    {
        let position = details.node.get_position_hash();
        let accrued = details.current_accrued_cost;
        let same = TNode::node_id_and_position_hash_same();

        if let Some(j) = self.find_position_index(position) {
            proof {
                self.lemma_pos_index_unique(j as int);
            }
            let existing = self.position_hash_to_min_accrued_cost[j].1;
            let blocked = if same {
                existing.le(accrued)
            } else {
                num_lt(existing, accrued)
            };
            if blocked {
                return ;
            }
        }

        let id = details.node.get_node_id();

        if self.find_history_index(id).is_some() {
            return ;
        }

        if let Some(i) = self.find_candidate_index(id) {
            if self.candidate_nodes[i].current_accrued_cost.le(accrued) {
                return ;
            }
            proof {
                assert forall|k: int|
                    0 <= k < self.frontier().len() && k != i implies (
                #[trigger] self.frontier()[k]).id_of() != details.id_of() by {
                    if k < i as int {
                        assert(self.frontier()[k].id_of() != self.frontier()[i as int].id_of());
                    }
                }
            }
            let _removed = self.candidate_nodes.remove(i);
            proof {
                let old_frontier = old(self).frontier();
                assert forall|a: int, b: int| 0 <= a < b < self.frontier().len() implies (
                #[trigger] self.frontier()[a].id_of()) != (#[trigger] self.frontier()[b].id_of())
                    by {
                    if a < i as int {
                        assert(self.frontier()[a] == old_frontier[a]);
                    } else {
                        assert(self.frontier()[a] == old_frontier[a + 1]);
                    }
                    if b < i as int {
                        assert(self.frontier()[b] == old_frontier[b]);
                    } else {
                        assert(self.frontier()[b] == old_frontier[b + 1]);
                    }
                }
                assert forall|a: int, b: int|
                    0 <= a < self.frontier().len() && 0 <= b < self.history().len() implies (
                #[trigger] self.frontier()[a].id_of()) != (#[trigger] self.history()[b].id_of())
                    by {
                    if a < i as int {
                        assert(self.frontier()[a] == old_frontier[a]);
                    } else {
                        assert(self.frontier()[a] == old_frontier[a + 1]);
                    }
                }
                assert forall|a: int|
                    0 <= a < self.frontier().len() && (#[trigger] self.frontier()[a]).parent
                        is Some implies has_id(self.history(), self.frontier()[a].parent->0) by {
                    if a < i as int {
                        assert(self.frontier()[a] == old_frontier[a]);
                    } else {
                        assert(self.frontier()[a] == old_frontier[a + 1]);
                    }
                }
                assert(!has_id(self.frontier(), details.id_of()));
                assert(self.positions() == old(self).positions());
                assert(self.history() == old(self).history());
            }
            self.insert_candidate(details);
            return ;
        }

        self.insert_candidate(details);
    }

    /// Index of the frontier record to extract next: the record with the
    /// least `f`, ties broken by the smaller identity key. Deterministic
    /// whatever order the frontier is stored in.
    fn best_candidate_index(&self) -> (r: usize)
        requires
            self.frontier().len() > 0,
            ids_distinct(self.frontier()),
        ensures
            r < self.frontier().len(),
            forall|j: int|
                0 <= j < self.frontier().len() && j != r ==> takes_precedence(
                    self.frontier()[r as int],
                    #[trigger] self.frontier()[j],
                ),
    {
        let mut best: usize = 0;
        let mut k: usize = 1;
        while k < self.candidate_nodes.len()
            invariant
                best < k <= self.frontier().len(),
                ids_distinct(self.frontier()),
                forall|j: int|
                    0 <= j < k && j != best ==> takes_precedence(
                        self.frontier()[best as int],
                        #[trigger] self.frontier()[j],
                    ),
            decreases self.frontier().len() - k,
        {
            if self.candidate_nodes[k].extracted_before(&self.candidate_nodes[best]) {
                proof {
                    assert forall|j: int| 0 <= j < k + 1 && j != k implies takes_precedence(
                        self.frontier()[k as int],
                        #[trigger] self.frontier()[j],
                    ) by {
                        if j != best {
                            lemma_precedence_total(
                                self.frontier()[k as int],
                                self.frontier()[best as int],
                            );
                            lemma_precedence_total(
                                self.frontier()[best as int],
                                self.frontier()[j],
                            );
                            lemma_precedence_total(self.frontier()[k as int], self.frontier()[j]);
                            TNumber::le_properties(
                                self.frontier()[k as int].f_spec(),
                                self.frontier()[best as int].f_spec(),
                                self.frontier()[j].f_spec(),
                            );
                            TNumber::le_properties(
                                self.frontier()[best as int].f_spec(),
                                self.frontier()[j].f_spec(),
                                self.frontier()[k as int].f_spec(),
                            );
                        }
                    }
                }
                best = k;
            } else {
                proof {
                    lemma_precedence_total(
                        self.frontier()[best as int],
                        self.frontier()[k as int],
                    );
                }
            }
            k += 1;
        }
        best
    }

    /// Removes the extraction-ordered first record from the frontier, moves
    /// it into the history, and returns a reference to it along with the
    /// number of candidates that remain. Fails with `NoSolutionFound` — and
    /// with nothing else — exactly when the frontier is empty.
    pub(crate) fn get_next(&mut self) -> (r: Result<
        (&NodeDetails<TNode, TNumber>, usize),
        Error,
    >)
        requires
            old(self).wf(),
        ensures
            final(self).wf(),
            final(self).positions() == old(self).positions(),
            r is Err <==> old(self).frontier().len() == 0,
            r matches Err(e) ==> e == Error::NoSolutionFound && final(self).frontier() == old(
                self,
            ).frontier() && final(self).history() == old(self).history(),
            r matches Ok(pair) ==> exists|i: int|
                {
                    &&& 0 <= i < old(self).frontier().len()
                    &&& *pair.0 == (#[trigger] old(self).frontier()[i])
                    &&& forall|j: int|
                        0 <= j < old(self).frontier().len() && j != i ==> takes_precedence(
                            old(self).frontier()[i],
                            #[trigger] old(self).frontier()[j],
                        )
                    &&& final(self).frontier() == old(self).frontier().remove(i)
                    &&& final(self).history() == old(self).history().push(old(self).frontier()[i])
                    &&& pair.1 == final(self).frontier().len()
                },
    {
        if self.candidate_nodes.len() == 0 {
            return Err(Error::NoSolutionFound);
        }
        let i = self.best_candidate_index();
        proof {
            assert forall|k: int|
                0 <= k < self.frontier().len() && k != i implies (
            #[trigger] self.frontier()[k]).id_of() != self.frontier()[i as int].id_of() by {
                if k < i as int {
                    assert(self.frontier()[k].id_of() != self.frontier()[i as int].id_of());
                }
            }
        }
        let extracted = self.candidate_nodes.remove(i);
        self.node_history.push(extracted);
        proof {
            let old_frontier = old(self).frontier();
            let old_history = old(self).history();
            let moved = old_frontier[i as int];
            let hist_len = self.history().len() - 1;
            assert forall|a: int, b: int| 0 <= a < b < self.positions().len() implies (
            #[trigger] self.positions()[a]).0 != (#[trigger] self.positions()[b]).0 by {
                assert(self.positions()[a] == old(self).positions()[a]);
                assert(self.positions()[b] == old(self).positions()[b]);
            }
            assert forall|a: int, b: int| 0 <= a < b < self.frontier().len() implies (
            #[trigger] self.frontier()[a].id_of()) != (#[trigger] self.frontier()[b].id_of()) by {
                if a < i as int {
                    assert(self.frontier()[a] == old_frontier[a]);
                } else {
                    assert(self.frontier()[a] == old_frontier[a + 1]);
                }
                if b < i as int {
                    assert(self.frontier()[b] == old_frontier[b]);
                } else {
                    assert(self.frontier()[b] == old_frontier[b + 1]);
                }
            }
            assert forall|a: int, b: int| 0 <= a < b < self.history().len() implies (
            #[trigger] self.history()[a].id_of()) != (#[trigger] self.history()[b].id_of()) by {
                if b == hist_len {
                    assert(self.history()[a] == old_history[a]);
                    assert(self.history()[b] == moved);
                } else {
                    assert(self.history()[a] == old_history[a]);
                    assert(self.history()[b] == old_history[b]);
                }
            }
            assert forall|a: int, b: int|
                0 <= a < self.frontier().len() && 0 <= b < self.history().len() implies (
            #[trigger] self.frontier()[a].id_of()) != (#[trigger] self.history()[b].id_of()) by {
                if a < i as int {
                    assert(self.frontier()[a] == old_frontier[a]);
                } else {
                    assert(self.frontier()[a] == old_frontier[a + 1]);
                }
                if b == hist_len {
                    assert(self.history()[b] == moved);
                } else {
                    assert(self.history()[b] == old_history[b]);
                }
            }
            assert forall|a: int|
                0 <= a < self.frontier().len() && (#[trigger] self.frontier()[a]).parent
                    is Some implies has_id(self.history(), self.frontier()[a].parent->0) by {
                let p = self.frontier()[a].parent->0;
                if a < i as int {
                    assert(self.frontier()[a] == old_frontier[a]);
                } else {
                    assert(self.frontier()[a] == old_frontier[a + 1]);
                }
                assert(has_id(old_history, p));
                let w = choose|w: int| 0 <= w < old_history.len() && (#[trigger] old_history[w]).id_of() == p;
                assert(self.history()[w].id_of() == p);
            }
            assert forall|a: int|
                0 <= a < self.history().len() && (#[trigger] self.history()[a]).parent
                    is Some implies has_id_before(self.history(), self.history()[a].parent->0, a)
                by {
                let p = self.history()[a].parent->0;
                if a == hist_len {
                    assert(self.history()[a] == moved);
                    assert(has_id(old_history, p));
                    let w = choose|w: int| 0 <= w < old_history.len() && (#[trigger] old_history[w]).id_of() == p;
                    assert(self.history()[w].id_of() == p);
                } else {
                    assert(self.history()[a] == old_history[a]);
                    assert(has_id_before(old_history, p, a));
                    let w = choose|w: int|
                        0 <= w < a && w < old_history.len() && (#[trigger] old_history[w]).id_of()
                            == p;
                    assert(self.history()[w].id_of() == p);
                }
            }
        }
        let n = self.node_history.len();
        Ok((&self.node_history[n - 1], self.candidate_nodes.len()))
    }

    /// Removes up to `k` records from the frontier in extraction order — the
    /// same deterministic least-`f`, smallest-identity-key-on-ties rule as
    /// single extraction — without touching the history or the position
    /// table. Used by the fork-join batch expansion mode.
    pub(crate) fn extract_batch(&mut self, k: usize) -> (pulled: Vec<NodeDetails<TNode, TNumber>>)
        requires
            old(self).wf(),
        ensures
            final(self).wf(),
            final(self).history() == old(self).history(),
            final(self).positions() == old(self).positions(),
            pulled@.len() == if k as int <= old(self).frontier().len() {
                k as int
            } else {
                old(self).frontier().len() as int
            },
            forall|a: int|
                0 <= a < pulled@.len() ==> old(self).frontier().contains(#[trigger] pulled@[a]),
            forall|a: int|
                0 <= a < final(self).frontier().len() ==> old(self).frontier().contains(
                    #[trigger] final(self).frontier()[a],
                ),
            ids_distinct(pulled@.add(final(self).frontier())),
            forall|a: int, b: int|
                #![trigger pulled@[a], pulled@[b]]
                0 <= a < b < pulled@.len() ==> takes_precedence(pulled@[a], pulled@[b]),
            forall|a: int, j: int|
                #![trigger pulled@[a], final(self).frontier()[j]]
                0 <= a < pulled@.len() && 0 <= j < final(self).frontier().len()
                    ==> takes_precedence(pulled@[a], final(self).frontier()[j]),
    {
        let mut pulled: Vec<NodeDetails<TNode, TNumber>> = Vec::new();
        proof {
            assert forall|a: int| 0 <= a < self.frontier().len() implies old(
                self,
            ).frontier().contains(#[trigger] self.frontier()[a]) by {
                assert(old(self).frontier()[a] == self.frontier()[a]);
            }
        }
        while pulled.len() < k && self.candidate_nodes.len() > 0
            invariant
                self.wf(),
                self.history() == old(self).history(),
                self.positions() == old(self).positions(),
                pulled@.len() + self.frontier().len() == old(self).frontier().len(),
                pulled@.len() <= k as int,
                forall|a: int|
                    0 <= a < pulled@.len() ==> old(self).frontier().contains(
                        #[trigger] pulled@[a],
                    ),
                forall|a: int|
                    0 <= a < self.frontier().len() ==> old(self).frontier().contains(
                        #[trigger] self.frontier()[a],
                    ),
                ids_distinct(pulled@.add(self.frontier())),
                forall|a: int, b: int|
                    #![trigger pulled@[a], pulled@[b]]
                    0 <= a < b < pulled@.len() ==> takes_precedence(pulled@[a], pulled@[b]),
                forall|a: int, j: int|
                    #![trigger pulled@[a], self.frontier()[j]]
                    0 <= a < pulled@.len() && 0 <= j < self.frontier().len() ==> takes_precedence(
                        pulled@[a],
                        self.frontier()[j],
                    ),
            decreases self.frontier().len(),
        {
            let ghost pre = *self;
            let ghost pre_pulled = pulled@;
            let bi = self.best_candidate_index();
            let moved = self.candidate_nodes.remove(bi);
            pulled.push(moved);
            proof {
                let concat_pre = pre_pulled.add(pre.frontier());
                let concat_post = pulled@.add(self.frontier());
                assert forall|x: int| 0 <= x < concat_post.len() implies exists|y: int|
                    0 <= y < concat_pre.len() && #[trigger] concat_post[x] == concat_pre[y] by {
                    if x < pre_pulled.len() {
                        assert(concat_post[x] == concat_pre[x]);
                    } else if x == pre_pulled.len() {
                        assert(concat_post[x] == moved);
                        assert(concat_pre[pre_pulled.len() + bi] == moved);
                    } else {
                        let fi = x - pre_pulled.len() - 1;
                        if fi < bi as int {
                            assert(self.frontier()[fi] == pre.frontier()[fi]);
                            assert(concat_pre[pre_pulled.len() + fi] == pre.frontier()[fi]);
                        } else {
                            assert(self.frontier()[fi] == pre.frontier()[fi + 1]);
                            assert(concat_pre[pre_pulled.len() + fi + 1] == pre.frontier()[fi
                                + 1]);
                        }
                    }
                }
                // the new concatenation is the old one with the moved record
                // relocated; distinctness transfers index by index
                assert forall|a: int, b: int| 0 <= a < b < concat_post.len() implies (
                #[trigger] concat_post[a].id_of()) != (#[trigger] concat_post[b].id_of()) by {
                    let map_idx = |x: int| -> int
                        {
                            if x < pre_pulled.len() {
                                x
                            } else if x == pre_pulled.len() {
                                pre_pulled.len() + bi
                            } else if x - pre_pulled.len() - 1 < bi as int {
                                x - 1
                            } else {
                                x
                            }
                        };
                    let a2 = map_idx(a);
                    let b2 = map_idx(b);
                    assert(concat_post[a] == concat_pre[a2]);
                    assert(concat_post[b] == concat_pre[b2]);
                    if a2 < b2 {
                        assert(concat_pre[a2].id_of() != concat_pre[b2].id_of());
                    } else if b2 < a2 {
                        assert(concat_pre[b2].id_of() != concat_pre[a2].id_of());
                    }
                }
                assert forall|a: int, j: int|
                    #![trigger pulled@[a], self.frontier()[j]]
                    0 <= a < pulled@.len() && 0 <= j < self.frontier().len() implies
                    takes_precedence(pulled@[a], self.frontier()[j]) by {
                    let orig_j = if j < bi as int {
                        j
                    } else {
                        j + 1
                    };
                    assert(self.frontier()[j] == pre.frontier()[orig_j]);
                    if a < pre_pulled.len() {
                        assert(takes_precedence(pre_pulled[a], pre.frontier()[orig_j]));
                    } else {
                        assert(pulled@[a] == moved);
                        assert(takes_precedence(pre.frontier()[bi as int], pre.frontier()[orig_j]));
                    }
                }
                assert forall|a: int, b: int|
                    #![trigger pulled@[a], pulled@[b]]
                    0 <= a < b < pulled@.len() implies takes_precedence(pulled@[a], pulled@[b]) by {
                    if b < pre_pulled.len() {
                        assert(takes_precedence(pre_pulled[a], pre_pulled[b]));
                    } else {
                        assert(pulled@[b] == moved);
                        assert(takes_precedence(pre_pulled[a], pre.frontier()[bi as int]));
                    }
                }
            }
        }
        pulled
    }

    /// Appends an already-extracted record to the history; the fork-join
    /// coordinator archives each batch parent this way before merging the
    /// workers' results.
    pub(crate) fn push_expanded(&mut self, rec: NodeDetails<TNode, TNumber>)
        requires
            old(self).wf(),
            !has_id(old(self).frontier(), rec.id_of()),
            !has_id(old(self).history(), rec.id_of()),
            rec.parent is Some ==> has_id(old(self).history(), rec.parent->0),
        ensures
            final(self).wf(),
            final(self).frontier() == old(self).frontier(),
            final(self).positions() == old(self).positions(),
            final(self).history() == old(self).history().push(rec),
    {
        self.node_history.push(rec);
        proof {
            let old_history = old(self).history();
            let hist_len = self.history().len() - 1;
            assert forall|a: int, b: int| 0 <= a < b < self.positions().len() implies (
            #[trigger] self.positions()[a]).0 != (#[trigger] self.positions()[b]).0 by {
                assert(self.positions()[a] == old(self).positions()[a]);
                assert(self.positions()[b] == old(self).positions()[b]);
            }
            assert forall|a: int, b: int| 0 <= a < b < self.history().len() implies (
            #[trigger] self.history()[a].id_of()) != (#[trigger] self.history()[b].id_of()) by {
                if b == hist_len {
                    assert(self.history()[a] == old_history[a]);
                } else {
                    assert(self.history()[a] == old_history[a]);
                    assert(self.history()[b] == old_history[b]);
                }
            }
            assert forall|a: int, b: int|
                0 <= a < self.frontier().len() && 0 <= b < self.history().len() implies (
            #[trigger] self.frontier()[a].id_of()) != (#[trigger] self.history()[b].id_of()) by {
                if b == hist_len {
                    assert(self.history()[b] == rec);
                } else {
                    assert(self.history()[b] == old_history[b]);
                }
            }
            assert forall|a: int|
                0 <= a < self.frontier().len() && (#[trigger] self.frontier()[a]).parent
                    is Some implies has_id(self.history(), self.frontier()[a].parent->0) by {
                let p = self.frontier()[a].parent->0;
                assert(has_id(old_history, p));
                let w = choose|w: int|
                    0 <= w < old_history.len() && (#[trigger] old_history[w]).id_of() == p;
                assert(self.history()[w].id_of() == p);
            }
            assert forall|a: int|
                0 <= a < self.history().len() && (#[trigger] self.history()[a]).parent
                    is Some implies has_id_before(self.history(), self.history()[a].parent->0, a)
                by {
                let p = self.history()[a].parent->0;
                if a == hist_len {
                    assert(has_id(old_history, p));
                    let w = choose|w: int|
                        0 <= w < old_history.len() && (#[trigger] old_history[w]).id_of() == p;
                    assert(self.history()[w].id_of() == p);
                } else {
                    assert(has_id_before(old_history, p, a));
                    let w = choose|w: int|
                        0 <= w < a && w < old_history.len() && (#[trigger] old_history[w]).id_of()
                            == p;
                    assert(self.history()[w].id_of() == p);
                }
            }
        }
    }

    /// Index of the position table entry with key `pos`, if one exists.
    fn find_position_index(&self, pos: u64) -> (r: Option<usize>)
        ensures
            match r {
                Some(i) => i < self.positions().len() && self.positions()[i as int].0 == pos,
                None => forall|j: int|
                    0 <= j < self.positions().len() ==> (#[trigger] self.positions()[j]).0 != pos,
            },
    {
        let mut k: usize = 0;
        while k < self.position_hash_to_min_accrued_cost.len()
            invariant
                k <= self.positions().len(),
                forall|j: int| 0 <= j < k ==> (#[trigger] self.positions()[j]).0 != pos,
            decreases self.positions().len() - k,
        {
            if self.position_hash_to_min_accrued_cost[k].0 == pos {
                return Some(k);
            }
            k += 1;
        }
        None
    }
}

} // verus!
