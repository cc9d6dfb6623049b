pub mod implementations;
pub mod models;
pub mod options;

pub use models::{ComputationResult, CurrentNodeDetails, CustomNode, Error, Node, Successor};
pub use options::Options;

use models::{ids_distinct, NodeDetails, NodeList, WorkerAnswer, WorkerOutcome};
use rayon::iter::{IntoParallelIterator, ParallelIterator};

use crate::common::{num_lt, Numeric};
use crate::timeout::{duration_copy, Timeout};
use vstd::prelude::*;

verus! {

/// Expanding `from` through the successor function can yield `to` at
/// incremental cost `cost`.
pub open spec fn can_step<TNode, TNumber, SFn: Fn(&TNode) -> Vec<Successor<TNode, TNumber>>>(
    get_successors: SFn,
    from: TNode,
    to: TNode,
    cost: TNumber,
) -> bool {
    exists|ret: Vec<Successor<TNode, TNumber>>, k: int|
        #![trigger call_ensures(get_successors, (&from,), ret), ret@[k]]
        call_ensures(get_successors, (&from,), ret) && 0 <= k < ret@.len() && ret@[k].node == to
            && ret@[k].cost_to_move_here == cost
}

/// Each consecutive pair of `path` is a step the successor function admits,
/// with the matching entry of `costs` as its cost.
pub open spec fn path_steps_ok<TNode, TNumber, SFn: Fn(&TNode) -> Vec<Successor<TNode, TNumber>>>(
    get_successors: SFn,
    path: Seq<TNode>,
    costs: Seq<TNumber>,
) -> bool {
    &&& path.len() == costs.len() + 1
    &&& forall|k: int|
        0 <= k < costs.len() ==> can_step(get_successors, path[k], path[k + 1], #[trigger] costs[k])
}

/// `base` plus the entries of `costs`, left to right.
pub open spec fn accrue_costs<TNumber: Numeric>(base: TNumber, costs: Seq<TNumber>) -> TNumber
    decreases costs.len(),
{
    if costs.len() == 0 {
        base
    } else {
        accrue_costs(base, costs.drop_last()).plus_spec(costs.last())
    }
}

/// The total of `costs`, accrued from zero.
pub open spec fn total_cost<TNumber: Numeric>(costs: Seq<TNumber>) -> TNumber {
    accrue_costs(TNumber::zero_spec(), costs)
}

/// `path` leaves `start`, every step is admitted by the successor function,
/// and `cost` is the total of the step costs.
pub open spec fn valid_path_from<TNode, TNumber: Numeric, SFn: Fn(&TNode) -> Vec<
    Successor<TNode, TNumber>,
>>(get_successors: SFn, start: TNode, path: Seq<TNode>, cost: TNumber) -> bool {
    &&& path.len() >= 1
    &&& path[0] == start
    &&& exists|costs: Seq<TNumber>|
        #[trigger] path_steps_ok(get_successors, path, costs) && cost == total_cost(costs)
}

/// The termination predicate can return true on `node`.
pub open spec fn accepts<TNode, EFn: Fn(&TNode) -> bool>(is_end: EFn, node: TNode) -> bool {
    call_ensures(is_end, (&node,), true)
}

/// The termination predicate can return false on `node`.
pub open spec fn rejected<TNode, EFn: Fn(&TNode) -> bool>(is_end: EFn, node: TNode) -> bool {
    call_ensures(is_end, (&node,), false)
}

/// Accruing after prepending one cost is accruing from a larger base.
proof fn lemma_accrue_cons<TNumber: Numeric>(base: TNumber, c: TNumber, costs: Seq<TNumber>)
    ensures
        accrue_costs(base, seq![c].add(costs)) == accrue_costs(base.plus_spec(c), costs),
    decreases costs.len(),
{
    let lhs_seq = seq![c].add(costs);
    if costs.len() == 0 {
        assert(lhs_seq =~= seq![c]);
        assert(lhs_seq.drop_last() =~= Seq::<TNumber>::empty());
        assert(accrue_costs(base, lhs_seq) == accrue_costs(base, lhs_seq.drop_last()).plus_spec(
            lhs_seq.last(),
        ));
    } else {
        lemma_accrue_cons(base, c, costs.drop_last());
        assert(lhs_seq.drop_last() =~= seq![c].add(costs.drop_last()));
        assert(lhs_seq.last() == costs.last());
        assert(accrue_costs(base, lhs_seq) == accrue_costs(base, lhs_seq.drop_last()).plus_spec(
            lhs_seq.last(),
        ));
        assert(accrue_costs(base.plus_spec(c), costs) == accrue_costs(
            base.plus_spec(c),
            costs.drop_last(),
        ).plus_spec(costs.last()));
    }
}

/// The record's parent link is sound against `hist`: a parentless record is
/// the start record with zero accrued cost, and a record with a parent key
/// extends a history record by one admitted step, its accrued cost summing
/// the parent's with the step's.
pub(crate) open spec fn parent_link_ok<
    TNode: CustomNode,
    TNumber: Numeric,
    SFn: Fn(&TNode) -> Vec<Successor<TNode, TNumber>>,
>(
    get_successors: SFn,
    start: TNode,
    hist: Seq<NodeDetails<TNode, TNumber>>,
    rec: NodeDetails<TNode, TNumber>,
) -> bool {
    match rec.parent {
        None => rec.node == start && rec.current_accrued_cost == TNumber::zero_spec(),
        Some(p) => exists|j: int, cost: TNumber|
            0 <= j < hist.len() && hist[j].id_of() == p && #[trigger] can_step(
                get_successors,
                hist[j].node,
                rec.node,
                cost,
            ) && rec.current_accrued_cost == hist[j].current_accrued_cost.plus_spec(cost),
    }
}

/// `parent_link_ok`, and the record's node was rejected by the termination
/// predicate if it is not the start record (successors are only registered
/// after the predicate turned them down).
pub(crate) open spec fn record_ok<
    TNode: CustomNode,
    TNumber: Numeric,
    SFn: Fn(&TNode) -> Vec<Successor<TNode, TNumber>>,
    EFn: Fn(&TNode) -> bool,
>(
    get_successors: SFn,
    is_end: EFn,
    start: TNode,
    hist: Seq<NodeDetails<TNode, TNumber>>,
    rec: NodeDetails<TNode, TNumber>,
) -> bool {
    &&& parent_link_ok(get_successors, start, hist, rec)
    &&& rec.parent is Some ==> rejected(is_end, rec.node)
}

/// Every record of the registry is sound against the registry's own history.
pub(crate) open spec fn nl_ok<
    TNode: CustomNode,
    TNumber: Numeric,
    SFn: Fn(&TNode) -> Vec<Successor<TNode, TNumber>>,
    EFn: Fn(&TNode) -> bool,
>(get_successors: SFn, is_end: EFn, start: TNode, nl: NodeList<TNode, TNumber>) -> bool {
    &&& forall|i: int|
        0 <= i < nl.frontier().len() ==> record_ok(
            get_successors,
            is_end,
            start,
            nl.history(),
            #[trigger] nl.frontier()[i],
        )
    &&& forall|i: int|
        0 <= i < nl.history().len() ==> record_ok(
            get_successors,
            is_end,
            start,
            nl.history(),
            #[trigger] nl.history()[i],
        )
}

/// A sound parent link stays sound when the history is extended.
pub(crate) proof fn lemma_link_push<
    TNode: CustomNode,
    TNumber: Numeric,
    SFn: Fn(&TNode) -> Vec<Successor<TNode, TNumber>>,
>(
    get_successors: SFn,
    start: TNode,
    hist: Seq<NodeDetails<TNode, TNumber>>,
    appended: NodeDetails<TNode, TNumber>,
    rec: NodeDetails<TNode, TNumber>,
)
    requires
        parent_link_ok(get_successors, start, hist, rec),
    ensures
        parent_link_ok(get_successors, start, hist.push(appended), rec),
{
    if rec.parent is Some {
        let (j, cost) = choose|j: int, cost: TNumber|
            0 <= j < hist.len() && hist[j].id_of() == rec.parent->0 && #[trigger] can_step(
                get_successors,
                hist[j].node,
                rec.node,
                cost,
            ) && rec.current_accrued_cost == hist[j].current_accrued_cost.plus_spec(cost);
        assert(hist.push(appended)[j] == hist[j]);
    }
}

/// The index below `bound` of the history record carrying `id` (meaningful
/// when such a record exists and identity keys are unique).
pub(crate) open spec fn parent_index_before<TNode: CustomNode, TNumber: Numeric>(
    hist: Seq<NodeDetails<TNode, TNumber>>,
    id: u64,
    bound: int,
) -> int {
    choose|j: int| 0 <= j < bound && j < hist.len() && (#[trigger] hist[j]).id_of() == id
}

/// The start-to-here node sequence spelled by the parent chain of
/// `hist[i]`: the chain of its parent record, extended with its own node.
pub(crate) open spec fn chain_at<TNode: CustomNode, TNumber: Numeric>(
    hist: Seq<NodeDetails<TNode, TNumber>>,
    i: int,
) -> Seq<TNode>
    decreases i,
{
    if 0 <= i < hist.len() {
        match hist[i].parent {
            None => seq![hist[i].node],
            Some(p) => {
                let j = parent_index_before(hist, p, i);
                if 0 <= j < i {
                    chain_at(hist, j).push(hist[i].node)
                } else {
                    seq![hist[i].node]
                }
            },
        }
    } else {
        Seq::empty()
    }
}

/// The start-to-here node sequence spelled by the parent chain of `rec`
/// against `hist`.
pub(crate) open spec fn chain_of<TNode: CustomNode, TNumber: Numeric>(
    hist: Seq<NodeDetails<TNode, TNumber>>,
    rec: NodeDetails<TNode, TNumber>,
) -> Seq<TNode> {
    match rec.parent {
        None => seq![rec.node],
        Some(p) => {
            let j = parent_index_before(hist, p, hist.len() as int);
            if 0 <= j < hist.len() {
                chain_at(hist, j).push(rec.node)
            } else {
                seq![rec.node]
            }
        },
    }
}

/// With unique identity keys, `parent_index_before` picks exactly the one
/// witness index.
pub(crate) proof fn lemma_parent_index_unique<TNode: CustomNode, TNumber: Numeric>(
    hist: Seq<NodeDetails<TNode, TNumber>>,
    id: u64,
    bound: int,
    w: int,
)
    requires
        ids_distinct(hist),
        0 <= w < bound,
        w < hist.len(),
        bound <= hist.len(),
        hist[w].id_of() == id,
    ensures
        parent_index_before(hist, id, bound) == w,
{
    let j = parent_index_before(hist, id, bound);
    assert(0 <= j < bound && j < hist.len() && hist[j].id_of() == id);
    if j < w {
        assert(hist[j].id_of() != hist[w].id_of());
    } else if w < j {
        assert(hist[w].id_of() != hist[j].id_of());
    }
}

/// For a record that sits in a well-parented history, the chain through the
/// record equals the chain at its index.
pub(crate) proof fn lemma_chain_at_agrees<TNode: CustomNode, TNumber: Numeric>(
    hist: Seq<NodeDetails<TNode, TNumber>>,
    i: int,
)
    requires
        ids_distinct(hist),
        forall|k: int|
            0 <= k < hist.len() && (#[trigger] hist[k]).parent is Some ==> models::has_id_before(
                hist,
                hist[k].parent->0,
                k,
            ),
        0 <= i < hist.len(),
    ensures
        chain_of(hist, hist[i]) == chain_at(hist, i),
{
    match hist[i].parent {
        None => {},
        Some(p) => {
            let w = choose|w: int|
                0 <= w < i && w < hist.len() && (#[trigger] hist[w]).id_of() == p;
            lemma_parent_index_unique(hist, p, i, w);
            lemma_parent_index_unique(hist, p, hist.len() as int, w);
        },
    }
}

/// A chain through a well-parented history never revisits an identity key:
/// its nodes stem from strictly earlier history records, whose keys are
/// pairwise distinct.
pub(crate) proof fn lemma_chain_ids_distinct<TNode: CustomNode, TNumber: Numeric>(
    hist: Seq<NodeDetails<TNode, TNumber>>,
    i: int,
)
    requires
        ids_distinct(hist),
        forall|k: int|
            0 <= k < hist.len() && (#[trigger] hist[k]).parent is Some ==> models::has_id_before(
                hist,
                hist[k].parent->0,
                k,
            ),
        0 <= i < hist.len(),
    ensures
        chain_at(hist, i).len() >= 1,
        chain_at(hist, i).last() == hist[i].node,
        forall|m: int|
            #![trigger chain_at(hist, i)[m]]
            0 <= m < chain_at(hist, i).len() ==> exists|k: int|
                0 <= k <= i && (#[trigger] hist[k]).node == chain_at(hist, i)[m],
        forall|a: int, b: int|
            #![trigger chain_at(hist, i)[a], chain_at(hist, i)[b]]
            0 <= a < b < chain_at(hist, i).len() ==> chain_at(hist, i)[a].id_spec() != chain_at(
                hist,
                i,
            )[b].id_spec(),
    decreases i,
{
    let chain = chain_at(hist, i);
    match hist[i].parent {
        None => {
            assert(hist[i].node == chain[0]);
        },
        Some(p) => {
            let w = choose|w: int|
                0 <= w < i && w < hist.len() && (#[trigger] hist[w]).id_of() == p;
            lemma_parent_index_unique(hist, p, i, w);
            lemma_chain_ids_distinct(hist, w);
            let prefix = chain_at(hist, w);
            assert(chain =~= prefix.push(hist[i].node));
            assert forall|m: int| #![trigger chain[m]] 0 <= m < chain.len() implies exists|k: int|
                0 <= k <= i && (#[trigger] hist[k]).node == chain[m] by {
                if m < prefix.len() {
                    let k = choose|k: int|
                        0 <= k <= w && (#[trigger] hist[k]).node == prefix[m];
                    assert(hist[k].node == chain[m]);
                } else {
                    assert(hist[i].node == chain[m]);
                }
            }
            assert forall|a: int, b: int|
                #![trigger chain[a], chain[b]]
                0 <= a < b < chain.len() implies chain[a].id_spec() != chain[b].id_spec() by {
                if b < prefix.len() {
                    assert(chain[a] == prefix[a] && chain[b] == prefix[b]);
                    assert(prefix[a].id_spec() != prefix[b].id_spec());
                } else {
                    assert(chain[a] == prefix[a]);
                    let k = choose|k: int|
                        0 <= k <= w && (#[trigger] hist[k]).node == prefix[a];
                    assert(hist[k].id_of() != hist[i].id_of());
                }
            }
        },
    }
}

/// Soundness of every record carries over when a sound record is appended
/// to the history and the frontier is untouched.
pub(crate) proof fn lemma_nl_ok_after_push<
    TNode: CustomNode,
    TNumber: Numeric,
    SFn: Fn(&TNode) -> Vec<Successor<TNode, TNumber>>,
    EFn: Fn(&TNode) -> bool,
>(
    get_successors: SFn,
    is_end: EFn,
    start: TNode,
    old_nl: NodeList<TNode, TNumber>,
    new_nl: NodeList<TNode, TNumber>,
    rec: NodeDetails<TNode, TNumber>,
)
    requires
        nl_ok(get_successors, is_end, start, old_nl),
        record_ok(get_successors, is_end, start, old_nl.history(), rec),
        new_nl.frontier() == old_nl.frontier(),
        new_nl.history() == old_nl.history().push(rec),
    ensures
        nl_ok(get_successors, is_end, start, new_nl),
{
    let hist = old_nl.history();
    let hist2 = new_nl.history();
    assert forall|k: int| 0 <= k < new_nl.frontier().len() implies record_ok(
        get_successors,
        is_end,
        start,
        hist2,
        #[trigger] new_nl.frontier()[k],
    ) by {
        lemma_link_push(get_successors, start, hist, rec, old_nl.frontier()[k]);
    }
    assert forall|k: int| 0 <= k < hist2.len() implies record_ok(
        get_successors,
        is_end,
        start,
        hist2,
        #[trigger] hist2[k],
    ) by {
        if k < hist.len() {
            assert(hist2[k] == hist[k]);
            lemma_link_push(get_successors, start, hist, rec, hist[k]);
        } else {
            assert(hist2[k] == rec);
            lemma_link_push(get_successors, start, hist, rec, rec);
        }
    }
}

/// Soundness of every record carries over when one frontier record moves to
/// the end of the history.
pub(crate) proof fn lemma_nl_ok_after_extract<
    TNode: CustomNode,
    TNumber: Numeric,
    SFn: Fn(&TNode) -> Vec<Successor<TNode, TNumber>>,
    EFn: Fn(&TNode) -> bool,
>(
    get_successors: SFn,
    is_end: EFn,
    start: TNode,
    old_nl: NodeList<TNode, TNumber>,
    new_nl: NodeList<TNode, TNumber>,
    i: int,
)
    requires
        nl_ok(get_successors, is_end, start, old_nl),
        0 <= i < old_nl.frontier().len(),
        new_nl.frontier() == old_nl.frontier().remove(i),
        new_nl.history() == old_nl.history().push(old_nl.frontier()[i]),
    ensures
        nl_ok(get_successors, is_end, start, new_nl),
{
    let hist = old_nl.history();
    let hist2 = new_nl.history();
    let moved = old_nl.frontier()[i];
    assert forall|k: int| 0 <= k < new_nl.frontier().len() implies record_ok(
        get_successors,
        is_end,
        start,
        hist2,
        #[trigger] new_nl.frontier()[k],
    ) by {
        if k < i {
            assert(new_nl.frontier()[k] == old_nl.frontier()[k]);
            lemma_link_push(get_successors, start, hist, moved, old_nl.frontier()[k]);
        } else {
            assert(new_nl.frontier()[k] == old_nl.frontier()[k + 1]);
            lemma_link_push(get_successors, start, hist, moved, old_nl.frontier()[k + 1]);
        }
    }
    assert forall|k: int| 0 <= k < hist2.len() implies record_ok(
        get_successors,
        is_end,
        start,
        hist2,
        #[trigger] hist2[k],
    ) by {
        if k < hist.len() {
            assert(hist2[k] == hist[k]);
            lemma_link_push(get_successors, start, hist, moved, hist[k]);
        } else {
            assert(hist2[k] == moved);
            lemma_link_push(get_successors, start, hist, moved, moved);
        }
    }
}

/// Soundness of every record carries over when the frontier changes but
/// every record of the new frontier is an old record or the sound newcomer,
/// and the history is untouched.
pub(crate) proof fn lemma_nl_ok_after_insert<
    TNode: CustomNode,
    TNumber: Numeric,
    SFn: Fn(&TNode) -> Vec<Successor<TNode, TNumber>>,
    EFn: Fn(&TNode) -> bool,
>(
    get_successors: SFn,
    is_end: EFn,
    start: TNode,
    old_nl: NodeList<TNode, TNumber>,
    new_nl: NodeList<TNode, TNumber>,
    newcomer: NodeDetails<TNode, TNumber>,
)
    requires
        nl_ok(get_successors, is_end, start, old_nl),
        new_nl.history() == old_nl.history(),
        forall|i: int|
            0 <= i < new_nl.frontier().len() ==> (exists|j: int|
                0 <= j < old_nl.frontier().len() && #[trigger] new_nl.frontier()[i]
                    == old_nl.frontier()[j]) || new_nl.frontier()[i] == newcomer,
        record_ok(get_successors, is_end, start, old_nl.history(), newcomer),
    ensures
        nl_ok(get_successors, is_end, start, new_nl),
{
    assert forall|k: int| 0 <= k < new_nl.frontier().len() implies record_ok(
        get_successors,
        is_end,
        start,
        new_nl.history(),
        #[trigger] new_nl.frontier()[k],
    ) by {
        if new_nl.frontier()[k] == newcomer {
        } else {
            let j = choose|j: int|
                0 <= j < old_nl.frontier().len() && new_nl.frontier()[k] == old_nl.frontier()[j];
            assert(record_ok(get_successors, is_end, start, old_nl.history(), old_nl.frontier()[j]));
        }
    }
}

/// Follows parent keys from `end` through the history back to the start
/// record, returning the walked nodes in start-to-end order. The result is
/// exactly the node sequence of `end`'s parent chain (`chain_of`): a path
/// the successor function admits, whose total cost is the accrued cost of
/// `end`, and whose inner nodes were all rejected by the termination
/// predicate.
fn backtrace<
    TNode: CustomNode,
    TNumber: Numeric,
    SFn: Fn(&TNode) -> Vec<Successor<TNode, TNumber>>,
    EFn: Fn(&TNode) -> bool,
>(
    node_list: &NodeList<TNode, TNumber>,
    end: &NodeDetails<TNode, TNumber>,
    Ghost(get_successors): Ghost<SFn>,
    Ghost(is_end): Ghost<EFn>,
    Ghost(start): Ghost<TNode>,
) -> (r: Vec<TNode>)
    requires
        node_list.wf(),
        forall|i: int|
            0 <= i < node_list.history().len() ==> record_ok(
                get_successors,
                is_end,
                start,
                node_list.history(),
                #[trigger] node_list.history()[i],
            ),
        parent_link_ok(get_successors, start, node_list.history(), *end),
    ensures
        valid_path_from(get_successors, start, r@, end.current_accrued_cost),
        r@ == chain_of(node_list.history(), *end),
        forall|a: int, b: int|
            #![trigger r@[a].id_spec(), r@[b].id_spec()]
            0 <= a < b < r@.len() - 1 ==> r@[a].id_spec() != r@[b].id_spec(),
        r@.len() >= 1,
        r@.last() == end.node,
        end.parent is Some ==> r@.len() >= 2,
        forall|k: int| 1 <= k < r@.len() - 1 ==> rejected(is_end, #[trigger] r@[k]),
{
    let mut reversed: Vec<TNode> = Vec::new();
    reversed.push(end.node.clone_node());
    let mut parent: Option<u64> = end.parent;
    let ghost mut cur: NodeDetails<TNode, TNumber> = *end;
    let ghost mut bound: int = node_list.history().len() as int;
    let ghost mut costs: Seq<TNumber> = Seq::empty();
    proof {
        assert(chain_of(node_list.history(), *end) =~= chain_of(node_list.history(), cur).add(
            reversed@.reverse().drop_first(),
        ));
    }
    loop
        invariant
            node_list.wf(),
            forall|i: int|
                0 <= i < node_list.history().len() ==> record_ok(
                    get_successors,
                    is_end,
                    start,
                    node_list.history(),
                    #[trigger] node_list.history()[i],
                ),
            parent == cur.parent,
            parent_link_ok(get_successors, start, node_list.history(), cur),
            cur.parent is Some ==> models::has_id_before(
                node_list.history(),
                cur.parent->0,
                bound,
            ),
            0 <= bound <= node_list.history().len(),
            reversed@.len() >= 1,
            reversed@[0] == end.node,
            reversed@.last() == cur.node,
            end.parent is Some ==> reversed@.len() >= 2 || cur == *end,
            path_steps_ok(get_successors, reversed@.reverse(), costs),
            chain_of(node_list.history(), *end) == chain_of(node_list.history(), cur).add(
                reversed@.reverse().drop_first(),
            ),
            accrue_costs(cur.current_accrued_cost, costs) == end.current_accrued_cost,
            forall|k: int| 1 <= k < reversed@.len() - 1 ==> rejected(is_end, #[trigger] reversed@[k]),
            cur.parent is Some && reversed@.len() >= 2 ==> rejected(is_end, cur.node),
        ensures
            parent is None,
        decreases bound + 1,
    {
        match parent {
            None => {
                break ;
            },
            Some(parent_hash) => {
                proof {
                    let w = choose|w: int|
                        0 <= w < bound && w < node_list.history().len() && (
                        #[trigger] node_list.history()[w]).id_of() == parent_hash;
                    assert(models::has_id(node_list.history(), parent_hash));
                }
                let idx_opt = node_list.find_history_index(parent_hash);
                let idx = idx_opt.unwrap();
                let ghost prev = cur;
                let ghost prev_reversed = reversed@;
                let rec = &node_list.node_history[idx];
                reversed.push(rec.node.clone_node());
                parent = rec.parent;
                proof {
                    // the found index is the chain parent, strictly below `bound`
                    let w = choose|w: int|
                        0 <= w < bound && w < node_list.history().len() && (
                        #[trigger] node_list.history()[w]).id_of() == parent_hash;
                    if w < idx as int {
                        assert(node_list.history()[w].id_of() != node_list.history()[
                        idx as int].id_of());
                    } else if (idx as int) < w {
                        assert(node_list.history()[idx as int].id_of() != node_list.history()[
                        w].id_of());
                    }
                    assert(idx as int == w);
                    cur = node_list.history()[idx as int];
                    bound = idx as int;
                    // extend the admitted path by the step from the parent
                    let (j, cost) = choose|j: int, cost: TNumber|
                        0 <= j < node_list.history().len() && node_list.history()[j].id_of()
                            == parent_hash && #[trigger] can_step(
                            get_successors,
                            node_list.history()[j].node,
                            prev.node,
                            cost,
                        ) && prev.current_accrued_cost == node_list.history()[
                        j].current_accrued_cost.plus_spec(cost);
                    if j < idx as int {
                        assert(node_list.history()[j].id_of() != node_list.history()[
                        idx as int].id_of());
                    } else if (idx as int) < j {
                        assert(node_list.history()[idx as int].id_of() != node_list.history()[
                        j].id_of());
                    }
                    assert(j == idx as int);
                    let new_costs = seq![cost].add(costs);
                    lemma_accrue_cons(cur.current_accrued_cost, cost, costs);
                    let old_path = prev_reversed.reverse();
                    let new_path = reversed@.reverse();
                    assert(new_path =~= seq![cur.node].add(old_path));
                    assert forall|k: int| 0 <= k < new_costs.len() implies can_step(
                        get_successors,
                        new_path[k],
                        new_path[k + 1],
                        #[trigger] new_costs[k],
                    ) by {
                        if k == 0 {
                            assert(new_path[0] == cur.node);
                            assert(new_path[1] == old_path[0]);
                            assert(old_path[0] == prev.node);
                        } else {
                            assert(new_costs[k] == costs[k - 1]);
                            assert(new_path[k] == old_path[k - 1]);
                            assert(new_path[k + 1] == old_path[k]);
                            assert(can_step(
                                get_successors,
                                old_path[k - 1],
                                old_path[k],
                                costs[k - 1],
                            ));
                        }
                    }
                    costs = new_costs;
                    // the collected sequence still spells the parent chain
                    let hist = node_list.history();
                    lemma_parent_index_unique(hist, parent_hash, hist.len() as int, idx as int);
                    lemma_chain_at_agrees(hist, idx as int);
                    assert(chain_of(hist, prev) =~= chain_at(hist, idx as int).push(prev.node));
                    assert(chain_of(hist, cur) == chain_at(hist, idx as int));
                    let old_tail = old_path.drop_first();
                    let new_tail = new_path.drop_first();
                    assert(old_path[0] == prev.node);
                    assert(new_tail =~= old_path);
                    assert(old_path =~= seq![prev.node].add(old_tail));
                    assert(chain_of(hist, *end) =~= chain_of(hist, cur).add(new_tail));
                }
            },
        }
    }
    proof {
        assert(reversed@.reverse()[0] == cur.node);
        assert(cur.node == start);
        assert(accrue_costs(TNumber::zero_spec(), costs) == end.current_accrued_cost);
        assert(chain_of(node_list.history(), cur) =~= seq![cur.node]);
        assert(reversed@.reverse() =~= seq![cur.node].add(reversed@.reverse().drop_first()));
        assert(chain_of(node_list.history(), *end) =~= reversed@.reverse());
    }
    let ghost full = reversed@;
    let mut path: Vec<TNode> = Vec::new();
    loop
        invariant
            path@.len() + reversed@.len() == full.len(),
            reversed@ == full.take(reversed@.len() as int),
            path@ == full.reverse().take(path@.len() as int),
        ensures
            reversed@.len() == 0,
        decreases reversed@.len(),
    {
        match reversed.pop() {
            Some(x) => {
                proof {
                    let n = path@.len() as int;
                    assert(full.reverse()[n] == full[full.len() - 1 - n]);
                    assert(x == full[full.len() - 1 - n]);
                }
                path.push(x);
                proof {
                    assert(path@ =~= full.reverse().take(path@.len() as int));
                    assert(reversed@ =~= full.take(reversed@.len() as int));
                }
            },
            None => {
                break ;
            },
        }
    }
    proof {
        assert(path@ =~= full.reverse());
        assert forall|k: int| 1 <= k < path@.len() - 1 implies rejected(is_end, #[trigger] path@[k])
            by {
            assert(path@[k] == full[full.len() - 1 - k]);
            assert(1 <= full.len() - 1 - k < full.len() - 1);
        }
        assert(path@[0] == full.last());
        assert(path@.last() == full[0]);
        // the path never revisits an identity key before the goal node
        let hist = node_list.history();
        if end.parent is Some {
            let p = end.parent->0;
            let (pj, pcost) = choose|pj: int, pcost: TNumber|
                0 <= pj < hist.len() && hist[pj].id_of() == p && #[trigger] can_step(
                    get_successors,
                    hist[pj].node,
                    end.node,
                    pcost,
                ) && end.current_accrued_cost == hist[pj].current_accrued_cost.plus_spec(pcost);
            assert(hist[pj].id_of() == p);
            let j = parent_index_before(hist, p, hist.len() as int);
            assert(0 <= j < hist.len() && hist[j].id_of() == p);
            lemma_chain_ids_distinct(hist, j);
            assert(path@ =~= chain_at(hist, j).push(end.node));
            assert forall|a: int, b: int|
                #![trigger path@[a].id_spec(), path@[b].id_spec()]
                0 <= a < b < path@.len() - 1 implies path@[a].id_spec() != path@[b].id_spec() by {
                assert(path@[a] == chain_at(hist, j)[a]);
                assert(path@[b] == chain_at(hist, j)[b]);
            }
        }
    }
    path
}

/// Reconstructs the single result: exactly the node sequence of `end`'s
/// parent chain, and its accrued cost.
fn make_results<
    TNode: CustomNode,
    TNumber: Numeric,
    SFn: Fn(&TNode) -> Vec<Successor<TNode, TNumber>>,
    EFn: Fn(&TNode) -> bool,
>(
    end: NodeDetails<TNode, TNumber>,
    node_list: NodeList<TNode, TNumber>,
    Ghost(get_successors): Ghost<SFn>,
    Ghost(is_end): Ghost<EFn>,
    Ghost(start): Ghost<TNode>,
) -> (r: ComputationResult<TNode, TNumber>)
    requires
        node_list.wf(),
        forall|i: int|
            0 <= i < node_list.history().len() ==> record_ok(
                get_successors,
                is_end,
                start,
                node_list.history(),
                #[trigger] node_list.history()[i],
            ),
        parent_link_ok(get_successors, start, node_list.history(), end),
    ensures
        valid_path_from(get_successors, start, r.shortest_path@, r.shortest_path_cost),
        r.shortest_path@ == chain_of(node_list.history(), end),
        forall|a: int, b: int|
            #![trigger r.shortest_path@[a].id_spec(), r.shortest_path@[b].id_spec()]
            0 <= a < b < r.shortest_path@.len() - 1 ==> r.shortest_path@[a].id_spec()
                != r.shortest_path@[b].id_spec(),
        r.shortest_path_cost == end.current_accrued_cost,
        r.shortest_path@.len() >= 1,
        r.shortest_path@.last() == end.node,
        end.parent is Some ==> r.shortest_path@.len() >= 2,
        forall|k: int|
            1 <= k < r.shortest_path@.len() - 1 ==> rejected(is_end, #[trigger] r.shortest_path@[k]),
{
    let shortest_path_cost = end.current_accrued_cost;
    let shortest_path = backtrace::<TNode, TNumber, SFn, EFn>(
        &node_list,
        &end,
        Ghost(get_successors),
        Ghost(is_end),
        Ghost(start),
    );
    ComputationResult { shortest_path, shortest_path_cost }
}

/// Reconstructs every collected result against the same read-only history.
fn make_results_multiple<
    TNode: CustomNode,
    TNumber: Numeric,
    SFn: Fn(&TNode) -> Vec<Successor<TNode, TNumber>>,
    EFn: Fn(&TNode) -> bool,
>(
    end: Vec<NodeDetails<TNode, TNumber>>,
    node_list: NodeList<TNode, TNumber>,
    Ghost(get_successors): Ghost<SFn>,
    Ghost(is_end): Ghost<EFn>,
    Ghost(start): Ghost<TNode>,
) -> (r: Vec<ComputationResult<TNode, TNumber>>)
    requires
        node_list.wf(),
        forall|i: int|
            0 <= i < node_list.history().len() ==> record_ok(
                get_successors,
                is_end,
                start,
                node_list.history(),
                #[trigger] node_list.history()[i],
            ),
        forall|k: int|
            0 <= k < end@.len() ==> parent_link_ok(
                get_successors,
                start,
                node_list.history(),
                #[trigger] end@[k],
            ),
    ensures
        r@.len() == end@.len(),
        forall|k: int|
            0 <= k < end@.len() ==> {
                &&& valid_path_from(
                    get_successors,
                    start,
                    (#[trigger] r@[k]).shortest_path@,
                    r@[k].shortest_path_cost,
                )
                &&& r@[k].shortest_path@ == chain_of(node_list.history(), end@[k])
                &&& (forall|a: int, b: int|
                    #![trigger r@[k].shortest_path@[a].id_spec(), r@[k].shortest_path@[b].id_spec()]
                    0 <= a < b < r@[k].shortest_path@.len() - 1
                        ==> r@[k].shortest_path@[a].id_spec()
                        != r@[k].shortest_path@[b].id_spec())
                &&& r@[k].shortest_path_cost == end@[k].current_accrued_cost
                &&& r@[k].shortest_path@.len() >= 1
                &&& r@[k].shortest_path@.last() == end@[k].node
                &&& (end@[k].parent is Some ==> r@[k].shortest_path@.len() >= 2)
                &&& forall|m: int|
                    1 <= m < r@[k].shortest_path@.len() - 1 ==> rejected(
                        is_end,
                        #[trigger] r@[k].shortest_path@[m],
                    )
            },
{
    let mut all_results: Vec<ComputationResult<TNode, TNumber>> = Vec::new();
    let mut idx: usize = 0;
    while idx < end.len()
        invariant
            node_list.wf(),
            forall|i: int|
                0 <= i < node_list.history().len() ==> record_ok(
                    get_successors,
                    is_end,
                    start,
                    node_list.history(),
                    #[trigger] node_list.history()[i],
                ),
            forall|k: int|
                0 <= k < end@.len() ==> parent_link_ok(
                    get_successors,
                    start,
                    node_list.history(),
                    #[trigger] end@[k],
                ),
            idx <= end@.len(),
            all_results@.len() == idx,
            forall|k: int|
                0 <= k < idx ==> {
                    &&& valid_path_from(
                        get_successors,
                        start,
                        (#[trigger] all_results@[k]).shortest_path@,
                        all_results@[k].shortest_path_cost,
                    )
                    &&& all_results@[k].shortest_path@ == chain_of(node_list.history(), end@[k])
                    &&& (forall|a: int, b: int|
                        #![trigger all_results@[k].shortest_path@[a].id_spec(), all_results@[k].shortest_path@[b].id_spec()]
                        0 <= a < b < all_results@[k].shortest_path@.len() - 1
                            ==> all_results@[k].shortest_path@[a].id_spec()
                            != all_results@[k].shortest_path@[b].id_spec())
                    &&& all_results@[k].shortest_path_cost == end@[k].current_accrued_cost
                    &&& all_results@[k].shortest_path@.len() >= 1
                    &&& all_results@[k].shortest_path@.last() == end@[k].node
                    &&& (end@[k].parent is Some ==> all_results@[k].shortest_path@.len() >= 2)
                    &&& forall|m: int|
                        1 <= m < all_results@[k].shortest_path@.len() - 1 ==> rejected(
                            is_end,
                            #[trigger] all_results@[k].shortest_path@[m],
                        )
                },
        decreases end@.len() - idx,
    {
        let current = &end[idx];
        let shortest_path = backtrace::<TNode, TNumber, SFn, EFn>(
            &node_list,
            current,
            Ghost(get_successors),
            Ghost(is_end),
            Ghost(start),
        );
        all_results.push(
            ComputationResult { shortest_path, shortest_path_cost: current.current_accrued_cost },
        );
        idx += 1;
    }
    all_results
}

/// What a sound worker answer looks like: the parent record comes back
/// unchanged, and the outcome's records each extend the parent by one step
/// the successor function admits, a terminal one accepted and candidates
/// rejected by the termination predicate.
pub(crate) open spec fn worker_out_ok<
    TNode: CustomNode,
    TNumber: Numeric,
    SFn: Fn(&TNode) -> Vec<Successor<TNode, TNumber>>,
    EFn: Fn(&TNode) -> bool,
>(
    get_successors: SFn,
    is_end: EFn,
    parent: NodeDetails<TNode, TNumber>,
    out: WorkerAnswer<TNode, TNumber>,
) -> bool {
    &&& out.parent == parent
    &&& match out.outcome {
        WorkerOutcome::Terminal(t) => {
            &&& t.parent == Some(parent.id_of())
            &&& accepts(is_end, t.node)
            &&& exists|c: TNumber|
                #[trigger] can_step(get_successors, parent.node, t.node, c)
                    && t.current_accrued_cost == parent.current_accrued_cost.plus_spec(c)
        },
        WorkerOutcome::Candidates(v) => forall|k: int|
            0 <= k < v@.len() ==> {
                &&& (#[trigger] v@[k]).parent == Some(parent.id_of())
                &&& rejected(is_end, v@[k].node)
                &&& exists|c: TNumber|
                    #[trigger] can_step(get_successors, parent.node, v@[k].node, c)
                        && v@[k].current_accrued_cost == parent.current_accrued_cost.plus_spec(c)
            },
    }
}

/// Relies on rayon's parallel iterator `map` and `collect` on a vector:
/// `map_op` is applied to every element independently and the results are
/// collected in the input's order (collection from an indexed parallel
/// iterator preserves order).
#[verifier::external_body]
fn par_map<A: Send, B: Send, F: Fn(A) -> B + Sync + Send>(items: Vec<A>, map_op: F) -> (r: Vec<B>)
    requires
        forall|a: A| call_requires(map_op, (a,)),
    ensures
        r@.len() == items@.len(),
        forall|i: int| 0 <= i < items@.len() ==> call_ensures(map_op, (items@[i],), #[trigger] r@[i]),
{
    items.into_par_iter().map(map_op).collect()
}

/// One fork-join worker: expands its parent record through the successor
/// function with no shared mutable state, stopping at the first accepted
/// successor, and hands the parent back with what it found.
fn expand_record<
    TNode: CustomNode,
    TNumber: Numeric,
    SFn: Fn(&TNode) -> Vec<Successor<TNode, TNumber>>,
    DFn: Fn(CurrentNodeDetails<TNode, TNumber>) -> TNumber,
    EFn: Fn(&TNode) -> bool,
>(
    parent: NodeDetails<TNode, TNumber>,
    get_successors: &SFn,
    distance_function: &DFn,
    is_at_end_function: &EFn,
) -> (out: WorkerAnswer<TNode, TNumber>)
    requires
        forall|n: &TNode| call_requires(*get_successors, (n,)),
        forall|d: CurrentNodeDetails<TNode, TNumber>| call_requires(*distance_function, (d,)),
        forall|n: &TNode| call_requires(*is_at_end_function, (n,)),
    ensures
        worker_out_ok(*get_successors, *is_at_end_function, parent, out),
{
    let parent_g = parent.current_accrued_cost;
    let parent_id = parent.node.get_node_id();
    let successors = (*get_successors)(&parent.node);
    proof {
        assert(call_ensures(*get_successors, (&parent.node,), successors));
    }
    let mut candidates: Vec<NodeDetails<TNode, TNumber>> = Vec::with_capacity(successors.len());
    let mut si: usize = 0;
    while si < successors.len()
        invariant
            forall|n: &TNode| call_requires(*get_successors, (n,)),
            forall|d: CurrentNodeDetails<TNode, TNumber>| call_requires(*distance_function, (d,)),
            forall|n: &TNode| call_requires(*is_at_end_function, (n,)),
            call_ensures(*get_successors, (&parent.node,), successors),
            parent_g == parent.current_accrued_cost,
            parent_id == parent.id_of(),
            si <= successors@.len(),
            forall|k: int|
                0 <= k < candidates@.len() ==> {
                    &&& (#[trigger] candidates@[k]).parent == Some(parent.id_of())
                    &&& rejected(*is_at_end_function, candidates@[k].node)
                    &&& exists|c: TNumber|
                        #[trigger] can_step(*get_successors, parent.node, candidates@[k].node, c)
                            && candidates@[k].current_accrued_cost
                            == parent.current_accrued_cost.plus_spec(c)
                },
        decreases successors@.len() - si,
    {
        let snode = successors[si].node.clone_node();
        let distance = successors[si].cost_to_move_here;
        let to_current = parent_g.plus(distance);
        proof {
            assert(can_step(*get_successors, parent.node, snode, distance));
        }
        if (*is_at_end_function)(&snode) {
            let terminal = NodeDetails::new_with_parent(
                snode,
                to_current,
                TNumber::zero(),
                parent_id,
            );
            return WorkerAnswer { parent, outcome: WorkerOutcome::Terminal(terminal) };
        }
        let to_end = (*distance_function)(
            CurrentNodeDetails { current_node: &snode, cost_to_move_to_current: to_current },
        );
        candidates.push(NodeDetails::new_with_parent(snode, to_current, to_end, parent_id));
        si += 1;
    }
    WorkerAnswer { parent, outcome: WorkerOutcome::Candidates(candidates) }
}

/// Classic single-goal search: repeatedly extracts the cheapest frontier
/// record (least `g + h`, ties broken by the smaller identity key), expands
/// it through the caller's successor function, and returns the backtraced
/// path of the first successor the termination predicate accepts. On
/// success the path leaves `start`, every step of it is one the successor
/// function admits, its reported cost totals the step costs, its last node
/// was accepted by the predicate, every inner node was rejected by it, and
/// no identity key repeats before the goal node.
///
/// The stopping rule is greedy, as the design prescribes: the first
/// accepted successor wins, at the moment it is generated. The contract
/// therefore promises a genuine accepted path and its exact cost, not a
/// globally minimum-cost one: even with non-negative edge costs and an
/// estimator that never overestimates, a goal generated early from a
/// cheap-looking parent can cost more than a goal behind a dearer-looking
/// parent. Callers who need the cheapest goal should enumerate with
/// `a_star_search_all_with_max_score` and take the minimum. Expanded
/// identity keys are final: a rediscovery of an expanded identity is never
/// reinserted, even at a lower cost, so with an estimator that is
/// admissible but not consistent the explored route to a node may be a
/// costlier one.
///
/// `NoSolutionFound` is returned when the frontier is exhausted before any
/// successor is accepted; `IterLimitExceeded` when the step cap is reached
/// first — with no limit configured the cap is the machine's largest count,
/// so the two cannot be separated observationally in the contract.
/// `UnexpectedError` is proved unreachable. With `expansion_workers` above
/// one in the options, the same search runs in fork-join batches instead,
/// under the same contract.
pub fn a_star_search<
    TNode: CustomNode,
    TNumber: Numeric,
    TSuccessorsFunc: Fn(&TNode) -> Vec<Successor<TNode, TNumber>> + Sync + Send,
    TDistanceFunc: Fn(CurrentNodeDetails<TNode, TNumber>) -> TNumber + Send + Sync,
    TEndCheckFunc: Fn(&TNode) -> bool + Send + Sync,
>(
    start: TNode,
    get_successors: TSuccessorsFunc,
    distance_function: TDistanceFunc,
    is_at_end_function: TEndCheckFunc,
    options: Option<&Options>,
) -> (r: core::result::Result<ComputationResult<TNode, TNumber>, Error>)
    requires
        forall|n: &TNode| call_requires(get_successors, (n,)),
        forall|d: CurrentNodeDetails<TNode, TNumber>| call_requires(distance_function, (d,)),
        forall|n: &TNode| call_requires(is_at_end_function, (n,)),
    ensures
        r matches Ok(res) ==> {
            &&& valid_path_from(get_successors, start, res.shortest_path@, res.shortest_path_cost)
            &&& res.shortest_path@.len() >= 2
            &&& accepts(is_at_end_function, res.shortest_path@.last())
            &&& (forall|a: int, b: int|
                #![trigger res.shortest_path@[a].id_spec(), res.shortest_path@[b].id_spec()]
                0 <= a < b < res.shortest_path@.len() - 1
                    ==> res.shortest_path@[a].id_spec() != res.shortest_path@[b].id_spec())
            &&& forall|k: int|
                1 <= k < res.shortest_path@.len() - 1 ==> rejected(
                    is_at_end_function,
                    #[trigger] res.shortest_path@[k],
                )
        },
        r matches Err(e) ==> e == Error::NoSolutionFound || e == Error::IterLimitExceeded,
{
    let ghost start_spec = start;
    let default_options = Options::default();
    let options = match options {
        Some(o) => o,
        None => &default_options,
    };
    if options.expansion_workers > 1 {
        return a_star_search_batched(
            start,
            get_successors,
            distance_function,
            is_at_end_function,
            options,
        );
    }
    let mut node_list = NodeList::<TNode, TNumber>::new(start);
    let mut timeout = Timeout::start(duration_copy(&options.log_interval));
    let limit = match options.iteration_limit {
        Some(l) => l,
        None => usize::MAX,
    };

    let mut i: usize = 1;
    while i < limit
        invariant
            start_spec == start,
            node_list.wf(),
            nl_ok(get_successors, is_at_end_function, start_spec, node_list),
            forall|n: &TNode| call_requires(get_successors, (n,)),
            forall|d: CurrentNodeDetails<TNode, TNumber>| call_requires(distance_function, (d,)),
            forall|n: &TNode| call_requires(is_at_end_function, (n,)),
        decreases limit - i,
    {
        let ghost pre_extract = node_list;
        let next = node_list.get_next();
        let step_data = match next {
            Ok((parent, _remaining_list_len)) => (
                parent.node.clone_node(),
                parent.current_accrued_cost,
                parent.node.get_node_id(),
            ),
            Err(_) => {
                return Err(Error::NoSolutionFound);
            },
        };
        let parent_node = step_data.0;
        let parent_g = step_data.1;
        let parent_id = step_data.2;
        let ghost parent_rec = node_list.history().last();
        proof {
            let ei = choose|ei: int|
                {
                    &&& 0 <= ei < pre_extract.frontier().len()
                    &&& parent_rec == pre_extract.frontier()[ei]
                    &&& forall|j: int|
                        0 <= j < pre_extract.frontier().len() && j != ei ==> models::takes_precedence(
                            pre_extract.frontier()[ei],
                            #[trigger] pre_extract.frontier()[j],
                        )
                    &&& node_list.frontier() == pre_extract.frontier().remove(ei)
                    &&& node_list.history() == pre_extract.history().push(
                        pre_extract.frontier()[ei],
                    )
                };
            lemma_nl_ok_after_extract(
                get_successors,
                is_at_end_function,
                start_spec,
                pre_extract,
                node_list,
                ei,
            );
        }

        if !options.suppress_logs {
            if timeout.is_done() {
                timeout.restart();
            }
        }

        let successors = get_successors(&parent_node);
        proof {
            assert(call_ensures(get_successors, (&parent_rec.node,), successors));
            assert(node_list.history().last() == parent_rec);
        }

        let mut results: Vec<NodeDetails<TNode, TNumber>> = Vec::with_capacity(successors.len());
        let mut si: usize = 0;
        while si < successors.len()
            invariant
                start_spec == start,
                node_list.wf(),
                nl_ok(get_successors, is_at_end_function, start_spec, node_list),
                forall|n: &TNode| call_requires(get_successors, (n,)),
                forall|d: CurrentNodeDetails<TNode, TNumber>| call_requires(
                    distance_function,
                    (d,),
                ),
                forall|n: &TNode| call_requires(is_at_end_function, (n,)),
                node_list.history().len() >= 1,
                node_list.history().last() == parent_rec,
                parent_g == parent_rec.current_accrued_cost,
                parent_id == parent_rec.id_of(),
                parent_node == parent_rec.node,
                call_ensures(get_successors, (&parent_rec.node,), successors),
                si <= successors@.len(),
                forall|k: int|
                    0 <= k < results@.len() ==> {
                        &&& (#[trigger] results@[k]).parent == Some(parent_rec.id_of())
                        &&& rejected(is_at_end_function, results@[k].node)
                        &&& exists|c: TNumber|
                            #[trigger] can_step(get_successors, parent_rec.node, results@[k].node, c)
                                && results@[k].current_accrued_cost
                                == parent_rec.current_accrued_cost.plus_spec(c)
                    },
            decreases successors@.len() - si,
        {
            let snode = successors[si].node.clone_node();
            let distance = successors[si].cost_to_move_here;
            let to_current = parent_g.plus(distance);
            proof {
                assert(can_step(get_successors, parent_rec.node, snode, distance));
            }

            if is_at_end_function(&snode) {
                let end_details = NodeDetails::new_with_parent(
                    snode,
                    to_current,
                    TNumber::zero(),
                    parent_id,
                );
                proof {
                    let hist = node_list.history();
                    let j = hist.len() - 1;
                    assert(hist[j].id_of() == parent_rec.id_of());
                    assert(can_step(get_successors, hist[j].node, end_details.node, distance));
                    assert(parent_link_ok(get_successors, start_spec, hist, end_details));
                }
                return Ok(
                    make_results::<TNode, TNumber, TSuccessorsFunc, TEndCheckFunc>(
                        end_details,
                        node_list,
                        Ghost(get_successors),
                        Ghost(is_at_end_function),
                        Ghost(start_spec),
                    ),
                );
            }

            let to_end = distance_function(
                CurrentNodeDetails { current_node: &snode, cost_to_move_to_current: to_current },
            );
            let details = NodeDetails::new_with_parent(snode, to_current, to_end, parent_id);
            results.push(details);
            si += 1;
        }

        let mut ri: usize = 0;
        while ri < results.len()
            invariant
                start_spec == start,
                node_list.wf(),
                nl_ok(get_successors, is_at_end_function, start_spec, node_list),
                forall|n: &TNode| call_requires(get_successors, (n,)),
                forall|d: CurrentNodeDetails<TNode, TNumber>| call_requires(
                    distance_function,
                    (d,),
                ),
                forall|n: &TNode| call_requires(is_at_end_function, (n,)),
                node_list.history().len() >= 1,
                node_list.history().last() == parent_rec,
                ri <= results@.len(),
                forall|k: int|
                    0 <= k < results@.len() ==> {
                        &&& (#[trigger] results@[k]).parent == Some(parent_rec.id_of())
                        &&& rejected(is_at_end_function, results@[k].node)
                        &&& exists|c: TNumber|
                            #[trigger] can_step(get_successors, parent_rec.node, results@[k].node, c)
                                && results@[k].current_accrued_cost
                                == parent_rec.current_accrued_cost.plus_spec(c)
                    },
            decreases results@.len() - ri,
        {
            let rec = &results[ri];
            let details = NodeDetails {
                node: rec.node.clone_node(),
                current_accrued_cost: rec.current_accrued_cost,
                estimated_cost_to_goal: rec.estimated_cost_to_goal,
                parent: rec.parent,
            };
            let ghost pre_insert = node_list;
            proof {
                let hist = node_list.history();
                let j = hist.len() - 1;
                assert(hist[j].id_of() == parent_rec.id_of());
                assert(models::has_id(hist, parent_rec.id_of()));
                assert(record_ok(
                    get_successors,
                    is_at_end_function,
                    start_spec,
                    hist,
                    details,
                ));
            }
            node_list.try_insert_successor(details);
            proof {
                lemma_nl_ok_after_insert(
                    get_successors,
                    is_at_end_function,
                    start_spec,
                    pre_insert,
                    node_list,
                    details,
                );
            }
            ri += 1;
        }
        i += 1;
    }

    Err(Error::IterLimitExceeded)
}

/// Single-goal search that terminates on equality with a supplied target
/// node, equality being — as everywhere in the registry — equality of
/// identity keys. A thin layer over `a_star_search` with the equality test
/// as its termination predicate: on success the returned path is an
/// admitted path from `start` whose reported cost totals its step costs,
/// whose last node carries the target's identity key, and whose inner
/// nodes do not. The greedy stopping rule and the error conditions are
/// those of `a_star_search`.
pub fn a_star_search_for_target<
    TNode: CustomNode,
    TNumber: Numeric,
    TSuccessorsFunc: Fn(&TNode) -> Vec<Successor<TNode, TNumber>> + Sync + Send,
    TDistanceFunc: Fn(CurrentNodeDetails<TNode, TNumber>) -> TNumber + Send + Sync,
>(
    start: TNode,
    target: &TNode,
    get_successors: TSuccessorsFunc,
    distance_function: TDistanceFunc,
    options: Option<&Options>,
) -> (r: core::result::Result<ComputationResult<TNode, TNumber>, Error>)
    requires
        forall|n: &TNode| call_requires(get_successors, (n,)),
        forall|d: CurrentNodeDetails<TNode, TNumber>| call_requires(distance_function, (d,)),
    ensures
        r matches Ok(res) ==> {
            &&& valid_path_from(get_successors, start, res.shortest_path@, res.shortest_path_cost)
            &&& res.shortest_path@.len() >= 2
            &&& res.shortest_path@.last().id_spec() == target.id_spec()
            &&& (forall|a: int, b: int|
                #![trigger res.shortest_path@[a].id_spec(), res.shortest_path@[b].id_spec()]
                0 <= a < b < res.shortest_path@.len() - 1
                    ==> res.shortest_path@[a].id_spec() != res.shortest_path@[b].id_spec())
            &&& forall|k: int|
                1 <= k < res.shortest_path@.len() - 1 ==> (
                #[trigger] res.shortest_path@[k]).id_spec() != target.id_spec()
        },
        r matches Err(e) ==> e == Error::NoSolutionFound || e == Error::IterLimitExceeded,
{
    let target_key = target.get_node_id();
    let is_at_end = |n: &TNode| -> (hit: bool)
        ensures
            hit == (n.id_spec() == target_key),
        { n.get_node_id() == target_key };
    let r = a_star_search(start, get_successors, distance_function, is_at_end, options);
    proof {
        if r is Ok {
            let res = r->Ok_0;
            assert(res.shortest_path@.last().id_spec() == target.id_spec());
            assert forall|k: int| 1 <= k < res.shortest_path@.len() - 1 implies (
            #[trigger] res.shortest_path@[k]).id_spec() != target.id_spec() by {
                assert(rejected(is_at_end, res.shortest_path@[k]));
            }
        }
    }
    r
}

/// Fork-join batch expansion: per step, up to `expansion_workers` cheapest
/// frontier records are extracted with the same deterministic rule as
/// sequential mode and expanded by independent workers; after the join
/// barrier the coordinator archives the batch parents, backtraces the
/// terminal record of least accrued cost (first in extraction order on
/// ties) if any worker reached a goal, and otherwise merges all candidate
/// records into the registry.
fn a_star_search_batched<
    TNode: CustomNode,
    TNumber: Numeric,
    TSuccessorsFunc: Fn(&TNode) -> Vec<Successor<TNode, TNumber>> + Sync + Send,
    TDistanceFunc: Fn(CurrentNodeDetails<TNode, TNumber>) -> TNumber + Send + Sync,
    TEndCheckFunc: Fn(&TNode) -> bool + Send + Sync,
>(
    start: TNode,
    get_successors: TSuccessorsFunc,
    distance_function: TDistanceFunc,
    is_at_end_function: TEndCheckFunc,
    options: &Options,
) -> (r: core::result::Result<ComputationResult<TNode, TNumber>, Error>)
    requires
        options.expansion_workers >= 1,
        forall|n: &TNode| call_requires(get_successors, (n,)),
        forall|d: CurrentNodeDetails<TNode, TNumber>| call_requires(distance_function, (d,)),
        forall|n: &TNode| call_requires(is_at_end_function, (n,)),
    ensures
        r matches Ok(res) ==> {
            &&& valid_path_from(get_successors, start, res.shortest_path@, res.shortest_path_cost)
            &&& res.shortest_path@.len() >= 2
            &&& accepts(is_at_end_function, res.shortest_path@.last())
            &&& (forall|a: int, b: int|
                #![trigger res.shortest_path@[a].id_spec(), res.shortest_path@[b].id_spec()]
                0 <= a < b < res.shortest_path@.len() - 1
                    ==> res.shortest_path@[a].id_spec() != res.shortest_path@[b].id_spec())
            &&& forall|k: int|
                1 <= k < res.shortest_path@.len() - 1 ==> rejected(
                    is_at_end_function,
                    #[trigger] res.shortest_path@[k],
                )
        },
        r matches Err(e) ==> e == Error::NoSolutionFound || e == Error::IterLimitExceeded,
{
    let ghost start_spec = start;
    let workers = options.expansion_workers;
    let mut node_list = NodeList::<TNode, TNumber>::new(start);
    let mut timeout = Timeout::start(duration_copy(&options.log_interval));
    let limit = match options.iteration_limit {
        Some(l) => l,
        None => usize::MAX,
    };

    let mut i: usize = 1;
    while i < limit
        invariant
            start_spec == start,
            workers >= 1,
            node_list.wf(),
            nl_ok(get_successors, is_at_end_function, start_spec, node_list),
            forall|n: &TNode| call_requires(get_successors, (n,)),
            forall|d: CurrentNodeDetails<TNode, TNumber>| call_requires(distance_function, (d,)),
            forall|n: &TNode| call_requires(is_at_end_function, (n,)),
        decreases limit - i,
    {
        if !options.suppress_logs {
            if timeout.is_done() {
                timeout.restart();
            }
        }

        let ghost pre_extract = node_list;
        let pulled = node_list.extract_batch(workers);
        if pulled.len() == 0 {
            return Err(Error::NoSolutionFound);
        }
        let ghost pulled_s = pulled@;
        let ghost hist0 = node_list.history();
        let ghost frontier0 = node_list.frontier();
        proof {
            assert forall|a: int| 0 <= a < node_list.frontier().len() implies record_ok(
                get_successors,
                is_at_end_function,
                start_spec,
                node_list.history(),
                #[trigger] node_list.frontier()[a],
            ) by {
                assert(pre_extract.frontier().contains(node_list.frontier()[a]));
                let j = choose|j: int|
                    0 <= j < pre_extract.frontier().len() && pre_extract.frontier()[j]
                        == node_list.frontier()[a];
                assert(record_ok(
                    get_successors,
                    is_at_end_function,
                    start_spec,
                    pre_extract.history(),
                    pre_extract.frontier()[j],
                ));
            }
            assert forall|a: int| 0 <= a < pulled_s.len() implies record_ok(
                get_successors,
                is_at_end_function,
                start_spec,
                node_list.history(),
                #[trigger] pulled_s[a],
            ) && !models::has_id(hist0, pulled_s[a].id_of()) by {
                assert(pre_extract.frontier().contains(pulled_s[a]));
                let j = choose|j: int|
                    0 <= j < pre_extract.frontier().len() && pre_extract.frontier()[j]
                        == pulled_s[a];
                assert(record_ok(
                    get_successors,
                    is_at_end_function,
                    start_spec,
                    pre_extract.history(),
                    pre_extract.frontier()[j],
                ));
                if models::has_id(hist0, pulled_s[a].id_of()) {
                    let w = choose|w: int|
                        0 <= w < hist0.len() && (#[trigger] hist0[w]).id_of()
                            == pulled_s[a].id_of();
                    assert(pre_extract.frontier()[j].id_of() != pre_extract.history()[w].id_of());
                }
            }
        }

        let successors_ref = &get_successors;
        let distance_ref = &distance_function;
        let is_end_ref = &is_at_end_function;
        let worker = |rec: NodeDetails<TNode, TNumber>| -> (out: WorkerAnswer<TNode, TNumber>)
            requires
                forall|n: &TNode| call_requires(*successors_ref, (n,)),
                forall|d: CurrentNodeDetails<TNode, TNumber>| call_requires(*distance_ref, (d,)),
                forall|n: &TNode| call_requires(*is_end_ref, (n,)),
            ensures
                worker_out_ok(*successors_ref, *is_end_ref, rec, out),
            {
                expand_record(rec, successors_ref, distance_ref, is_end_ref)
            };
        let outs = par_map(pulled, worker);
        proof {
            assert(outs@.len() == pulled_s.len());
        }

        let mut pi: usize = 0;
        while pi < outs.len()
            invariant
                start_spec == start,
                node_list.wf(),
                nl_ok(get_successors, is_at_end_function, start_spec, node_list),
                forall|n: &TNode| call_requires(get_successors, (n,)),
                forall|d: CurrentNodeDetails<TNode, TNumber>| call_requires(
                    distance_function,
                    (d,),
                ),
                forall|n: &TNode| call_requires(is_at_end_function, (n,)),
                outs@.len() == pulled_s.len(),
                forall|oi: int|
                    0 <= oi < outs@.len() ==> worker_out_ok(
                        get_successors,
                        is_at_end_function,
                        pulled_s[oi],
                        #[trigger] outs@[oi],
                    ),
                pi <= outs@.len(),
                node_list.frontier() == frontier0,
                node_list.history() == hist0.add(pulled_s.take(pi as int)),
                ids_distinct(pulled_s.add(frontier0)),
                forall|a: int|
                    0 <= a < pulled_s.len() ==> !models::has_id(
                        hist0,
                        (#[trigger] pulled_s[a]).id_of(),
                    ),
                forall|a: int|
                    pi <= a < pulled_s.len() ==> record_ok(
                        get_successors,
                        is_at_end_function,
                        start_spec,
                        node_list.history(),
                        #[trigger] pulled_s[a],
                    ),
            decreases outs@.len() - pi,
        {
            let parent_ref = &outs[pi].parent;
            let parent_rebuilt = NodeDetails {
                node: parent_ref.node.clone_node(),
                current_accrued_cost: parent_ref.current_accrued_cost,
                estimated_cost_to_goal: parent_ref.estimated_cost_to_goal,
                parent: parent_ref.parent,
            };
            proof {
                assert(worker_out_ok(
                    get_successors,
                    is_at_end_function,
                    pulled_s[pi as int],
                    outs@[pi as int],
                ));
                assert(parent_rebuilt == pulled_s[pi as int]);
                // its identity key is in neither the frontier nor the history
                assert forall|b: int|
                    0 <= b < node_list.frontier().len() implies (
                #[trigger] node_list.frontier()[b]).id_of() != parent_rebuilt.id_of() by {
                    let concat = pulled_s.add(frontier0);
                    assert(concat[pi as int] == pulled_s[pi as int]);
                    assert(concat[pulled_s.len() + b] == frontier0[b]);
                    assert(concat[pi as int].id_of() != concat[pulled_s.len() + b].id_of());
                }
                assert forall|b: int|
                    0 <= b < node_list.history().len() implies (
                #[trigger] node_list.history()[b]).id_of() != parent_rebuilt.id_of() by {
                    if b < hist0.len() {
                        assert(node_list.history()[b] == hist0[b]);
                        assert(!models::has_id(hist0, pulled_s[pi as int].id_of()));
                    } else {
                        let a = b - hist0.len();
                        assert(node_list.history()[b] == pulled_s[a]);
                        let concat = pulled_s.add(frontier0);
                        assert(concat[a] == pulled_s[a]);
                        assert(concat[pi as int] == pulled_s[pi as int]);
                        if a < pi as int {
                            assert(concat[a].id_of() != concat[pi as int].id_of());
                        }
                    }
                }
                assert(!models::has_id(node_list.frontier(), parent_rebuilt.id_of()));
                assert(!models::has_id(node_list.history(), parent_rebuilt.id_of()));
                assert(record_ok(
                    get_successors,
                    is_at_end_function,
                    start_spec,
                    node_list.history(),
                    parent_rebuilt,
                ));
                if parent_rebuilt.parent is Some {
                    let (j, c) = choose|j: int, c: TNumber|
                        0 <= j < node_list.history().len() && node_list.history()[j].id_of()
                            == parent_rebuilt.parent->0 && #[trigger] can_step(
                            get_successors,
                            node_list.history()[j].node,
                            parent_rebuilt.node,
                            c,
                        ) && parent_rebuilt.current_accrued_cost == node_list.history()[
                        j].current_accrued_cost.plus_spec(c);
                    assert(models::has_id(node_list.history(), parent_rebuilt.parent->0));
                }
            }
            let ghost pre_push = node_list;
            node_list.push_expanded(parent_rebuilt);
            proof {
                lemma_nl_ok_after_push(
                    get_successors,
                    is_at_end_function,
                    start_spec,
                    pre_push,
                    node_list,
                    parent_rebuilt,
                );
                assert forall|a: int| pi + 1 <= a < pulled_s.len() implies record_ok(
                    get_successors,
                    is_at_end_function,
                    start_spec,
                    node_list.history(),
                    #[trigger] pulled_s[a],
                ) by {
                    lemma_link_push(
                        get_successors,
                        start_spec,
                        pre_push.history(),
                        parent_rebuilt,
                        pulled_s[a],
                    );
                }
                assert(node_list.history() =~= hist0.add(pulled_s.take(pi + 1)));
            }
            pi += 1;
        }
        proof {
            assert(pulled_s.take(pulled_s.len() as int) =~= pulled_s);
        }

        let mut best_terminal: Option<NodeDetails<TNode, TNumber>> = None;
        let mut oi: usize = 0;
        while oi < outs.len()
            invariant
                start_spec == start,
                node_list.wf(),
                nl_ok(get_successors, is_at_end_function, start_spec, node_list),
                forall|n: &TNode| call_requires(get_successors, (n,)),
                forall|d: CurrentNodeDetails<TNode, TNumber>| call_requires(
                    distance_function,
                    (d,),
                ),
                forall|n: &TNode| call_requires(is_at_end_function, (n,)),
                outs@.len() == pulled_s.len(),
                forall|oj: int|
                    0 <= oj < outs@.len() ==> worker_out_ok(
                        get_successors,
                        is_at_end_function,
                        pulled_s[oj],
                        #[trigger] outs@[oj],
                    ),
                node_list.history() == hist0.add(pulled_s),
                oi <= outs@.len(),
                match best_terminal {
                    None => true,
                    Some(t) => {
                        &&& parent_link_ok(
                            get_successors,
                            start_spec,
                            node_list.history(),
                            t,
                        )
                        &&& accepts(is_at_end_function, t.node)
                        &&& t.parent is Some
                    },
                },
            decreases outs@.len() - oi,
        {
            match &outs[oi].outcome {
                WorkerOutcome::Terminal(t) => {
                    let cand = NodeDetails {
                        node: t.node.clone_node(),
                        current_accrued_cost: t.current_accrued_cost,
                        estimated_cost_to_goal: t.estimated_cost_to_goal,
                        parent: t.parent,
                    };
                    proof {
                        assert(worker_out_ok(
                            get_successors,
                            is_at_end_function,
                            pulled_s[oi as int],
                            outs@[oi as int],
                        ));
                        let j = hist0.len() + oi;
                        assert(node_list.history()[j as int] == pulled_s[oi as int]);
                        let c = choose|c: TNumber|
                            #[trigger] can_step(
                                get_successors,
                                pulled_s[oi as int].node,
                                cand.node,
                                c,
                            ) && cand.current_accrued_cost == pulled_s[
                            oi as int].current_accrued_cost.plus_spec(c);
                        assert(parent_link_ok(
                            get_successors,
                            start_spec,
                            node_list.history(),
                            cand,
                        ));
                    }
                    let replace = match &best_terminal {
                        None => true,
                        Some(b) => num_lt(cand.current_accrued_cost, b.current_accrued_cost),
                    };
                    if replace {
                        best_terminal = Some(cand);
                    }
                },
                WorkerOutcome::Candidates(_) => {},
            }
            oi += 1;
        }

        match best_terminal {
            Some(t) => {
                return Ok(
                    make_results::<TNode, TNumber, TSuccessorsFunc, TEndCheckFunc>(
                        t,
                        node_list,
                        Ghost(get_successors),
                        Ghost(is_at_end_function),
                        Ghost(start_spec),
                    ),
                );
            },
            None => {},
        }

        let mut mi: usize = 0;
        while mi < outs.len()
            invariant
                start_spec == start,
                node_list.wf(),
                nl_ok(get_successors, is_at_end_function, start_spec, node_list),
                forall|n: &TNode| call_requires(get_successors, (n,)),
                forall|d: CurrentNodeDetails<TNode, TNumber>| call_requires(
                    distance_function,
                    (d,),
                ),
                forall|n: &TNode| call_requires(is_at_end_function, (n,)),
                outs@.len() == pulled_s.len(),
                forall|oj: int|
                    0 <= oj < outs@.len() ==> worker_out_ok(
                        get_successors,
                        is_at_end_function,
                        pulled_s[oj],
                        #[trigger] outs@[oj],
                    ),
                node_list.history() == hist0.add(pulled_s),
                mi <= outs@.len(),
            decreases outs@.len() - mi,
        {
            match &outs[mi].outcome {
                WorkerOutcome::Candidates(v) => {
                    let mut ci: usize = 0;
                    while ci < v.len()
                        invariant
                            start_spec == start,
                            node_list.wf(),
                            nl_ok(get_successors, is_at_end_function, start_spec, node_list),
                            forall|n: &TNode| call_requires(get_successors, (n,)),
                            forall|d: CurrentNodeDetails<TNode, TNumber>| call_requires(
                                distance_function,
                                (d,),
                            ),
                            forall|n: &TNode| call_requires(is_at_end_function, (n,)),
                            outs@.len() == pulled_s.len(),
                            0 <= mi < outs@.len(),
                            outs@[mi as int].outcome == WorkerOutcome::Candidates(*v),
                            worker_out_ok(
                                get_successors,
                                is_at_end_function,
                                pulled_s[mi as int],
                                outs@[mi as int],
                            ),
                            node_list.history() == hist0.add(pulled_s),
                            ci <= v@.len(),
                        decreases v@.len() - ci,
                    {
                        let rec = &v[ci];
                        let details = NodeDetails {
                            node: rec.node.clone_node(),
                            current_accrued_cost: rec.current_accrued_cost,
                            estimated_cost_to_goal: rec.estimated_cost_to_goal,
                            parent: rec.parent,
                        };
                        let ghost pre_insert = node_list;
                        proof {
                            let j = hist0.len() + mi;
                            assert(node_list.history()[j as int] == pulled_s[mi as int]);
                            assert(details == v@[ci as int]);
                            let c = choose|c: TNumber|
                                #[trigger] can_step(
                                    get_successors,
                                    pulled_s[mi as int].node,
                                    details.node,
                                    c,
                                ) && details.current_accrued_cost == pulled_s[
                                mi as int].current_accrued_cost.plus_spec(c);
                            assert(parent_link_ok(
                                get_successors,
                                start_spec,
                                node_list.history(),
                                details,
                            ));
                            assert(models::has_id(node_list.history(), details.parent->0));
                            assert(record_ok(
                                get_successors,
                                is_at_end_function,
                                start_spec,
                                node_list.history(),
                                details,
                            ));
                        }
                        node_list.try_insert_successor(details);
                        proof {
                            lemma_nl_ok_after_insert(
                                get_successors,
                                is_at_end_function,
                                start_spec,
                                pre_insert,
                                node_list,
                                details,
                            );
                        }
                        ci += 1;
                    }
                },
                WorkerOutcome::Terminal(_) => {},
            }
            mi += 1;
        }
        i += 1;
    }

    Err(Error::IterLimitExceeded)
}

/// Branch-and-bound enumeration of every goal within the cost ceiling:
/// successors whose accrued cost would exceed `max_score` are discarded
/// before insertion, reaching a goal records it and exploration continues,
/// and the search succeeds only once the frontier is exhausted with at
/// least one goal collected. Each returned result is a path from `start`
/// that the successor function admits, whose reported cost totals its step
/// costs and stays within `max_score`, whose last node was accepted by the
/// predicate, and whose inner nodes were rejected by it.
///
/// The contract does not promise that every goal reachable within budget
/// appears: which discoveries reach the registry is pruned by position and
/// identity (expanded identity keys are final and are never reinserted,
/// even at a lower cost), and with relational callbacks a successor the
/// specification admits need not be the one an actual call produced.
/// `NoSolutionFound` is returned when the frontier is exhausted with
/// nothing collected; `IterLimitExceeded` when the step cap is reached
/// first — with no limit configured the cap is the machine's largest
/// count, so the two cannot be separated observationally in the contract.
/// `UnexpectedError` is proved unreachable.
pub fn a_star_search_all_with_max_score<
    TNode: CustomNode,
    TNumber: Numeric,
    TSuccessorsFunc: Fn(&TNode) -> Vec<Successor<TNode, TNumber>> + Sync + Send,
    TDistanceFunc: Fn(CurrentNodeDetails<TNode, TNumber>) -> TNumber + Send + Sync,
    TEndCheckFunc: Fn(&TNode) -> bool + Send + Sync,
>(
    max_score: TNumber,
    start: TNode,
    get_successors: TSuccessorsFunc,
    distance_function: TDistanceFunc,
    is_at_end_function: TEndCheckFunc,
    options: Option<&Options>,
) -> (r: core::result::Result<Vec<ComputationResult<TNode, TNumber>>, Error>)
    requires
        forall|n: &TNode| call_requires(get_successors, (n,)),
        forall|d: CurrentNodeDetails<TNode, TNumber>| call_requires(distance_function, (d,)),
        forall|n: &TNode| call_requires(is_at_end_function, (n,)),
    ensures
        r matches Ok(v) ==> {
            &&& v@.len() >= 1
            &&& forall|k: int|
                0 <= k < v@.len() ==> {
                    &&& valid_path_from(
                        get_successors,
                        start,
                        (#[trigger] v@[k]).shortest_path@,
                        v@[k].shortest_path_cost,
                    )
                    &&& v@[k].shortest_path@.len() >= 2
                    &&& accepts(is_at_end_function, v@[k].shortest_path@.last())
                    &&& (forall|a: int, b: int|
                        #![trigger v@[k].shortest_path@[a].id_spec(), v@[k].shortest_path@[b].id_spec()]
                        0 <= a < b < v@[k].shortest_path@.len() - 1
                            ==> v@[k].shortest_path@[a].id_spec()
                            != v@[k].shortest_path@[b].id_spec())
                    &&& v@[k].shortest_path_cost.le_spec(max_score)
                    &&& forall|m: int|
                        1 <= m < v@[k].shortest_path@.len() - 1 ==> rejected(
                            is_at_end_function,
                            #[trigger] v@[k].shortest_path@[m],
                        )
                }
        },
        r matches Err(e) ==> e == Error::NoSolutionFound || e == Error::IterLimitExceeded,
{
    let ghost start_spec = start;
    let default_options = Options::default();
    let options = match options {
        Some(o) => o,
        None => &default_options,
    };
    let mut node_list = NodeList::<TNode, TNumber>::new(start);
    let mut timeout = Timeout::start(duration_copy(&options.log_interval));
    let limit = match options.iteration_limit {
        Some(l) => l,
        None => usize::MAX,
    };

    let mut scoring_results: Vec<NodeDetails<TNode, TNumber>> = Vec::new();

    let mut i: usize = 1;
    while i < limit
        invariant
            start_spec == start,
            node_list.wf(),
            nl_ok(get_successors, is_at_end_function, start_spec, node_list),
            forall|n: &TNode| call_requires(get_successors, (n,)),
            forall|d: CurrentNodeDetails<TNode, TNumber>| call_requires(distance_function, (d,)),
            forall|n: &TNode| call_requires(is_at_end_function, (n,)),
            forall|k: int|
                0 <= k < scoring_results@.len() ==> {
                    &&& parent_link_ok(
                        get_successors,
                        start_spec,
                        node_list.history(),
                        #[trigger] scoring_results@[k],
                    )
                    &&& accepts(is_at_end_function, scoring_results@[k].node)
                    &&& scoring_results@[k].current_accrued_cost.le_spec(max_score)
                    &&& scoring_results@[k].parent is Some
                },
        decreases limit - i,
    {
        let ghost pre_extract = node_list;
        let next = node_list.get_next();
        let step_data = match next {
            Ok((parent, _remaining_list_size)) => (
                parent.node.clone_node(),
                parent.current_accrued_cost,
                parent.node.get_node_id(),
            ),
            Err(_) => {
                if scoring_results.len() == 0 {
                    return Err(Error::NoSolutionFound);
                }
                return Ok(
                    make_results_multiple::<TNode, TNumber, TSuccessorsFunc, TEndCheckFunc>(
                        scoring_results,
                        node_list,
                        Ghost(get_successors),
                        Ghost(is_at_end_function),
                        Ghost(start_spec),
                    ),
                );
            },
        };
        let parent_node = step_data.0;
        let parent_g = step_data.1;
        let parent_id = step_data.2;
        let ghost parent_rec = node_list.history().last();
        proof {
            let ei = choose|ei: int|
                {
                    &&& 0 <= ei < pre_extract.frontier().len()
                    &&& parent_rec == pre_extract.frontier()[ei]
                    &&& node_list.frontier() == pre_extract.frontier().remove(ei)
                    &&& node_list.history() == pre_extract.history().push(
                        pre_extract.frontier()[ei],
                    )
                };
            lemma_nl_ok_after_extract(
                get_successors,
                is_at_end_function,
                start_spec,
                pre_extract,
                node_list,
                ei,
            );
            assert forall|k: int| 0 <= k < scoring_results@.len() implies parent_link_ok(
                get_successors,
                start_spec,
                node_list.history(),
                #[trigger] scoring_results@[k],
            ) by {
                lemma_link_push(
                    get_successors,
                    start_spec,
                    pre_extract.history(),
                    parent_rec,
                    scoring_results@[k],
                );
            }
        }

        if !options.suppress_logs {
            if timeout.is_done() {
                timeout.restart();
            }
        }

        let successors = get_successors(&parent_node);
        proof {
            assert(call_ensures(get_successors, (&parent_rec.node,), successors));
            assert(node_list.history().last() == parent_rec);
        }

        let mut next_parents: Vec<NodeDetails<TNode, TNumber>> = Vec::with_capacity(
            successors.len(),
        );
        let mut si: usize = 0;
        while si < successors.len()
            invariant
                start_spec == start,
                node_list.wf(),
                nl_ok(get_successors, is_at_end_function, start_spec, node_list),
                forall|n: &TNode| call_requires(get_successors, (n,)),
                forall|d: CurrentNodeDetails<TNode, TNumber>| call_requires(
                    distance_function,
                    (d,),
                ),
                forall|n: &TNode| call_requires(is_at_end_function, (n,)),
                node_list.history().len() >= 1,
                node_list.history().last() == parent_rec,
                parent_g == parent_rec.current_accrued_cost,
                parent_id == parent_rec.id_of(),
                parent_node == parent_rec.node,
                call_ensures(get_successors, (&parent_rec.node,), successors),
                si <= successors@.len(),
                forall|k: int|
                    0 <= k < next_parents@.len() ==> {
                        &&& (#[trigger] next_parents@[k]).parent == Some(parent_rec.id_of())
                        &&& rejected(is_at_end_function, next_parents@[k].node)
                        &&& exists|c: TNumber|
                            #[trigger] can_step(
                                get_successors,
                                parent_rec.node,
                                next_parents@[k].node,
                                c,
                            ) && next_parents@[k].current_accrued_cost
                                == parent_rec.current_accrued_cost.plus_spec(c)
                    },
                forall|k: int|
                    0 <= k < scoring_results@.len() ==> {
                        &&& parent_link_ok(
                            get_successors,
                            start_spec,
                            node_list.history(),
                            #[trigger] scoring_results@[k],
                        )
                        &&& accepts(is_at_end_function, scoring_results@[k].node)
                        &&& scoring_results@[k].current_accrued_cost.le_spec(max_score)
                        &&& scoring_results@[k].parent is Some
                    },
            decreases successors@.len() - si,
        {
            let snode = successors[si].node.clone_node();
            let distance = successors[si].cost_to_move_here;
            let to_current = parent_g.plus(distance);
            proof {
                assert(can_step(get_successors, parent_rec.node, snode, distance));
            }
            if num_lt(max_score, to_current) {
                si += 1;
                continue ;
            }
            proof {
                TNumber::le_properties(to_current, max_score, to_current);
            }

            if is_at_end_function(&snode) {
                let end_details = NodeDetails::new_with_parent(
                    snode,
                    to_current,
                    TNumber::zero(),
                    parent_id,
                );
                proof {
                    let hist = node_list.history();
                    let j = hist.len() - 1;
                    assert(hist[j].id_of() == parent_rec.id_of());
                    assert(can_step(get_successors, hist[j].node, end_details.node, distance));
                    assert(parent_link_ok(get_successors, start_spec, hist, end_details));
                }
                scoring_results.push(end_details);
                si += 1;
                continue ;
            }

            let to_end = distance_function(
                CurrentNodeDetails { current_node: &snode, cost_to_move_to_current: to_current },
            );
            let details = NodeDetails::new_with_parent(snode, to_current, to_end, parent_id);
            next_parents.push(details);
            si += 1;
        }

        let mut ri: usize = 0;
        while ri < next_parents.len()
            invariant
                start_spec == start,
                node_list.wf(),
                nl_ok(get_successors, is_at_end_function, start_spec, node_list),
                forall|n: &TNode| call_requires(get_successors, (n,)),
                forall|d: CurrentNodeDetails<TNode, TNumber>| call_requires(
                    distance_function,
                    (d,),
                ),
                forall|n: &TNode| call_requires(is_at_end_function, (n,)),
                node_list.history().len() >= 1,
                node_list.history().last() == parent_rec,
                ri <= next_parents@.len(),
                forall|k: int|
                    0 <= k < next_parents@.len() ==> {
                        &&& (#[trigger] next_parents@[k]).parent == Some(parent_rec.id_of())
                        &&& rejected(is_at_end_function, next_parents@[k].node)
                        &&& exists|c: TNumber|
                            #[trigger] can_step(
                                get_successors,
                                parent_rec.node,
                                next_parents@[k].node,
                                c,
                            ) && next_parents@[k].current_accrued_cost
                                == parent_rec.current_accrued_cost.plus_spec(c)
                    },
                forall|k: int|
                    0 <= k < scoring_results@.len() ==> {
                        &&& parent_link_ok(
                            get_successors,
                            start_spec,
                            node_list.history(),
                            #[trigger] scoring_results@[k],
                        )
                        &&& accepts(is_at_end_function, scoring_results@[k].node)
                        &&& scoring_results@[k].current_accrued_cost.le_spec(max_score)
                        &&& scoring_results@[k].parent is Some
                    },
            decreases next_parents@.len() - ri,
        {
            let rec = &next_parents[ri];
            let details = NodeDetails {
                node: rec.node.clone_node(),
                current_accrued_cost: rec.current_accrued_cost,
                estimated_cost_to_goal: rec.estimated_cost_to_goal,
                parent: rec.parent,
            };
            let ghost pre_insert = node_list;
            proof {
                let hist = node_list.history();
                let j = hist.len() - 1;
                assert(hist[j].id_of() == parent_rec.id_of());
                assert(models::has_id(hist, parent_rec.id_of()));
                assert(record_ok(get_successors, is_at_end_function, start_spec, hist, details));
            }
            node_list.try_insert_successor(details);
            proof {
                lemma_nl_ok_after_insert(
                    get_successors,
                    is_at_end_function,
                    start_spec,
                    pre_insert,
                    node_list,
                    details,
                );
            }
            ri += 1;
        }
        i += 1;
    }

    Err(Error::IterLimitExceeded)
}

} // verus!
