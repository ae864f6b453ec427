use vstd::prelude::*;
use crate::catalog::{ColumnCatalog, ColumnV};
use crate::expression::{ExprV, ScalarExpression, clone_exprs, cols_view, exprs_view, unpack_alias_v};
use crate::pattern::{OperatorPredicate, Pattern, PatternChildrenPredicate};
use crate::planner::{
    LogicalPlan, Operator, ProjectOperator, ScanOperator, op_agg_map_cols, op_input_refs, op_ref_cols,
};
use crate::types::ColumnId;
use std::collections::HashSet;

verus! {

broadcast use {vstd::seq::group_seq_axioms, vstd::std_specs::hash::group_hash_axioms, vstd::std_specs::hash::axiom_random_state_builds_valid_hashers};

/// The projected expressions that a scan can take over: those that are a
/// column reference once one alias is taken off.
pub open spec fn scan_cols(cols: Seq<ExprV>) -> Seq<ExprV>
    decreases cols.len(),
{
    if cols.len() == 0 {
        Seq::empty()
    } else if unpack_alias_v(cols.last()) is ColumnRef {
        scan_cols(cols.drop_last()).push(cols.last())
    } else {
        scan_cols(cols.drop_last())
    }
}

pub open spec fn col_ids(s: Seq<ColumnV>) -> Seq<ColumnId> {
    Seq::new(s.len(), |i: int| s[i].id)
}

/// The columns of `s` whose id is in `ids`, each id once, first occurrence kept.
pub open spec fn pruned(s: Seq<ColumnV>, ids: Seq<ColumnId>) -> Seq<ColumnV>
    decreases s.len(),
{
    if s.len() == 0 {
        Seq::empty()
    } else if ids.contains(s.last().id) && !col_ids(s.drop_last()).contains(s.last().id) {
        pruned(s.drop_last(), ids).push(s.last())
    } else {
        pruned(s.drop_last(), ids)
    }
}

/// Column pruning keeps only what the input provides and all that is read
/// above: each kept column is one of the input's, and each input column
/// whose id is needed is kept under that id.
pub proof fn lemma_pruned_bounds(s: Seq<ColumnV>, ids: Seq<ColumnId>)
    ensures
        forall|k: int| 0 <= k < pruned(s, ids).len() ==> s.contains(#[trigger] pruned(s, ids)[k]),
        forall|k: int| 0 <= k < pruned(s, ids).len() ==> ids.contains(#[trigger] pruned(s, ids)[k].id),
        forall|j: int|
            0 <= j < s.len() && ids.contains(#[trigger] s[j].id) ==> col_ids(pruned(s, ids)).contains(s[j].id),
    decreases s.len(),
{
    if s.len() > 0 {
        let t = s.drop_last();
        lemma_pruned_bounds(t, ids);
        let p = pruned(s, ids);
        let q = pruned(t, ids);
        assert forall|k: int| 0 <= k < p.len() implies s.contains(#[trigger] p[k]) && ids.contains(p[k].id) by {
            if k < q.len() {
                assert(p[k] == q[k]);
                let w = choose|w: int| 0 <= w < t.len() && t[w] == q[k];
                assert(s[w] == p[k]);
            } else {
                assert(p[k] == s.last());
                assert(s[s.len() - 1] == p[k]);
            }
        }
        assert forall|j: int| 0 <= j < s.len() && ids.contains(#[trigger] s[j].id) implies col_ids(p).contains(s[j].id) by {
            if j < t.len() {
                assert(t[j] == s[j]);
                assert(col_ids(q).contains(t[j].id));
                let w = choose|w: int| 0 <= w < col_ids(q).len() && col_ids(q)[w] == t[j].id;
                assert(col_ids(p)[w] == col_ids(q)[w]);
            } else if col_ids(t).contains(s.last().id) {
                let w = choose|w: int| 0 <= w < col_ids(t).len() && col_ids(t)[w] == s.last().id;
                assert(ids.contains(t[w].id));
                assert(col_ids(q).contains(t[w].id));
                let v = choose|v: int| 0 <= v < col_ids(q).len() && col_ids(q)[v] == t[w].id;
                assert(col_ids(p)[v] == col_ids(q)[v]);
            } else {
                assert(col_ids(p)[p.len() - 1] == s.last().id);
            }
        }
    }
}

pub open spec fn col_ref_exprs(s: Seq<ColumnV>) -> Seq<ExprV> {
    Seq::new(s.len(), |i: int| ExprV::ColumnRef(s[i]))
}

/// The columns that a projection over `child` needs from `child`'s inputs.
pub open spec fn needed_ids(project: Operator, child: Operator) -> Seq<ColumnId> {
    let input_refs = op_input_refs(project);
    let node_cols = if child is Aggregate && input_refs.len() > 0 {
        op_ref_cols(project) + op_agg_map_cols(child, input_refs)
    } else {
        op_ref_cols(project)
    };
    col_ids(op_ref_cols(child) + node_cols)
}

/// The columns of the projection put between `child` and its input `grand`.
pub open spec fn pushed_cols(project: Operator, child: Operator, grand: Operator) -> Seq<ExprV> {
    let input_refs = op_input_refs(project);
    let cols = col_ref_exprs(pruned(op_ref_cols(grand), needed_ids(project, child)));
    if !(child is Aggregate) && input_refs.len() > 0 {
        input_refs + cols
    } else {
        cols
    }
}

/// How the input `g` of the pushed-through operator looks afterwards (`g2`).
pub open spec fn pushed_below(project: Operator, child: Operator, g: LogicalPlan, g2: LogicalPlan) -> bool {
    let cols = pushed_cols(project, child, g.operator);
    if cols.len() == 0 {
        g2 == g
    } else {
        &&& g2.operator matches Operator::Project(p) && exprs_view(p.columns@) == cols
        &&& g2.childrens@ == seq![g]
    }
}

/// Whether the rule that pushes a projection through its input acts on `plan`.
pub open spec fn through_child_acts(plan: LogicalPlan) -> bool {
    plan.operator is Project && plan.childrens@.len() > 0
}

/// What folding a projection into the scan below it gives.
pub open spec fn into_scan_result(plan: LogicalPlan, r: LogicalPlan) -> bool {
    &&& (plan.operator is Project && plan.childrens@.len() > 0 && plan.childrens@[0].operator is Scan) ==> {
                &&& r.operator matches Operator::Scan(s) && plan.childrens@[0].operator matches Operator::Scan(s0)
                    && plan.operator matches Operator::Project(p) && s.table_name@ == s0.table_name@
                    && exprs_view(s.columns@) == scan_cols(exprs_view(p.columns@))
                &&& r.childrens == plan.childrens@[0].childrens
            }
    &&& !(plan.operator is Project && plan.childrens@.len() > 0 && plan.childrens@[0].operator is Scan) ==> r
                == plan
}

/// What pushing a projection below its input gives.
pub open spec fn through_child_result(plan: LogicalPlan, r: LogicalPlan) -> bool {
    &&& !through_child_acts(plan) ==> r == plan
    &&& through_child_acts(plan) ==> {
                let child = plan.childrens@[0];
                &&& r.operator == plan.operator
                &&& r.childrens@.len() == plan.childrens@.len()
                &&& forall|i: int| 1 <= i < r.childrens@.len() ==> r.childrens@[i] == plan.childrens@[i]
                &&& r.childrens@[0].operator == child.operator
                &&& r.childrens@[0].childrens@.len() == child.childrens@.len()
                &&& forall|i: int|
                    0 <= i < child.childrens@.len() ==> pushed_below(
                        plan.operator,
                        child.operator,
                        child.childrens@[i],
                        #[trigger] r.childrens@[0].childrens@[i],
                    )
            }
}

/// A projection directly over a scan folds into the scan.
#[derive(Clone, Copy)]
pub struct PushProjectIntoScan;

/// A projection over another operator pushes a projection below that operator.
#[derive(Clone, Copy)]
pub struct PushProjectThroughChild;

/// Adds the ids of `cols` to `ids`.
fn push_ids(ids: &mut HashSet<ColumnId>, cols: &Vec<ColumnCatalog>)
    ensures
        forall|id: ColumnId| #[trigger] final(ids)@.contains(id) <==> old(ids)@.contains(id) || col_ids(cols_view(cols@)).contains(id),
{
    let mut i: usize = 0;
    while i < cols.len()
        invariant
            0 <= i <= cols@.len(),
            vstd::std_specs::hash::builds_valid_hashers::<std::hash::RandomState>(),
            forall|id: ColumnId| #[trigger] ids@.contains(id) <==> old(ids)@.contains(id) || col_ids(cols_view(cols@.take(i as int))).contains(id),
        decreases cols@.len() - i,
    {
        let ghost before = col_ids(cols_view(cols@.take(i as int)));
        assert(col_ids(cols_view(cols@.take(i as int + 1))) =~= before.push(cols@[i as int].id));
        ids.insert(cols[i].id);
        assert forall|id: ColumnId| #[trigger] ids@.contains(id) <==> old(ids)@.contains(id) || col_ids(cols_view(cols@.take(i as int + 1))).contains(id) by {
            let now = col_ids(cols_view(cols@.take(i as int + 1)));
            if before.contains(id) {
                let w = choose|w: int| 0 <= w < before.len() && before[w] == id;
                assert(now[w] == id);
            }
            if now.contains(id) && id != cols@[i as int].id {
                let w = choose|w: int| 0 <= w < now.len() && now[w] == id;
                assert(before[w] == id);
            }
            if id == cols@[i as int].id {
                assert(now[i as int] == id);
            }
        }
        i = i + 1;
    }
    assert(cols@.take(cols@.len() as int) =~= cols@);
}

/// Column references to the columns of `cols` that `pruned` keeps.
fn pruned_refs(cols: &Vec<ColumnCatalog>, ids: &HashSet<ColumnId>, Ghost(id_seq): Ghost<Seq<ColumnId>>) -> (r: Vec<
    ScalarExpression,
>)
    requires
        forall|id: ColumnId| #[trigger] ids@.contains(id) <==> id_seq.contains(id),
    ensures
        exprs_view(r@) == col_ref_exprs(pruned(cols_view(cols@), id_seq)),
{
    let mut r: Vec<ScalarExpression> = Vec::new();
    let mut i: usize = 0;
    while i < cols.len()
        invariant
            0 <= i <= cols@.len(),
            exprs_view(r@) == col_ref_exprs(pruned(cols_view(cols@.take(i as int)), id_seq)),
            forall|id: ColumnId| #[trigger] ids@.contains(id) <==> id_seq.contains(id),
        decreases cols@.len() - i,
    {
        let ghost s = cols_view(cols@.take(i as int + 1));
        assert(s.drop_last() =~= cols_view(cols@.take(i as int)));
        let id = cols[i].id;
        let mut seen = false;
        let mut k: usize = 0;
        while k < i
            invariant
                0 <= k <= i < cols@.len(),
                id == cols@[i as int].id,
                seen == (exists|k2: int| 0 <= k2 < k && cols@[k2].id == id),
            decreases i - k,
        {
            if cols[k].id == id {
                seen = true;
            }
            k = k + 1;
        }
        proof {
            if seen {
                let k2 = choose|k2: int| 0 <= k2 < i && cols@[k2].id == id;
                assert(col_ids(s.drop_last())[k2] == id);
            }
            if col_ids(s.drop_last()).contains(id) {
                let k2 = choose|k2: int| 0 <= k2 < col_ids(s.drop_last()).len() && col_ids(s.drop_last())[k2] == id;
                assert(cols@[k2].id == id);
            }
        }
        if ids.contains(&id) && !seen {
            let ghost r0 = r@;
            r.push(ScalarExpression::ColumnRef(cols[i].clone()));
            assert(exprs_view(r@) =~= exprs_view(r0).push(ExprV::ColumnRef(cols@[i as int]@)));
            assert(col_ref_exprs(pruned(s, id_seq)) =~= col_ref_exprs(pruned(s.drop_last(), id_seq)).push(
                ExprV::ColumnRef(cols@[i as int]@),
            ));
        }
        i = i + 1;
    }
    assert(cols@.take(cols@.len() as int) =~= cols@);
    r
}

impl PushProjectIntoScan {
    /// A projection whose one input is a scan.
    pub fn pattern(&self) -> (r: Pattern)
        ensures
            r.predicate == OperatorPredicate::IsProject,
            r.children matches PatternChildrenPredicate::Predicate(ps) && ps@.len() == 1
                && ps@[0].predicate == OperatorPredicate::IsScan && ps@[0].children is Opaque,
    {
        Pattern {
            predicate: OperatorPredicate::IsProject,
            children: PatternChildrenPredicate::Predicate(
                vec![Pattern { predicate: OperatorPredicate::IsScan, children: PatternChildrenPredicate::Opaque }],
            ),
        }
    }

    /// Folds a projection over a scan into the scan: the scan keeps the
    /// projected column references and the projection goes away.
    pub fn apply(&self, plan: LogicalPlan) -> (r: LogicalPlan)
        ensures
            into_scan_result(plan, r),
    {
        let LogicalPlan { operator, childrens } = plan;
        if let Operator::Project(p) = &operator {
            if childrens.len() > 0 {
                if let Operator::Scan(_) = &childrens[0].operator {
                    let mut childrens = childrens;
                    let child = childrens.remove(0);
                    let LogicalPlan { operator: child_op, childrens: grand } = child;
                    if let Operator::Scan(s) = child_op {
                        let mut columns: Vec<ScalarExpression> = Vec::new();
                        let mut i: usize = 0;
                        while i < p.columns.len()
                            invariant
                                0 <= i <= p.columns@.len(),
                                exprs_view(columns@) == scan_cols(exprs_view(p.columns@.take(i as int))),
                            decreases p.columns@.len() - i,
                        {
                            assert(exprs_view(p.columns@.take(i as int + 1)).drop_last() =~= exprs_view(
                                p.columns@.take(i as int),
                            ));
                            if let ScalarExpression::ColumnRef(_) = p.columns[i].unpack_alias() {
                                let ghost r0 = columns@;
                                columns.push(p.columns[i].clone());
                                assert(exprs_view(columns@) =~= exprs_view(r0).push(p.columns@[i as int]@));
                            }
                            i = i + 1;
                        }
                        assert(p.columns@.take(p.columns@.len() as int) =~= p.columns@);
                        return LogicalPlan {
                            operator: Operator::Scan(ScanOperator { table_name: s.table_name, columns }),
                            childrens: grand,
                        };
                    }
                    return LogicalPlan { operator: child_op, childrens: grand };
                }
            }
        }
        LogicalPlan { operator, childrens }
    }
}

impl PushProjectThroughChild {
    /// A projection over an operator that is neither a scan nor a
    /// projection, whose inputs are not projections.
    pub fn pattern(&self) -> (r: Pattern)
        ensures
            r.predicate == OperatorPredicate::IsProject,
            r.children matches PatternChildrenPredicate::Predicate(ps) && ps@.len() == 1
                && ps@[0].predicate == OperatorPredicate::NotScanNorProject && (ps@[0].children matches PatternChildrenPredicate::Predicate(qs)
                && qs@.len() == 1 && qs@[0].predicate == OperatorPredicate::NotProject && qs@[0].children is Opaque),
    {
        Pattern {
            predicate: OperatorPredicate::IsProject,
            children: PatternChildrenPredicate::Predicate(
                vec![
                    Pattern {
                        predicate: OperatorPredicate::NotScanNorProject,
                        children: PatternChildrenPredicate::Predicate(
                            vec![
                                Pattern {
                                    predicate: OperatorPredicate::NotProject,
                                    children: PatternChildrenPredicate::Opaque,
                                },
                            ],
                        ),
                    },
                ],
            ),
        }
    }

    /// Puts a projection between the projection's input and each of that
    /// input's own inputs, keeping only the columns that are read above.
    pub fn apply(&self, plan: LogicalPlan) -> (r: LogicalPlan)
        ensures
            through_child_result(plan, r),
    {
        let LogicalPlan { operator, childrens } = plan;
        if !matches!(operator, Operator::Project(_)) || childrens.len() == 0 {
            return LogicalPlan { operator, childrens };
        }
        let input_refs = operator.project_input_refs();
        let mut node_cols = operator.referenced_columns();
        let is_agg = matches!(childrens[0].operator, Operator::Aggregate(_));
        if is_agg && input_refs.len() > 0 {
            let more = childrens[0].operator.agg_mapping_col_refs(&input_refs);
            let ghost n0 = node_cols@;
            node_cols.append(&mut { more });
            assert(cols_view(node_cols@) =~= cols_view(n0) + op_agg_map_cols(childrens@[0].operator, exprs_view(input_refs@)));
        }
        let mut ids: HashSet<ColumnId> = HashSet::new();
        let ghost id_seq = needed_ids(operator, childrens@[0].operator);
        let child_cols = childrens[0].operator.referenced_columns();
        push_ids(&mut ids, &child_cols);
        push_ids(&mut ids, &node_cols);
        proof {
            assert(cols_view(child_cols@ + node_cols@) =~= cols_view(child_cols@) + cols_view(node_cols@));
            assert(cols_view(child_cols@) + cols_view(node_cols@) =~= cols_view(child_cols@ + node_cols@));
            assert forall|id: ColumnId| #[trigger] ids@.contains(id) <==> id_seq.contains(id) by {
                let a = col_ids(cols_view(child_cols@));
                let b = col_ids(cols_view(node_cols@));
                assert(id_seq =~= a + b);
                if a.contains(id) {
                    let w = choose|w: int| 0 <= w < a.len() && a[w] == id;
                    assert(id_seq[w] == id);
                }
                if b.contains(id) {
                    let w = choose|w: int| 0 <= w < b.len() && b[w] == id;
                    assert(id_seq[a.len() + w] == id);
                }
                if id_seq.contains(id) {
                    let w = choose|w: int| 0 <= w < id_seq.len() && id_seq[w] == id;
                    if w < a.len() {
                        assert(a[w] == id);
                    } else {
                        assert(b[w - a.len()] == id);
                    }
                }
            }
        }
        let ghost c0 = childrens@;
        let mut childrens = childrens;
        let child = childrens.remove(0);
        let LogicalPlan { operator: child_op, childrens: grands } = child;
        let ghost g0 = grands@;
        let mut grands = grands;
        let mut new_grands: Vec<LogicalPlan> = Vec::new();
        while grands.len() > 0
            invariant
                new_grands@.len() + grands@.len() == g0.len(),
                grands@ == g0.subrange(new_grands@.len() as int, g0.len() as int),
                is_agg == (child_op is Aggregate),
                exprs_view(input_refs@) == op_input_refs(operator),
                id_seq == needed_ids(operator, child_op),
                forall|id: ColumnId| #[trigger] ids@.contains(id) <==> id_seq.contains(id),
                forall|i: int|
                    0 <= i < new_grands@.len() ==> pushed_below(operator, child_op, g0[i], #[trigger] new_grands@[i]),
            decreases grands@.len(),
        {
            let g = grands.remove(0);
            let ghost k = new_grands@.len() as int;
            assert(g == g0[k]);
            let refs = g.operator.referenced_columns();
            let cols = pruned_refs(&refs, &ids, Ghost(id_seq));
            let mut columns: Vec<ScalarExpression> = Vec::new();
            if !is_agg && input_refs.len() > 0 {
                columns = clone_exprs(&input_refs);
            }
            let ghost c1 = columns@;
            columns.append(&mut { cols });
            assert(exprs_view(columns@) =~= exprs_view(c1) + col_ref_exprs(pruned(cols_view(refs@), id_seq)));
            assert(exprs_view(columns@) =~= pushed_cols(operator, child_op, g.operator));
            if columns.len() > 0 {
                let mut one: Vec<LogicalPlan> = Vec::new();
                one.push(g);
                new_grands.push(LogicalPlan { operator: Operator::Project(ProjectOperator { columns }), childrens: one });
            } else {
                new_grands.push(g);
            }
            assert(grands@ =~= g0.subrange(new_grands@.len() as int, g0.len() as int));
        }
        childrens.insert(0, LogicalPlan { operator: child_op, childrens: new_grands });
        assert(forall|i: int| 1 <= i < childrens@.len() ==> childrens@[i] == c0[i]);
        LogicalPlan { operator, childrens }
    }
}

}
