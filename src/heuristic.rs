use vstd::prelude::*;
use crate::column_pruning::{PushProjectIntoScan, PushProjectThroughChild, into_scan_result, scan_cols, through_child_result};
use crate::expression::{ExprV, expr_type, exprs_view, unpack_alias_v};
use crate::pattern::{
    OperatorPredicate, Pattern, PatternChildrenPredicate, children_match, match_pattern, pattern_matches, patterns_match,
};
use crate::planner::{LogicalPlan, Operator};
use crate::types::LogicalType;

verus! {

broadcast use vstd::seq::group_seq_axioms;

/// The rules the heuristic optimizer knows.
#[derive(Clone, Copy, Debug, PartialEq, Eq, Structural)]
pub enum RuleImpl {
    PushProjectThroughChild,
    PushProjectIntoScan,
}

/// How often a batch runs over the plan: at most `max_iteration` top-down
/// passes, stopping early after a pass in which no rule applied.
#[derive(Clone, Copy, Debug, PartialEq, Eq, Structural)]
pub struct HepBatchStrategy {
    pub max_iteration: usize,
}

impl HepBatchStrategy {
    pub fn once_topdown() -> (r: HepBatchStrategy)
        ensures
            r.max_iteration == 1,
    {
        HepBatchStrategy { max_iteration: 1 }
    }

    pub fn fix_point_topdown(max_iteration: usize) -> (r: HepBatchStrategy)
        ensures
            r.max_iteration == max_iteration,
    {
        HepBatchStrategy { max_iteration }
    }
}

pub struct HepBatch {
    pub name: String,
    pub strategy: HepBatchStrategy,
    pub rules: Vec<RuleImpl>,
}

/// The columns at the head of a plan: those of a projection or of a scan.
pub open spec fn head_cols(plan: LogicalPlan) -> Option<Seq<ExprV>> {
    match plan.operator {
        Operator::Project(p) => Some(exprs_view(p.columns@)),
        Operator::Scan(s) => Some(exprs_view(s.columns@)),
        _ => None,
    }
}

pub open spec fn all_column_refs(cols: Seq<ExprV>) -> bool {
    forall|i: int| 0 <= i < cols.len() ==> (#[trigger] unpack_alias_v(cols[i])) is ColumnRef
}

/// The plan is headed by a projection or a scan of column references only.
pub open spec fn headed_by_column_refs(plan: LogicalPlan) -> bool {
    head_cols(plan) matches Some(cols) && all_column_refs(cols)
}

/// The plan is headed by a projection over an operator that is neither a
/// scan nor a projection.
pub open spec fn headed_over_inner(plan: LogicalPlan) -> bool {
    &&& plan.operator is Project
    &&& plan.childrens@.len() > 0
    &&& !(plan.childrens@[0].operator is Scan)
    &&& !(plan.childrens@[0].operator is Project)
}

/// What each rewrite keeps of the head of the plan.
pub open spec fn head_kept(plan: LogicalPlan, r: LogicalPlan) -> bool {
    &&& !(plan.operator is Project) ==> r.operator == plan.operator
    &&& headed_by_column_refs(plan) ==> headed_by_column_refs(r) && head_cols(r) == head_cols(plan)
    &&& headed_over_inner(plan) ==> headed_over_inner(r) && r.operator == plan.operator
}

pub open spec fn types_of(cols: Seq<ExprV>) -> Seq<LogicalType> {
    Seq::new(cols.len(), |i: int| expr_type(cols[i]))
}

/// The column types a plan outputs, in order.
pub open spec fn plan_schema(plan: LogicalPlan) -> Seq<LogicalType>
    decreases plan,
{
    match plan.operator {
        Operator::Project(p) => types_of(exprs_view(p.columns@)),
        Operator::Scan(s) => types_of(exprs_view(s.columns@)),
        Operator::Aggregate(a) => types_of(exprs_view(a.agg_calls@) + exprs_view(a.groupby_exprs@)),
        Operator::Filter(_) | Operator::Sort(_) | Operator::Limit(_) => if plan.childrens@.len() > 0 {
            plan_schema(plan.childrens@[0])
        } else {
            Seq::empty()
        },
        Operator::Join(_) => if plan.childrens@.len() > 1 {
            plan_schema(plan.childrens@[0]) + plan_schema(plan.childrens@[1])
        } else {
            Seq::empty()
        },
        _ => Seq::empty(),
    }
}

proof fn lemma_scan_cols_all_refs(cols: Seq<ExprV>)
    requires
        all_column_refs(cols),
    ensures
        scan_cols(cols) == cols,
    decreases cols.len(),
{
    if cols.len() > 0 {
        assert(all_column_refs(cols.drop_last()));
        lemma_scan_cols_all_refs(cols.drop_last());
        assert(unpack_alias_v(cols[cols.len() - 1]) is ColumnRef);
        assert(cols.drop_last().push(cols.last()) =~= cols);
    }
}

proof fn lemma_head_kept_trans(a: LogicalPlan, b: LogicalPlan, c: LogicalPlan)
    requires
        head_kept(a, b),
        head_kept(b, c),
    ensures
        head_kept(a, c),
{
}

/// An operator that passes its first input's columns through.
pub open spec fn passes_through(op: Operator) -> bool {
    op is Limit || op is Sort || op is Filter
}

/// What a rewrite keeps of the plan's head, and, below operators that pass
/// their input's columns through, of that input.
pub open spec fn kept(plan: LogicalPlan, r: LogicalPlan) -> bool
    decreases plan,
{
    &&& head_kept(plan, r)
    &&& (passes_through(plan.operator) || plan.operator is Join) ==> r.childrens@.len() == plan.childrens@.len()
    &&& (passes_through(plan.operator) || plan.operator is Join) && plan.childrens@.len() > 0 ==> kept(
        plan.childrens@[0],
        r.childrens@[0],
    )
    &&& plan.operator is Join && plan.childrens@.len() > 1 ==> kept(plan.childrens@[1], r.childrens@[1])
}

/// Plans whose output column types every rewrite keeps.
pub open spec fn schema_stable(plan: LogicalPlan) -> bool
    decreases plan,
{
    ||| headed_by_column_refs(plan)
    ||| headed_over_inner(plan)
    ||| plan.operator is Scan || plan.operator is Aggregate || plan.operator is Dummy || plan.operator is Insert
    ||| passes_through(plan.operator) && (plan.childrens@.len() == 0 || schema_stable(plan.childrens@[0]))
    ||| plan.operator is Join && (plan.childrens@.len() <= 1 || schema_stable(plan.childrens@[0]) && schema_stable(
        plan.childrens@[1],
    ))
}

proof fn lemma_kept_refl(p: LogicalPlan)
    ensures
        kept(p, p),
    decreases p,
{
    if (passes_through(p.operator) || p.operator is Join) && p.childrens@.len() > 0 {
        lemma_kept_refl(p.childrens@[0]);
    }
    if p.operator is Join && p.childrens@.len() > 1 {
        lemma_kept_refl(p.childrens@[1]);
    }
}

proof fn lemma_kept_trans(a: LogicalPlan, b: LogicalPlan, c: LogicalPlan)
    requires
        kept(a, b),
        kept(b, c),
    ensures
        kept(a, c),
    decreases a,
{
    lemma_head_kept_trans(a, b, c);
    if (passes_through(a.operator) || a.operator is Join) && a.childrens@.len() > 0 {
        lemma_kept_trans(a.childrens@[0], b.childrens@[0], c.childrens@[0]);
    }
    if a.operator is Join && a.childrens@.len() > 1 {
        lemma_kept_trans(a.childrens@[1], b.childrens@[1], c.childrens@[1]);
    }
}

proof fn lemma_kept_schema(p: LogicalPlan, r: LogicalPlan)
    requires
        schema_stable(p),
        kept(p, r),
    ensures
        schema_stable(r),
        plan_schema(r) == plan_schema(p),
    decreases p,
{
    if headed_by_column_refs(p) {
        assert(plan_schema(r) =~= plan_schema(p));
    } else if headed_over_inner(p) {
    } else if p.operator is Scan || p.operator is Aggregate || p.operator is Dummy || p.operator is Insert {
    } else if passes_through(p.operator) {
        if p.childrens@.len() > 0 {
            lemma_kept_schema(p.childrens@[0], r.childrens@[0]);
        }
    } else if p.childrens@.len() > 1 {
        lemma_kept_schema(p.childrens@[0], r.childrens@[0]);
        lemma_kept_schema(p.childrens@[1], r.childrens@[1]);
    }
}

/// A batch that runs at least one pass with the rule folding projections into scans.
pub open spec fn folds(b: HepBatch) -> bool {
    b.strategy.max_iteration >= 1 && b.rules@.contains(RuleImpl::PushProjectIntoScan)
}

/// A projection over exactly one input, a scan.
pub open spec fn fold_pre(p: LogicalPlan) -> bool {
    p.operator is Project && p.childrens@.len() == 1 && p.childrens@[0].operator is Scan
}

/// `r` is headed by the scan that the projection heading `start` folded into.
pub open spec fn folded_head(start: LogicalPlan, r: LogicalPlan) -> bool {
    &&& r.operator matches Operator::Scan(s) && start.childrens@[0].operator matches Operator::Scan(s0)
        && start.operator matches Operator::Project(pr) && s.table_name@ == s0.table_name@ && exprs_view(s.columns@)
        == scan_cols(exprs_view(pr.columns@))
    &&& r.childrens@.len() == start.childrens@[0].childrens@.len()
}

/// `r` still has the projection and scan that head `start`.
pub open spec fn same_head(start: LogicalPlan, r: LogicalPlan) -> bool {
    &&& fold_pre(r)
    &&& r.operator == start.operator
    &&& r.childrens@[0].operator == start.childrens@[0].operator
    &&& r.childrens@[0].childrens@.len() == start.childrens@[0].childrens@.len()
}

proof fn lemma_through_no_match(pat: Pattern, p: LogicalPlan)
    requires
        fold_pre(p),
        pat.children matches PatternChildrenPredicate::Predicate(ps) && ps@.len() == 1
            && ps@[0].predicate == OperatorPredicate::NotScanNorProject,
    ensures
        !pattern_matches(pat, p),
{
    if let PatternChildrenPredicate::Predicate(ps) = pat.children {
        let cs = p.childrens@;
        assert(cs.drop_last() =~= Seq::<LogicalPlan>::empty());
        assert(ps@.drop_last() =~= Seq::<Pattern>::empty());
        assert(!pattern_matches(ps@[0], cs[0]));
        assert(!patterns_match(ps@, cs.last()));
        assert(!children_match(ps@, cs));
    }
}

proof fn lemma_into_match(pat: Pattern, p: LogicalPlan)
    requires
        fold_pre(p),
        pat.predicate == OperatorPredicate::IsProject,
        pat.children matches PatternChildrenPredicate::Predicate(ps) && ps@.len() == 1
            && ps@[0].predicate == OperatorPredicate::IsScan && ps@[0].children is Opaque,
    ensures
        pattern_matches(pat, p),
{
    if let PatternChildrenPredicate::Predicate(ps) = pat.children {
        let cs = p.childrens@;
        assert(cs.drop_last() =~= Seq::<LogicalPlan>::empty());
        assert(ps@.drop_last() =~= Seq::<Pattern>::empty());
        assert(pattern_matches(ps@[0], cs[0]));
        assert(patterns_match(ps@.drop_last(), cs[0]));
        assert(ps@.last() == ps@[0] && cs.last() == cs[0]);
        assert(patterns_match(ps@, cs.last()));
        assert(children_match(ps@, cs.drop_last()));
        assert(children_match(ps@, cs));
    }
}

impl RuleImpl {
    pub fn pattern(&self) -> (r: Pattern)
        ensures
            r.predicate == OperatorPredicate::IsProject,
            *self is PushProjectIntoScan ==> (r.children matches PatternChildrenPredicate::Predicate(ps) && ps@.len() == 1
                && ps@[0].predicate == OperatorPredicate::IsScan && ps@[0].children is Opaque),
            *self is PushProjectThroughChild ==> (r.children matches PatternChildrenPredicate::Predicate(ps) && ps@.len()
                == 1 && ps@[0].predicate == OperatorPredicate::NotScanNorProject),
    {
        match self {
            RuleImpl::PushProjectThroughChild => PushProjectThroughChild.pattern(),
            RuleImpl::PushProjectIntoScan => PushProjectIntoScan.pattern(),
        }
    }

    pub fn apply(&self, plan: LogicalPlan) -> (r: LogicalPlan)
        ensures
            *self is PushProjectThroughChild ==> through_child_result(plan, r),
            *self is PushProjectIntoScan ==> into_scan_result(plan, r),
            head_kept(plan, r),
            !(plan.operator is Project) ==> r == plan,
    {
        match self {
            RuleImpl::PushProjectThroughChild => PushProjectThroughChild.apply(plan),
            RuleImpl::PushProjectIntoScan => {
                let ghost start = plan;
                let r = PushProjectIntoScan.apply(plan);
                proof {
                    if headed_by_column_refs(start) && start.childrens@.len() > 0 && start.childrens@[0].operator is Scan {
                        if let Operator::Project(p) = start.operator {
                            lemma_scan_cols_all_refs(exprs_view(p.columns@));
                        }
                    }
                }
                r
            },
        }
    }
}

/// Tries each rule in order at the head of `plan`; returns the rewritten
/// plan and whether any rule applied.
fn apply_rules_at(plan: LogicalPlan, rules: &Vec<RuleImpl>) -> (r: (LogicalPlan, bool))
    ensures
        kept(plan, r.0),
        !(plan.operator is Project) ==> r.0 == plan,
        fold_pre(plan) && rules@.contains(RuleImpl::PushProjectIntoScan) ==> folded_head(plan, r.0),
        fold_pre(plan) && !rules@.contains(RuleImpl::PushProjectIntoScan) ==> r.0 == plan,
{
    let mut plan = plan;
    let ghost start = plan;
    let mut applied = false;
    let mut i: usize = 0;
    while i < rules.len()
        invariant
            0 <= i <= rules@.len(),
            head_kept(start, plan),
            !(start.operator is Project) ==> plan == start,
            fold_pre(start) ==> (plan == start && !rules@.take(i as int).contains(RuleImpl::PushProjectIntoScan))
                || (folded_head(start, plan) && !(plan.operator is Project) && rules@.take(i as int).contains(
                RuleImpl::PushProjectIntoScan,
            )),
        decreases rules@.len() - i,
    {
        let pattern = rules[i].pattern();
        proof {
            assert(rules@.take(i as int + 1) =~= rules@.take(i as int).push(rules@[i as int]));
            if fold_pre(start) && plan == start {
                if rules@[i as int] is PushProjectThroughChild {
                    lemma_through_no_match(pattern, plan);
                } else {
                    lemma_into_match(pattern, plan);
                }
            }
            if rules@.take(i as int).contains(RuleImpl::PushProjectIntoScan) {
                let w = choose|w: int| 0 <= w < rules@.take(i as int).len() && rules@.take(i as int)[w] == RuleImpl::PushProjectIntoScan;
                assert(rules@.take(i as int + 1)[w] == RuleImpl::PushProjectIntoScan);
            }
            if rules@[i as int] is PushProjectIntoScan {
                assert(rules@.take(i as int + 1)[i as int] == RuleImpl::PushProjectIntoScan);
            }
        }
        if match_pattern(&pattern, &plan) {
            let ghost before = plan;
            plan = rules[i].apply(plan);
            proof {
                lemma_head_kept_trans(start, before, plan);
            }
            applied = true;
        }
        i = i + 1;
    }
    proof {
        if !(start.operator is Project) {
            lemma_kept_refl(start);
        }
        assert(rules@.take(rules@.len() as int) =~= rules@);
    }
    (plan, applied)
}

/// One top-down pass: the rules at the head, then a pass over each input
/// of what came out, down to `depth` levels.
fn optimize_node(plan: LogicalPlan, rules: &Vec<RuleImpl>, depth: usize) -> (r: (LogicalPlan, bool))
    ensures
        kept(plan, r.0),
        !(plan.operator is Project) ==> r.0.operator == plan.operator && r.0.childrens@.len() == plan.childrens@.len(),
        fold_pre(plan) && rules@.contains(RuleImpl::PushProjectIntoScan) ==> folded_head(plan, r.0),
        fold_pre(plan) && !rules@.contains(RuleImpl::PushProjectIntoScan) ==> same_head(plan, r.0),
    decreases depth,
{
    let (p, applied) = apply_rules_at(plan, rules);
    if depth == 0 {
        return (p, applied);
    }
    let mut applied = applied;
    let ghost head = p;
    let LogicalPlan { operator, childrens } = p;
    let ghost c0 = childrens@;
    let mut rest = childrens;
    let mut done: Vec<LogicalPlan> = Vec::new();
    while rest.len() > 0
        invariant
            done@.len() + rest@.len() == c0.len(),
            rest@ == c0.subrange(done@.len() as int, c0.len() as int),
            forall|i: int| 0 <= i < done@.len() ==> kept(c0[i], #[trigger] done@[i]),
            forall|i: int|
                0 <= i < done@.len() && !(c0[i].operator is Project) ==> (#[trigger] done@[i]).operator == c0[i].operator
                    && done@[i].childrens@.len() == c0[i].childrens@.len(),
            depth > 0,
        decreases rest@.len(),
    {
        let c = rest.remove(0);
        let ghost k = done@.len() as int;
        assert(c == c0[k]);
        let (c2, a) = optimize_node(c, rules, depth - 1);
        applied = applied || a;
        done.push(c2);
        assert(rest@ =~= c0.subrange(done@.len() as int, c0.len() as int));
    }
    let r = LogicalPlan { operator, childrens: done };
    proof {
        if c0.len() > 0 {
            assert(kept(c0[0], done@[0]));
        }
        if c0.len() > 1 {
            assert(kept(c0[1], done@[1]));
        }
        assert(head_kept(head, r));
        assert(kept(head, r));
        lemma_kept_trans(plan, head, r);
    }
    (r, applied)
}

/// A rule-based optimizer: batches of rules run in order over a plan.
pub struct HepOptimizer {
    pub plan: LogicalPlan,
    pub batches: Vec<HepBatch>,
}

impl HepOptimizer {
    pub fn new(plan: LogicalPlan) -> (r: HepOptimizer)
        ensures
            r.plan == plan,
            r.batches@.len() == 0,
    {
        HepOptimizer { plan, batches: Vec::new() }
    }

    /// Adds a batch after the existing ones.
    pub fn batch(self, name: String, strategy: HepBatchStrategy, rules: Vec<RuleImpl>) -> (r: HepOptimizer)
        ensures
            r.plan == self.plan,
            r.batches@.len() == self.batches@.len() + 1,
            r.batches@.drop_last() == self.batches@,
            r.batches@.last().name@ == name@,
            r.batches@.last().strategy == strategy,
            r.batches@.last().rules@ == rules@,
    {
        let HepOptimizer { plan, mut batches } = self;
        batches.push(HepBatch { name, strategy, rules });
        HepOptimizer { plan, batches }
    }

    /// Runs every batch over the plan and returns the result. The output
    /// column types, in order, stay as they were for every plan whose
    /// projections that could fold into a scan project column references
    /// only (see `schema_stable`). A projection over a single scan folds
    /// into the scan once a batch that runs at least one pass has the rule
    /// for that.
    pub fn find_best(self) -> (r: LogicalPlan)
        ensures
            schema_stable(self.plan) ==> plan_schema(r) == plan_schema(self.plan),
            fold_pre(self.plan) && (exists|b: int|
                0 <= b < self.batches@.len() && #[trigger] folds(self.batches@[b])) ==> folded_head(self.plan, r),
    {
        let ghost bs = self.batches@;
        let HepOptimizer { plan, batches } = self;
        let ghost start = plan;
        proof {
            lemma_kept_refl(start);
        }
        let mut plan = plan;
        let mut b: usize = 0;
        while b < batches.len()
            invariant
                0 <= b <= batches@.len(),
                kept(start, plan),
                bs == batches@,
                fold_pre(start) ==> folded_head(start, plan) || (same_head(start, plan) && forall|k: int|
                    0 <= k < b ==> !#[trigger] folds(bs[k])),
            decreases batches@.len() - b,
        {
            let max = batches[b].strategy.max_iteration;
            let mut iteration: usize = 1;
            let mut over = false;
            while iteration <= max && !over
                invariant
                    kept(start, plan),
                    b < batches@.len(),
                    1 <= iteration,
                    max == batches@[b as int].strategy.max_iteration,
                    bs == batches@,
                    fold_pre(start) ==> folded_head(start, plan) || (same_head(start, plan) && (folds(bs[b as int])
                        ==> iteration == 1 && !over) && forall|k: int| 0 <= k < b ==> !#[trigger] folds(bs[k])),
                decreases max as int + 1 - iteration as int, if over { 0int } else { 1int },
            {
                let ghost before = plan;
                let (p, applied) = optimize_node(plan, &batches[b].rules, usize::MAX);
                plan = p;
                proof {
                    lemma_kept_trans(start, before, plan);
                    if fold_pre(start) {
                        if folded_head(start, before) {
                            assert(folded_head(start, plan));
                        } else if folds(bs[b as int]) {
                            assert(folded_head(before, plan));
                            assert(folded_head(start, plan));
                        } else {
                            assert(same_head(start, plan));
                        }
                    }
                }
                if applied && iteration < max {
                    iteration = iteration + 1;
                } else {
                    over = true;
                }
            }
            b = b + 1;
        }
        proof {
            if fold_pre(start) && (exists|k: int| 0 <= k < bs.len() && #[trigger] folds(bs[k])) {
                let k = choose|k: int| 0 <= k < bs.len() && #[trigger] folds(bs[k]);
                assert(folds(bs[k]));
            }
            if schema_stable(start) {
                lemma_kept_schema(start, plan);
            }
        }
        plan
    }
}

}
