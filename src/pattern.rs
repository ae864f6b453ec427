use vstd::prelude::*;
use crate::planner::{LogicalPlan, Operator};

verus! {

/// A test on a single operator.
#[derive(Clone, Copy, Debug, PartialEq, Eq, Structural)]
pub enum OperatorPredicate {
    Any,
    IsProject,
    IsScan,
    NotScanNorProject,
    NotProject,
}

pub open spec fn predicate_holds(p: OperatorPredicate, op: Operator) -> bool {
    match p {
        OperatorPredicate::Any => true,
        OperatorPredicate::IsProject => op is Project,
        OperatorPredicate::IsScan => op is Scan,
        OperatorPredicate::NotScanNorProject => !(op is Scan) && !(op is Project),
        OperatorPredicate::NotProject => !(op is Project),
    }
}

impl OperatorPredicate {
    pub fn test(&self, op: &Operator) -> (r: bool)
        ensures
            r == predicate_holds(*self, *op),
    {
        match self {
            OperatorPredicate::Any => true,
            OperatorPredicate::IsProject => matches!(op, Operator::Project(_)),
            OperatorPredicate::IsScan => matches!(op, Operator::Scan(_)),
            OperatorPredicate::NotScanNorProject => !matches!(op, Operator::Scan(_) | Operator::Project(_)),
            OperatorPredicate::NotProject => !matches!(op, Operator::Project(_)),
        }
    }
}

/// What a pattern asks of a node's children.
pub enum PatternChildrenPredicate {
    /// Any subtree below matches.
    Recursive,
    /// Every child matches each of the patterns.
    Predicate(Vec<Pattern>),
    /// The children are not looked at.
    Opaque,
}

/// The pattern tree to match a plan tree against.
pub struct Pattern {
    /// The root node predicate, not looking at the children.
    pub predicate: OperatorPredicate,
    /// The children's predicate of the current node.
    pub children: PatternChildrenPredicate,
}

/// Whether a plan matches a pattern.
pub open spec fn pattern_matches(pattern: Pattern, plan: LogicalPlan) -> bool
    decreases pattern, 0nat,
{
    predicate_holds(pattern.predicate, plan.operator) && match pattern.children {
        PatternChildrenPredicate::Recursive => true,
        PatternChildrenPredicate::Opaque => true,
        PatternChildrenPredicate::Predicate(ps) => children_match(ps@, plan.childrens@),
    }
}

/// Whether every plan of `cs` matches each pattern of `ps`.
pub open spec fn children_match(ps: Seq<Pattern>, cs: Seq<LogicalPlan>) -> bool
    decreases ps, cs.len() + 1,
{
    if cs.len() == 0 {
        true
    } else {
        children_match(ps, cs.drop_last()) && patterns_match(ps, cs.last())
    }
}

/// Whether a plan matches each pattern of `ps`.
pub open spec fn patterns_match(ps: Seq<Pattern>, c: LogicalPlan) -> bool
    decreases ps, 0nat,
{
    if ps.len() == 0 {
        true
    } else {
        patterns_match(ps.drop_last(), c) && pattern_matches(ps.last(), c)
    }
}

/// Something that can tell whether a plan matches a pattern.
pub trait PatternMatcher {
    spec fn matches_spec(&self) -> bool;

    fn match_opt_expr(&self) -> (r: bool)
        ensures
            r == self.matches_spec(),
    ;
}

/// Matches a pattern at the root of a plan.
pub struct PlanMatcher<'a> {
    pub pattern: &'a Pattern,
    pub plan: &'a LogicalPlan,
}

pub fn match_pattern(pattern: &Pattern, plan: &LogicalPlan) -> (r: bool)
    ensures
        r == pattern_matches(*pattern, *plan),
    decreases pattern, 0nat,
{
    if !pattern.predicate.test(&plan.operator) {
        return false;
    }
    match &pattern.children {
        PatternChildrenPredicate::Recursive => true,
        PatternChildrenPredicate::Opaque => true,
        PatternChildrenPredicate::Predicate(ps) => match_children(ps, plan),
    }
}

fn match_children(ps: &Vec<Pattern>, plan: &LogicalPlan) -> (r: bool)
    ensures
        r == children_match(ps@, plan.childrens@),
    decreases ps, plan.childrens@.len() + 1,
{
    let mut c: usize = 0;
    while c < plan.childrens.len()
        invariant
            0 <= c <= plan.childrens@.len(),
            children_match(ps@, plan.childrens@.take(c as int)),
        decreases plan.childrens@.len() - c,
    {
        assert(plan.childrens@.take(c as int + 1).drop_last() =~= plan.childrens@.take(c as int));
        if !match_each(ps, &plan.childrens[c]) {
            proof {
                lemma_children_prefix(ps@, plan.childrens@, c as int + 1);
            }
            return false;
        }
        c = c + 1;
    }
    assert(plan.childrens@.take(plan.childrens@.len() as int) =~= plan.childrens@);
    true
}

proof fn lemma_children_prefix(ps: Seq<Pattern>, cs: Seq<LogicalPlan>, n: int)
    requires
        0 <= n <= cs.len(),
        !children_match(ps, cs.take(n)),
    ensures
        !children_match(ps, cs),
    decreases cs.len() - n,
{
    if n < cs.len() {
        assert(cs.take(n + 1).drop_last() =~= cs.take(n));
        lemma_children_prefix(ps, cs, n + 1);
    } else {
        assert(cs.take(n) =~= cs);
    }
}

proof fn lemma_patterns_prefix(ps: Seq<Pattern>, c: LogicalPlan, n: int)
    requires
        0 <= n <= ps.len(),
        !patterns_match(ps.take(n), c),
    ensures
        !patterns_match(ps, c),
    decreases ps.len() - n,
{
    if n < ps.len() {
        assert(ps.take(n + 1).drop_last() =~= ps.take(n));
        lemma_patterns_prefix(ps, c, n + 1);
    } else {
        assert(ps.take(n) =~= ps);
    }
}

fn match_each(ps: &Vec<Pattern>, c: &LogicalPlan) -> (r: bool)
    ensures
        r == patterns_match(ps@, *c),
    decreases ps, 0nat,
{
    let mut j: usize = 0;
    while j < ps.len()
        invariant
            0 <= j <= ps@.len(),
            patterns_match(ps@.take(j as int), *c),
        decreases ps@.len() - j,
    {
        assert(ps@.take(j as int + 1).drop_last() =~= ps@.take(j as int));
        proof {
            vstd::std_specs::vec::axiom_vec_index_decreases(*ps, j as int);
        }
        if !match_pattern(&ps[j], c) {
            proof {
                lemma_patterns_prefix(ps@, *c, j as int + 1);
            }
            return false;
        }
        j = j + 1;
    }
    assert(ps@.take(ps@.len() as int) =~= ps@);
    true
}

impl<'a> PatternMatcher for PlanMatcher<'a> {
    open spec fn matches_spec(&self) -> bool {
        pattern_matches(*self.pattern, *self.plan)
    }

    fn match_opt_expr(&self) -> (r: bool) {
        match_pattern(self.pattern, self.plan)
    }
}

}
