use vstd::prelude::*;
use crate::catalog::{ColumnCatalog, ColumnV, TableName};
use crate::expression::{
    ExprV, ScalarExpression, cols_view, exprs_view, ref_cols, ref_cols_seq, referenced_columns_of_list,
    unpack_alias_v,
};

verus! {

broadcast use vstd::seq::group_seq_axioms;

#[derive(Debug)]
pub struct ScanOperator {
    pub table_name: TableName,
    pub columns: Vec<ScalarExpression>,
}

#[derive(Debug)]
pub struct ProjectOperator {
    pub columns: Vec<ScalarExpression>,
}

#[derive(Debug)]
pub struct FilterOperator {
    pub predicate: ScalarExpression,
    pub having: bool,
}

#[derive(Debug)]
pub struct SortField {
    pub expr: ScalarExpression,
    pub desc: bool,
    pub nulls_first: bool,
}

#[derive(Debug)]
pub struct SortOperator {
    pub sort_fields: Vec<SortField>,
    pub limit: Option<usize>,
}

#[derive(Debug)]
pub struct LimitOperator {
    pub offset: usize,
    pub limit: usize,
}

#[derive(Debug)]
pub struct AggregateOperator {
    pub agg_calls: Vec<ScalarExpression>,
    pub groupby_exprs: Vec<ScalarExpression>,
}

#[derive(Clone, Copy, Debug, PartialEq, Eq, Structural, Hash)]
pub enum JoinType {
    Inner,
    Left,
    Right,
    Full,
    Cross,
}

#[derive(Debug)]
pub enum JoinCondition {
    On { on: Vec<(ScalarExpression, ScalarExpression)>, filter: Option<ScalarExpression> },
    NoCondition,
}

#[derive(Debug)]
pub struct JoinOperator {
    pub on: JoinCondition,
    pub join_type: JoinType,
}

#[derive(Debug)]
pub struct InsertOperator {
    pub table_name: TableName,
    pub is_overwrite: bool,
}

/// A relational operator of a logical plan.
#[derive(Debug)]
pub enum Operator {
    Dummy,
    Scan(ScanOperator),
    Project(ProjectOperator),
    Filter(FilterOperator),
    Sort(SortOperator),
    Limit(LimitOperator),
    Aggregate(AggregateOperator),
    Join(JoinOperator),
    Insert(InsertOperator),
}

/// A logical plan: an operator over its input plans.
#[derive(Debug)]
pub struct LogicalPlan {
    pub operator: Operator,
    pub childrens: Vec<LogicalPlan>,
}

/// Whether a join type forces NULLs into its left input's and its right
/// input's columns.
pub open spec fn join_nullable_spec(t: JoinType) -> (bool, bool) {
    match t {
        JoinType::Inner | JoinType::Cross => (false, false),
        JoinType::Left => (false, true),
        JoinType::Right => (true, false),
        JoinType::Full => (true, true),
    }
}

pub fn joins_nullable(t: &JoinType) -> (r: (bool, bool))
    ensures
        r == join_nullable_spec(*t),
{
    match t {
        JoinType::Inner | JoinType::Cross => (false, false),
        JoinType::Left => (false, true),
        JoinType::Right => (true, false),
        JoinType::Full => (true, true),
    }
}

/// The expressions of a list of join keys, left key before right key.
pub open spec fn on_exprs(on: Seq<(ScalarExpression, ScalarExpression)>) -> Seq<ExprV>
    decreases on.len(),
{
    if on.len() == 0 {
        Seq::empty()
    } else {
        on_exprs(on.drop_last()) + seq![on.last().0@, on.last().1@]
    }
}

pub open spec fn sort_exprs(fields: Seq<SortField>) -> Seq<ExprV> {
    Seq::new(fields.len(), |i: int| fields[i].expr@)
}

/// The columns an operator's own expressions read (not its inputs').
pub open spec fn op_ref_cols(op: Operator) -> Seq<ColumnV> {
    match op {
        Operator::Aggregate(a) => ref_cols_seq(exprs_view(a.agg_calls@)) + ref_cols_seq(exprs_view(a.groupby_exprs@)),
        Operator::Filter(f) => ref_cols(f.predicate@),
        Operator::Join(j) => match j.on {
            JoinCondition::On { on, filter } => ref_cols_seq(on_exprs(on@)) + match filter {
                Some(f) => ref_cols(f@),
                None => Seq::empty(),
            },
            JoinCondition::NoCondition => Seq::empty(),
        },
        Operator::Project(p) => ref_cols_seq(exprs_view(p.columns@)),
        Operator::Scan(s) => ref_cols_seq(exprs_view(s.columns@)),
        Operator::Sort(s) => ref_cols_seq(sort_exprs(s.sort_fields@)),
        _ => Seq::empty(),
    }
}

/// The placeholders among a list of projected expressions, alias taken off.
pub open spec fn input_refs_of(cols: Seq<ExprV>) -> Seq<ExprV>
    decreases cols.len(),
{
    if cols.len() == 0 {
        Seq::empty()
    } else if unpack_alias_v(cols.last()) is InputRef {
        input_refs_of(cols.drop_last()).push(unpack_alias_v(cols.last()))
    } else {
        input_refs_of(cols.drop_last())
    }
}

pub open spec fn op_input_refs(op: Operator) -> Seq<ExprV> {
    match op {
        Operator::Project(p) => input_refs_of(exprs_view(p.columns@)),
        _ => Seq::empty(),
    }
}

/// The columns read by the aggregate calls that placeholders stand for.
pub open spec fn agg_map_cols(aggs: Seq<ExprV>, refs: Seq<ExprV>) -> Seq<ColumnV>
    decreases refs.len(),
{
    if refs.len() == 0 {
        Seq::empty()
    } else {
        agg_map_cols(aggs, refs.drop_last()) + match refs.last() {
            ExprV::InputRef { index, .. } => if index < aggs.len() {
                ref_cols(aggs[index as int])
            } else {
                Seq::empty()
            },
            _ => Seq::empty(),
        }
    }
}

pub open spec fn op_agg_map_cols(op: Operator, refs: Seq<ExprV>) -> Seq<ColumnV> {
    match op {
        Operator::Aggregate(a) => agg_map_cols(exprs_view(a.agg_calls@), refs),
        _ => Seq::empty(),
    }
}

proof fn lemma_take_last<T>(s: Seq<T>, i: int)
    requires
        0 <= i < s.len(),
    ensures
        s.take(i + 1).drop_last() =~= s.take(i),
        s.take(i + 1).last() == s[i],
{
}

fn append_cols(out: &mut Vec<ColumnCatalog>, more: Vec<ColumnCatalog>)
    ensures
        cols_view(final(out)@) == cols_view(old(out)@) + cols_view(more@),
{
    let ghost m0 = more@;
    let mut more = more;
    out.append(&mut more);
    assert(cols_view(out@) =~= cols_view(old(out)@) + cols_view(m0));
}

impl Operator {
    /// The columns this operator's own expressions read.
    pub fn referenced_columns(&self) -> (r: Vec<ColumnCatalog>)
        ensures
            cols_view(r@) == op_ref_cols(*self),
    {
        match self {
            Operator::Aggregate(a) => {
                let mut r = referenced_columns_of_list(&a.agg_calls);
                append_cols(&mut r, referenced_columns_of_list(&a.groupby_exprs));
                r
            },
            Operator::Filter(f) => f.predicate.referenced_columns(),
            Operator::Join(j) => match &j.on {
                JoinCondition::On { on, filter } => {
                    let mut r: Vec<ColumnCatalog> = Vec::new();
                    let mut i: usize = 0;
                    while i < on.len()
                        invariant
                            0 <= i <= on@.len(),
                            cols_view(r@) == ref_cols_seq(on_exprs(on@.take(i as int))),
                        decreases on@.len() - i,
                    {
                        proof {
                            lemma_take_last(on@, i as int);
                            let a = on_exprs(on@.take(i as int));
                            let b = seq![on@[i as int].0@, on@[i as int].1@];
                            lemma_ref_cols_seq_concat(a, b);
                            assert(b.drop_last() =~= seq![on@[i as int].0@]);
                            assert(b.drop_last().drop_last() =~= Seq::<ExprV>::empty());
                            assert(ref_cols_seq(b.drop_last().drop_last()) =~= Seq::<ColumnV>::empty());
                            assert(ref_cols_seq(b.drop_last()) =~= ref_cols(on@[i as int].0@));
                            assert(ref_cols_seq(b) =~= ref_cols(on@[i as int].0@) + ref_cols(on@[i as int].1@));
                            assert(on_exprs(on@.take(i as int + 1)) == a + b);
                        }
                        append_cols(&mut r, on[i].0.referenced_columns());
                        append_cols(&mut r, on[i].1.referenced_columns());
                        assert(cols_view(r@) =~= ref_cols_seq(on_exprs(on@.take(i as int + 1))));
                        i = i + 1;
                    }
                    assert(on@.take(on@.len() as int) =~= on@);
                    match filter {
                        Some(f) => append_cols(&mut r, f.referenced_columns()),
                        None => {
                            assert(cols_view(r@) + Seq::<ColumnV>::empty() =~= cols_view(r@));
                        },
                    }
                    r
                },
                JoinCondition::NoCondition => {
                    let r: Vec<ColumnCatalog> = Vec::new();
                    assert(cols_view(r@) =~= Seq::<ColumnV>::empty());
                    r
                },
            },
            Operator::Project(p) => referenced_columns_of_list(&p.columns),
            Operator::Scan(s) => referenced_columns_of_list(&s.columns),
            Operator::Sort(s) => {
                let mut r: Vec<ColumnCatalog> = Vec::new();
                let mut i: usize = 0;
                while i < s.sort_fields.len()
                    invariant
                        0 <= i <= s.sort_fields@.len(),
                        cols_view(r@) == ref_cols_seq(sort_exprs(s.sort_fields@.take(i as int))),
                    decreases s.sort_fields@.len() - i,
                {
                    proof {
                        assert(sort_exprs(s.sort_fields@.take(i as int + 1)).drop_last() =~= sort_exprs(
                            s.sort_fields@.take(i as int),
                        ));
                    }
                    append_cols(&mut r, s.sort_fields[i].expr.referenced_columns());
                    i = i + 1;
                }
                assert(s.sort_fields@.take(s.sort_fields@.len() as int) =~= s.sort_fields@);
                r
            },
            _ => {
                let r: Vec<ColumnCatalog> = Vec::new();
                assert(cols_view(r@) =~= Seq::<ColumnV>::empty());
                r
            },
        }
    }

    /// The placeholders among a projection's columns (alias taken off).
    pub fn project_input_refs(&self) -> (r: Vec<ScalarExpression>)
        ensures
            exprs_view(r@) == op_input_refs(*self),
    {
        let mut r: Vec<ScalarExpression> = Vec::new();
        if let Operator::Project(p) = self {
            let mut i: usize = 0;
            while i < p.columns.len()
                invariant
                    0 <= i <= p.columns@.len(),
                    exprs_view(r@) == input_refs_of(exprs_view(p.columns@.take(i as int))),
                decreases p.columns@.len() - i,
            {
                proof {
                    assert(exprs_view(p.columns@.take(i as int + 1)).drop_last() =~= exprs_view(
                        p.columns@.take(i as int),
                    ));
                }
                let e = p.columns[i].unpack_alias();
                if let ScalarExpression::InputRef { .. } = e {
                    let ghost r0 = r@;
                    r.push(e.clone());
                    assert(exprs_view(r@) =~= exprs_view(r0).push(e@));
                }
                i = i + 1;
            }
            assert(p.columns@.take(p.columns@.len() as int) =~= p.columns@);
        } else {
            assert(exprs_view(r@) =~= Seq::<ExprV>::empty());
        }
        r
    }

    /// For an aggregate, the columns read by the calls that the given
    /// placeholders stand for; nothing for other operators.
    pub fn agg_mapping_col_refs(&self, input_refs: &Vec<ScalarExpression>) -> (r: Vec<ColumnCatalog>)
        ensures
            cols_view(r@) == op_agg_map_cols(*self, exprs_view(input_refs@)),
    {
        let mut r: Vec<ColumnCatalog> = Vec::new();
        if let Operator::Aggregate(a) = self {
            let mut i: usize = 0;
            while i < input_refs.len()
                invariant
                    0 <= i <= input_refs@.len(),
                    cols_view(r@) == agg_map_cols(exprs_view(a.agg_calls@), exprs_view(input_refs@.take(i as int))),
                decreases input_refs@.len() - i,
            {
                proof {
                    assert(exprs_view(input_refs@.take(i as int + 1)).drop_last() =~= exprs_view(
                        input_refs@.take(i as int),
                    ));
                }
                if let ScalarExpression::InputRef { index, .. } = &input_refs[i] {
                    if *index < a.agg_calls.len() {
                        append_cols(&mut r, a.agg_calls[*index].referenced_columns());
                    } else {
                        assert(cols_view(r@) + Seq::<ColumnV>::empty() =~= cols_view(r@));
                    }
                } else {
                    assert(cols_view(r@) + Seq::<ColumnV>::empty() =~= cols_view(r@));
                }
                i = i + 1;
            }
            assert(input_refs@.take(input_refs@.len() as int) =~= input_refs@);
        } else {
            assert(cols_view(r@) =~= Seq::<ColumnV>::empty());
        }
        r
    }
}

pub proof fn lemma_ref_cols_seq_concat(a: Seq<ExprV>, b: Seq<ExprV>)
    ensures
        ref_cols_seq(a + b) == ref_cols_seq(a) + ref_cols_seq(b),
    decreases b.len(),
{
    if b.len() == 0 {
        assert(a + b =~= a);
        assert(ref_cols_seq(a) + ref_cols_seq(b) =~= ref_cols_seq(a));
    } else {
        lemma_ref_cols_seq_concat(a, b.drop_last());
        assert((a + b).drop_last() =~= a + b.drop_last());
        assert((a + b).last() == b.last());
        assert(ref_cols_seq(a + b) =~= ref_cols_seq(a) + ref_cols_seq(b));
    }
}

}
