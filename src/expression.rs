use vstd::prelude::*;
use crate::catalog::{ColumnCatalog, ColumnV};
use crate::types::{DataValue, LogicalType, ValueV, value_type};

verus! {

broadcast use vstd::seq::group_seq_axioms;

#[derive(Clone, Copy, Debug, PartialEq, Eq, Structural, Hash)]
pub enum BinaryOperator {
    Plus,
    Minus,
    Multiply,
    Divide,
    Modulo,
    Gt,
    Lt,
    GtEq,
    LtEq,
    Eq,
    NotEq,
    And,
    Or,
}

#[derive(Clone, Copy, Debug, PartialEq, Eq, Structural, Hash)]
pub enum UnaryOperator {
    Plus,
    Minus,
    Not,
}

#[derive(Clone, Copy, Debug, PartialEq, Eq, Structural, Hash)]
pub enum AggKind {
    Count,
    Sum,
    Avg,
    Min,
    Max,
}

/// A typed scalar expression, as the binder emits it and the optimizer rewrites it.
#[derive(Debug)]
pub enum ScalarExpression {
    Constant(DataValue),
    ColumnRef(ColumnCatalog),
    InputRef { index: usize, ty: LogicalType },
    Alias { expr: Box<ScalarExpression>, alias: String },
    TypeCast { expr: Box<ScalarExpression>, ty: LogicalType },
    IsNull { expr: Box<ScalarExpression> },
    Unary { op: UnaryOperator, expr: Box<ScalarExpression>, ty: LogicalType },
    Binary {
        op: BinaryOperator,
        left_expr: Box<ScalarExpression>,
        right_expr: Box<ScalarExpression>,
        ty: LogicalType,
    },
    AggCall { distinct: bool, kind: AggKind, args: Vec<ScalarExpression>, ty: LogicalType },
}

/// The mathematical model of a `ScalarExpression`: strings as character
/// sequences, argument lists as sequences.
pub enum ExprV {
    Constant(ValueV),
    ColumnRef(ColumnV),
    InputRef { index: usize, ty: LogicalType },
    Alias { expr: Box<ExprV>, alias: Seq<char> },
    TypeCast { expr: Box<ExprV>, ty: LogicalType },
    IsNull { expr: Box<ExprV> },
    Unary { op: UnaryOperator, expr: Box<ExprV>, ty: LogicalType },
    Binary { op: BinaryOperator, left: Box<ExprV>, right: Box<ExprV>, ty: LogicalType },
    AggCall { distinct: bool, kind: AggKind, args: Seq<ExprV>, ty: LogicalType },
}

pub open spec fn expr_view(e: ScalarExpression) -> ExprV
    decreases e,
{
    match e {
        ScalarExpression::Constant(v) => ExprV::Constant(v@),
        ScalarExpression::ColumnRef(c) => ExprV::ColumnRef(c@),
        ScalarExpression::InputRef { index, ty } => ExprV::InputRef { index, ty },
        ScalarExpression::Alias { expr, alias } => ExprV::Alias { expr: Box::new(expr_view(*expr)), alias: alias@ },
        ScalarExpression::TypeCast { expr, ty } => ExprV::TypeCast { expr: Box::new(expr_view(*expr)), ty },
        ScalarExpression::IsNull { expr } => ExprV::IsNull { expr: Box::new(expr_view(*expr)) },
        ScalarExpression::Unary { op, expr, ty } => ExprV::Unary { op, expr: Box::new(expr_view(*expr)), ty },
        ScalarExpression::Binary { op, left_expr, right_expr, ty } => ExprV::Binary {
            op,
            left: Box::new(expr_view(*left_expr)),
            right: Box::new(expr_view(*right_expr)),
            ty,
        },
        ScalarExpression::AggCall { distinct, kind, args, ty } => ExprV::AggCall {
            distinct,
            kind,
            args: Seq::new(
                args@.len(),
                |i: int|
                    if 0 <= i < args@.len() {
                        expr_view(args@[i])
                    } else {
                        ExprV::InputRef { index: 0, ty }
                    },
            ),
            ty,
        },
    }
}

impl View for ScalarExpression {
    type V = ExprV;

    open spec fn view(&self) -> ExprV {
        expr_view(*self)
    }
}

/// The model of a list of expressions.
pub open spec fn exprs_view(v: Seq<ScalarExpression>) -> Seq<ExprV> {
    Seq::new(v.len(), |i: int| v[i]@)
}

/// The model of a list of columns.
pub open spec fn cols_view(v: Seq<ColumnCatalog>) -> Seq<ColumnV> {
    Seq::new(v.len(), |i: int| v[i]@)
}

pub proof fn lemma_agg_args_view(args: Vec<ScalarExpression>, distinct: bool, kind: AggKind, ty: LogicalType)
    ensures
        (ScalarExpression::AggCall { distinct, kind, args, ty })@ == (ExprV::AggCall {
            distinct,
            kind,
            args: exprs_view(args@),
            ty,
        }),
{
    let e = ScalarExpression::AggCall { distinct, kind, args, ty };
    assert(e@ matches ExprV::AggCall { args: a, .. } && a =~= exprs_view(args@));
}

/// The result type of an expression.
pub open spec fn expr_type(e: ExprV) -> LogicalType
    decreases e,
{
    match e {
        ExprV::Constant(v) => value_type(v),
        ExprV::ColumnRef(c) => c.desc.column_datatype,
        ExprV::InputRef { ty, .. } => ty,
        ExprV::Alias { expr, .. } => expr_type(*expr),
        ExprV::TypeCast { ty, .. } => ty,
        ExprV::IsNull { .. } => LogicalType::Boolean,
        ExprV::Unary { expr, .. } => expr_type(*expr),
        ExprV::Binary { ty, .. } => ty,
        ExprV::AggCall { ty, .. } => ty,
    }
}

/// Whether an expression computes an aggregate: an aggregate call, or the
/// placeholder of one of the `n_aggs` aggregates already taken out.
pub open spec fn has_agg(e: ExprV, n_aggs: nat) -> bool
    decreases e,
{
    match e {
        ExprV::Constant(_) | ExprV::ColumnRef(_) => false,
        ExprV::InputRef { index, .. } => index < n_aggs,
        ExprV::AggCall { .. } => true,
        ExprV::Alias { expr, .. } | ExprV::TypeCast { expr, .. } | ExprV::IsNull { expr } | ExprV::Unary {
            expr,
            ..
        } => has_agg(*expr, n_aggs),
        ExprV::Binary { left, right, .. } => has_agg(*left, n_aggs) || has_agg(*right, n_aggs),
    }
}

/// Whether an aggregate call occurs anywhere in an expression.
pub open spec fn contains_agg_call(e: ExprV) -> bool
    decreases e,
{
    match e {
        ExprV::Constant(_) | ExprV::ColumnRef(_) | ExprV::InputRef { .. } => false,
        ExprV::AggCall { .. } => true,
        ExprV::Alias { expr, .. } | ExprV::TypeCast { expr, .. } | ExprV::IsNull { expr } | ExprV::Unary {
            expr,
            ..
        } => contains_agg_call(*expr),
        ExprV::Binary { left, right, .. } => contains_agg_call(*left) || contains_agg_call(*right),
    }
}

/// The columns an expression reads, left to right in pre-order, with repeats.
pub open spec fn ref_cols(e: ExprV) -> Seq<ColumnV>
    decreases e,
{
    match e {
        ExprV::Constant(_) | ExprV::InputRef { .. } => Seq::empty(),
        ExprV::ColumnRef(c) => seq![c],
        ExprV::Alias { expr, .. } | ExprV::TypeCast { expr, .. } | ExprV::IsNull { expr } | ExprV::Unary {
            expr,
            ..
        } => ref_cols(*expr),
        ExprV::Binary { left, right, .. } => ref_cols(*left) + ref_cols(*right),
        ExprV::AggCall { args, .. } => ref_cols_seq(args),
    }
}

/// The columns a list of expressions reads, in order.
pub open spec fn ref_cols_seq(s: Seq<ExprV>) -> Seq<ColumnV>
    decreases s,
{
    if s.len() == 0 {
        Seq::empty()
    } else {
        ref_cols_seq(s.drop_last()) + ref_cols(s.last())
    }
}

/// An expression with one layer of alias taken off.
pub open spec fn unpack_alias_v(e: ExprV) -> ExprV {
    match e {
        ExprV::Alias { expr, .. } => *expr,
        _ => e,
    }
}

pub proof fn lemma_ref_cols_seq_push(s: Seq<ExprV>, e: ExprV)
    ensures
        ref_cols_seq(s.push(e)) == ref_cols_seq(s) + ref_cols(e),
{
    assert(s.push(e).drop_last() =~= s);
}

pub proof fn lemma_exprs_view_take(v: Seq<ScalarExpression>, i: int)
    requires
        0 <= i < v.len(),
    ensures
        exprs_view(v.take(i + 1)) == exprs_view(v.take(i)).push(v[i]@),
{
    assert(exprs_view(v.take(i + 1)) =~= exprs_view(v.take(i)).push(v[i]@));
}

pub fn clone_exprs(v: &Vec<ScalarExpression>) -> (r: Vec<ScalarExpression>)
    ensures
        exprs_view(r@) == exprs_view(v@),
    decreases v,
{
    let mut r: Vec<ScalarExpression> = Vec::new();
    let mut i: usize = 0;
    while i < v.len()
        invariant
            0 <= i <= v@.len(),
            r@.len() == i,
            forall|k: int| 0 <= k < i ==> r@[k]@ == v@[k]@,
        decreases v@.len() - i,
    {
        proof {
            vstd::std_specs::vec::axiom_vec_index_decreases(*v, i as int);
        }
        r.push(v[i].clone());
        i = i + 1;
    }
    assert(exprs_view(r@) =~= exprs_view(v@));
    r
}

pub fn exprs_equal(a: &Vec<ScalarExpression>, b: &Vec<ScalarExpression>) -> (r: bool)
    ensures
        r == (exprs_view(a@) == exprs_view(b@)),
    decreases a,
{
    if a.len() != b.len() {
        proof {
            assert(exprs_view(a@).len() != exprs_view(b@).len());
        }
        return false;
    }
    let mut i: usize = 0;
    while i < a.len()
        invariant
            0 <= i <= a@.len(),
            a@.len() == b@.len(),
            forall|k: int| 0 <= k < i ==> a@[k]@ == b@[k]@,
        decreases a@.len() - i,
    {
        proof {
            vstd::std_specs::vec::axiom_vec_index_decreases(*a, i as int);
        }
        if !a[i].equals(&b[i]) {
            proof {
                assert(exprs_view(a@)[i as int] != exprs_view(b@)[i as int]);
            }
            return false;
        }
        i = i + 1;
    }
    assert(exprs_view(a@) =~= exprs_view(b@));
    true
}

/// The columns a list of expressions reads, in order.
pub fn referenced_columns_of_list(args: &Vec<ScalarExpression>) -> (r: Vec<ColumnCatalog>)
    ensures
        cols_view(r@) == ref_cols_seq(exprs_view(args@)),
    decreases args,
{
    let mut out: Vec<ColumnCatalog> = Vec::new();
    let mut i: usize = 0;
    while i < args.len()
        invariant
            0 <= i <= args@.len(),
            cols_view(out@) == ref_cols_seq(exprs_view(args@.take(i as int))),
        decreases args@.len() - i,
    {
        proof {
            vstd::std_specs::vec::axiom_vec_index_decreases(*args, i as int);
            lemma_exprs_view_take(args@, i as int);
            lemma_ref_cols_seq_push(exprs_view(args@.take(i as int)), args@[i as int]@);
        }
        let mut more = args[i].referenced_columns();
        let ghost o0 = out@;
        let ghost m0 = more@;
        out.append(&mut more);
        assert(cols_view(out@) =~= cols_view(o0) + cols_view(m0));
        i = i + 1;
    }
    assert(args@.take(args@.len() as int) =~= args@);
    out
}

impl Clone for ScalarExpression {
    fn clone(&self) -> (r: Self)
        ensures
            r@ == self@,
        decreases self,
    {
        match self {
            ScalarExpression::Constant(v) => ScalarExpression::Constant(v.clone()),
            ScalarExpression::ColumnRef(c) => ScalarExpression::ColumnRef(c.clone()),
            ScalarExpression::InputRef { index, ty } => ScalarExpression::InputRef { index: *index, ty: *ty },
            ScalarExpression::Alias { expr, alias } => ScalarExpression::Alias {
                expr: Box::new((**expr).clone()),
                alias: alias.clone(),
            },
            ScalarExpression::TypeCast { expr, ty } => ScalarExpression::TypeCast {
                expr: Box::new((**expr).clone()),
                ty: *ty,
            },
            ScalarExpression::IsNull { expr } => ScalarExpression::IsNull { expr: Box::new((**expr).clone()) },
            ScalarExpression::Unary { op, expr, ty } => ScalarExpression::Unary {
                op: *op,
                expr: Box::new((**expr).clone()),
                ty: *ty,
            },
            ScalarExpression::Binary { op, left_expr, right_expr, ty } => ScalarExpression::Binary {
                op: *op,
                left_expr: Box::new((**left_expr).clone()),
                right_expr: Box::new((**right_expr).clone()),
                ty: *ty,
            },
            ScalarExpression::AggCall { distinct, kind, args, ty } => {
                let new_args = clone_exprs(args);
                proof {
                    lemma_agg_args_view(*args, *distinct, *kind, *ty);
                    lemma_agg_args_view(new_args, *distinct, *kind, *ty);
                }
                ScalarExpression::AggCall { distinct: *distinct, kind: *kind, args: new_args, ty: *ty }
            },
        }
    }
}

impl ScalarExpression {
    /// Structural equality; an alias's name takes part in it.
    pub fn equals(&self, other: &ScalarExpression) -> (r: bool)
        ensures
            r == (self@ == other@),
        decreases self,
    {
        match (self, other) {
            (ScalarExpression::Constant(a), ScalarExpression::Constant(b)) => a.equals(b),
            (ScalarExpression::ColumnRef(a), ScalarExpression::ColumnRef(b)) => a.equals(b),
            (
                ScalarExpression::InputRef { index: i1, ty: t1 },
                ScalarExpression::InputRef { index: i2, ty: t2 },
            ) => *i1 == *i2 && *t1 == *t2,
            (ScalarExpression::Alias { expr: e1, alias: a1 }, ScalarExpression::Alias { expr: e2, alias: a2 }) => {
                *a1 == *a2 && (**e1).equals(&**e2)
            },
            (ScalarExpression::TypeCast { expr: e1, ty: t1 }, ScalarExpression::TypeCast { expr: e2, ty: t2 }) => {
                *t1 == *t2 && (**e1).equals(&**e2)
            },
            (ScalarExpression::IsNull { expr: e1 }, ScalarExpression::IsNull { expr: e2 }) => (**e1).equals(&**e2),
            (
                ScalarExpression::Unary { op: o1, expr: e1, ty: t1 },
                ScalarExpression::Unary { op: o2, expr: e2, ty: t2 },
            ) => *o1 == *o2 && *t1 == *t2 && (**e1).equals(&**e2),
            (
                ScalarExpression::Binary { op: o1, left_expr: l1, right_expr: r1, ty: t1 },
                ScalarExpression::Binary { op: o2, left_expr: l2, right_expr: r2, ty: t2 },
            ) => *o1 == *o2 && *t1 == *t2 && (**l1).equals(&**l2) && (**r1).equals(&**r2),
            (
                ScalarExpression::AggCall { distinct: d1, kind: k1, args: a1, ty: t1 },
                ScalarExpression::AggCall { distinct: d2, kind: k2, args: a2, ty: t2 },
            ) => {
                proof {
                    lemma_agg_args_view(*a1, *d1, *k1, *t1);
                    lemma_agg_args_view(*a2, *d2, *k2, *t2);
                }
                *d1 == *d2 && *k1 == *k2 && *t1 == *t2 && exprs_equal(a1, a2)
            },
            _ => false,
        }
    }

    pub fn return_type(&self) -> (r: LogicalType)
        ensures
            r == expr_type(self@),
        decreases self,
    {
        match self {
            ScalarExpression::Constant(v) => v.logical_type(),
            ScalarExpression::ColumnRef(c) => *c.datatype(),
            ScalarExpression::InputRef { ty, .. } => *ty,
            ScalarExpression::Alias { expr, .. } => expr.return_type(),
            ScalarExpression::TypeCast { ty, .. } => *ty,
            ScalarExpression::IsNull { .. } => LogicalType::Boolean,
            ScalarExpression::Unary { expr, .. } => expr.return_type(),
            ScalarExpression::Binary { ty, .. } => *ty,
            ScalarExpression::AggCall { ty, .. } => *ty,
        }
    }

    /// Whether the expression computes an aggregate, given how many
    /// aggregates have been taken out into placeholders so far.
    pub fn has_agg_call(&self, n_aggs: usize) -> (r: bool)
        ensures
            r == has_agg(self@, n_aggs as nat),
        decreases self,
    {
        match self {
            ScalarExpression::Constant(_) | ScalarExpression::ColumnRef(_) => false,
            ScalarExpression::InputRef { index, .. } => *index < n_aggs,
            ScalarExpression::AggCall { .. } => true,
            ScalarExpression::Alias { expr, .. } => expr.has_agg_call(n_aggs),
            ScalarExpression::TypeCast { expr, .. } => expr.has_agg_call(n_aggs),
            ScalarExpression::IsNull { expr } => expr.has_agg_call(n_aggs),
            ScalarExpression::Unary { expr, .. } => expr.has_agg_call(n_aggs),
            ScalarExpression::Binary { left_expr, right_expr, .. } => {
                left_expr.has_agg_call(n_aggs) || right_expr.has_agg_call(n_aggs)
            },
        }
    }

    /// The columns the expression reads, in pre-order, with repeats.
    pub fn referenced_columns(&self) -> (r: Vec<ColumnCatalog>)
        ensures
            cols_view(r@) == ref_cols(self@),
        decreases self,
    {
        match self {
            ScalarExpression::Constant(_) | ScalarExpression::InputRef { .. } => {
                let r: Vec<ColumnCatalog> = Vec::new();
                assert(cols_view(r@) =~= Seq::<ColumnV>::empty());
                r
            },
            ScalarExpression::ColumnRef(c) => {
                let r: Vec<ColumnCatalog> = vec![c.clone()];
                assert(cols_view(r@) =~= seq![c@]);
                r
            },
            ScalarExpression::Alias { expr, .. } => expr.referenced_columns(),
            ScalarExpression::TypeCast { expr, .. } => expr.referenced_columns(),
            ScalarExpression::IsNull { expr } => expr.referenced_columns(),
            ScalarExpression::Unary { expr, .. } => expr.referenced_columns(),
            ScalarExpression::Binary { left_expr, right_expr, .. } => {
                let mut l = left_expr.referenced_columns();
                let mut r = right_expr.referenced_columns();
                let ghost l0 = l@;
                let ghost r0 = r@;
                l.append(&mut r);
                assert(cols_view(l@) =~= cols_view(l0) + cols_view(r0));
                l
            },
            ScalarExpression::AggCall { distinct, kind, args, ty } => {
                proof {
                    lemma_agg_args_view(*args, *distinct, *kind, *ty);
                }
                referenced_columns_of_list(args)
            },
        }
    }

    /// A short text naming the expression, for messages.
    pub fn describe(&self) -> (r: String) {
        match self {
            ScalarExpression::ColumnRef(c) => c.name.clone(),
            ScalarExpression::Alias { alias, .. } => alias.clone(),
            _ => "expression".to_owned(),
        }
    }

    /// The expression with one layer of alias taken off.
    pub fn unpack_alias(&self) -> (r: &ScalarExpression)
        ensures
            r@ == unpack_alias_v(self@),
    {
        match self {
            ScalarExpression::Alias { expr, .. } => &**expr,
            _ => self,
        }
    }
}

}
