use vstd::prelude::*;
use crate::aggregate::{
    agg_count_list, count_aggs_seq, extract_aggs_seq, group_by_fold, groupby_legal, having_ok, having_orderby_spec,
    lemma_extract_seq_no_agg,
};
use crate::expression::clone_exprs;
use crate::ast::{Expr, Join, JoinConstraint, JoinOperator as AstJoinOperator, OrderByExpr, Query, Select, SelectItem, SetExpr, TableFactor, TableWithJoins};
use crate::binder::{
    alias_views, qualified_table,
    BindError, Binder, BinderContext, BoundTable, bound, bound_list, bound_table, first_bound, first_table,
    names_view, scope_of, scope_table, tables_wf, Scope,
};
use crate::catalog::{ColumnV, TableCatalog, TableName, has_column_named};
use crate::expression::{BinaryOperator, ExprV, ScalarExpression, contains_agg_call, exprs_view};
use crate::planner::{
    FilterOperator, JoinCondition, JoinOperator, JoinType, LimitOperator, LogicalPlan, Operator, ProjectOperator,
    ScanOperator, SortField, SortOperator, join_nullable_spec, joins_nullable,
};
use crate::types::{DataValue, LogicalType};

verus! {

broadcast use vstd::seq::group_seq_axioms;

/// The column references of a table's columns, in order.
pub open spec fn table_col_refs(t: TableCatalog) -> Seq<ExprV> {
    Seq::new(t.columns@.len(), |i: int| ExprV::ColumnRef(t.columns@[i]@))
}

/// The column references of all bound tables, in binding order.
pub open spec fn all_col_refs(catalog: crate::binder::Catalog, tables: Seq<BoundTable>, n: int) -> Seq<ExprV>
    decreases n,
{
    if n <= 0 {
        Seq::empty()
    } else {
        all_col_refs(catalog, tables, n - 1) + table_col_refs(catalog.tables@[tables[n - 1].table as int])
    }
}

/// The left flag of the last joined table among the first `n` bound tables.
pub open spec fn last_left_flag(tables: Seq<BoundTable>, n: int) -> bool
    decreases n,
{
    if n <= 0 {
        false
    } else {
        match tables[n - 1].join_type {
            Some(jt) => join_nullable_spec(jt).0,
            None => last_left_flag(tables, n - 1),
        }
    }
}

/// Whether the columns of the bound table of the given name are forced to
/// take NULLs by the joins of the statement; none with fewer than two tables.
pub open spec fn forced_nullable(tables: Seq<BoundTable>, name: Seq<char>) -> Option<bool> {
    if tables.len() < 2 {
        None
    } else if exists|i: int| 0 <= i < tables.len() && tables[i].name@ == name {
        let i = choose|i: int| 0 <= i < tables.len() && tables[i].name@ == name;
        match tables[i].join_type {
            Some(jt) => Some(join_nullable_spec(jt).1),
            None => Some(last_left_flag(tables, tables.len() as int)),
        }
    } else {
        None
    }
}

/// A select item after the nullability rewrite.
pub open spec fn rewritten_item(tables: Seq<BoundTable>, e: ExprV) -> ExprV {
    match e {
        ExprV::ColumnRef(c) => match c.table_name {
            Some(t) => match forced_nullable(tables, t) {
                Some(f) => ExprV::ColumnRef(ColumnV { nullable: f, ..c }),
                None => e,
            },
            None => e,
        },
        _ => e,
    }
}

/// For two tables where the second is joined to the first, the right
/// table's columns take NULLs under LEFT and FULL joins, the left table's
/// under RIGHT and FULL joins, and neither under INNER or CROSS joins.
pub proof fn lemma_outer_join_nullability(tables: Seq<BoundTable>, jt: JoinType)
    requires
        tables.len() == 2,
        tables[0].join_type is None,
        tables[1].join_type == Some(jt),
        tables[0].name@ != tables[1].name@,
    ensures
        forced_nullable(tables, tables[1].name@) == Some(jt is Left || jt is Full),
        forced_nullable(tables, tables[0].name@) == Some(jt is Right || jt is Full),
{
    let n1 = tables[1].name@;
    assert(tables[1].name@ == n1);
    let i = choose|i: int| 0 <= i < tables.len() && tables[i].name@ == n1;
    assert(i == 1);
    let n0 = tables[0].name@;
    assert(tables[0].name@ == n0);
    let k = choose|k: int| 0 <= k < tables.len() && tables[k].name@ == n0;
    assert(k == 0);
}

/// Whether a bound literal is a positive integer, and its value.
pub open spec fn positive_int(e: ExprV) -> Option<int> {
    match e {
        ExprV::Constant(crate::types::ValueV::Int32(Some(v))) => if v > 0 { Some(v as int) } else { None },
        ExprV::Constant(crate::types::ValueV::Int64(Some(v))) => if v > 0 { Some(v as int) } else { None },
        _ => None,
    }
}

fn positive_int_of(e: &ScalarExpression) -> (r: Option<usize>)
    ensures
        r matches Some(v) ==> positive_int(e@) matches Some(w) && v == w as usize,
        r is None ==> positive_int(e@) is None,
{
    match e {
        ScalarExpression::Constant(DataValue::Int32(Some(v))) => if *v > 0 { Some(*v as usize) } else { None },
        ScalarExpression::Constant(DataValue::Int64(Some(v))) => if *v > 0 { Some(*v as usize) } else { None },
        _ => None,
    }
}

/// The value of an integer literal.
pub open spec fn lit_value(o: Option<Expr>) -> Option<i64> {
    match o {
        Some(Expr::Value(crate::ast::AstValue::Number(n))) => Some(n),
        _ => None,
    }
}

/// The value of a LIMIT or OFFSET: 0 when absent; where present, it must
/// bind to a positive integer constant.
pub open spec fn limit_arg(sc: Scope, o: Option<Expr>) -> Option<usize> {
    match o {
        None => Some(0),
        Some(e) => match bound(sc, e) {
            Some(x) => match positive_int(x) {
                Some(v) => Some(v as usize),
                None => None,
            },
            None => None,
        },
    }
}

/// Absent, or a positive integer literal.
pub open spec fn arg_ok(o: Option<Expr>) -> bool {
    o is None || (lit_value(o) matches Some(n) && n > 0)
}

pub open spec fn limit_of(p: LogicalPlan) -> usize {
    match p.operator {
        Operator::Limit(l) => l.limit,
        _ => 0,
    }
}

pub open spec fn offset_of(p: LogicalPlan) -> usize {
    match p.operator {
        Operator::Limit(l) => l.offset,
        _ => 0,
    }
}

/// The model of a list of join keys.
pub open spec fn pairs_view(v: Seq<(ScalarExpression, ScalarExpression)>) -> Seq<(ExprV, ExprV)> {
    Seq::new(v.len(), |i: int| (v[i].0@, v[i].1@))
}

/// The equi-join keys and the residual predicates of an `ON` condition;
/// `None` where some part does not bind.
pub open spec fn join_keys(sc: Scope, e: Expr, left: TableCatalog, right: TableCatalog) -> Option<
    (Seq<(ExprV, ExprV)>, Seq<ExprV>),
>
    decreases e,
{
    match e {
        Expr::BinaryOp { left: l, op: BinaryOperator::And, right: r } => match (
            join_keys(sc, *l, left, right),
            join_keys(sc, *r, left, right),
        ) {
            (Some((k1, f1)), Some((k2, f2))) => Some((k1 + k2, f1 + f2)),
            _ => None,
        },
        Expr::BinaryOp { left: l, op: BinaryOperator::Eq, right: r } => match (bound(sc, *l), bound(sc, *r)) {
            (Some(lv), Some(rv)) => match (lv, rv) {
                (ExprV::ColumnRef(a), ExprV::ColumnRef(b)) => if has_column_named(left.columns@, a.name)
                    && has_column_named(right.columns@, b.name) {
                    Some((seq![(lv, rv)], Seq::empty()))
                } else if has_column_named(left.columns@, b.name) && has_column_named(right.columns@, a.name) {
                    Some((seq![(rv, lv)], Seq::empty()))
                } else {
                    residual(sc, e)
                },
                _ => residual(sc, e),
            },
            _ => None,
        },
        _ => residual(sc, e),
    }
}

pub open spec fn residual(sc: Scope, e: Expr) -> Option<(Seq<(ExprV, ExprV)>, Seq<ExprV>)> {
    match bound(sc, e) {
        Some(x) => Some((Seq::empty(), seq![x])),
        None => None,
    }
}

/// The residual predicates joined by AND, left to right.
pub open spec fn and_fold(f: Seq<ExprV>) -> Option<ExprV>
    decreases f.len(),
{
    if f.len() == 0 {
        None
    } else {
        match and_fold(f.drop_last()) {
            None => Some(f.last()),
            Some(acc) => Some(
                ExprV::Binary {
                    op: BinaryOperator::And,
                    left: Box::new(acc),
                    right: Box::new(f.last()),
                    ty: LogicalType::Boolean,
                },
            ),
        }
    }
}

pub open spec fn join_filter_of(k: Option<(Seq<(ExprV, ExprV)>, Seq<ExprV>)>) -> Seq<ExprV> {
    match k {
        Some(p) => p.1,
        None => Seq::empty(),
    }
}

pub open spec fn opt_view(o: Option<ScalarExpression>) -> Option<ExprV> {
    match o {
        Some(e) => Some(e@),
        None => None,
    }
}

/// The parts of a table's name.
pub open spec fn factor_name(t: TableFactor) -> Seq<Seq<char>> {
    match t {
        TableFactor::Table { name, .. } => names_view(name@),
        TableFactor::Derived => Seq::empty(),
    }
}

/// The name a table goes by in the statement: its alias, else the last part of its name.
pub open spec fn factor_bind_name(t: TableFactor) -> Seq<char> {
    match t {
        TableFactor::Table { alias: Some(a), .. } => a@,
        _ => factor_name(t).last(),
    }
}

/// The table a join brings in can be bound: a table of one to three name
/// parts, found in the catalog, under a name not bound yet.
pub open spec fn right_binds(sc: Scope, t: TableFactor) -> bool {
    &&& t is Table
    &&& 1 <= factor_name(t).len() <= 3
    &&& first_bound(sc.tables, factor_bind_name(t), 0) is None
    &&& first_table(sc.catalog.tables@, factor_name(t).last(), 0) is Some
}

/// The left table of a join, by the name it goes by.
/// The left table of a join: a bound table of that name, else a catalog table.
pub open spec fn join_left(sc: Scope, name: Seq<char>) -> TableCatalog {
    qualified_table(sc, name)->Some_0
}

/// The table bound last: the right table of a join.
pub open spec fn join_right(sc: Scope) -> TableCatalog {
    scope_table(sc, sc.tables.len() - 1)
}

pub open spec fn join_constraint_of(op: AstJoinOperator) -> Option<JoinConstraint> {
    match op {
        AstJoinOperator::Inner(c) | AstJoinOperator::LeftOuter(c) | AstJoinOperator::RightOuter(c)
        | AstJoinOperator::FullOuter(c) => Some(c),
        _ => None,
    }
}

/// The join's condition binds: a cross join has none; the others need an
/// `ON` condition whose parts bind.
pub open spec fn join_cond_ok(op: AstJoinOperator, sc: Scope, l: TableCatalog, r: TableCatalog) -> bool {
    match op {
        AstJoinOperator::CrossJoin => true,
        AstJoinOperator::Other => false,
        _ => join_constraint_of(op) matches Some(JoinConstraint::On(e)) && join_keys(sc, e, l, r) is Some,
    }
}

/// The plan of FROM: nothing, a scan, or joins.
pub open spec fn chain_from(p: LogicalPlan, sel: Select) -> bool {
    if sel.from@.len() == 0 {
        p.operator is Dummy
    } else if sel.from@[0].joins@.len() == 0 {
        p.operator is Scan
    } else {
        p.operator is Join
    }
}

/// A WHERE filter, where there is one, over the plan of FROM.
pub open spec fn chain_where(p: LogicalPlan, sel: Select) -> bool {
    if sel.selection is Some {
        p.operator matches Operator::Filter(f) && !f.having && p.childrens@.len() == 1 && chain_from(p.childrens@[0], sel)
    } else {
        chain_from(p, sel)
    }
}

/// The aggregation, where there are aggregate calls or groups, over that:
/// it holds the context's aggregate calls and group-by entries.
pub open spec fn chain_agg(p: LogicalPlan, sel: Select, ctx: BinderContext) -> bool {
    if ctx.agg_calls@.len() > 0 || ctx.group_by_exprs@.len() > 0 {
        &&& p.operator matches Operator::Aggregate(a) && exprs_view(a.agg_calls@) == exprs_view(ctx.agg_calls@)
            && exprs_view(a.groupby_exprs@) == exprs_view(ctx.group_by_exprs@)
        &&& p.childrens@.len() == 1
        &&& chain_where(p.childrens@[0], sel)
    } else {
        chain_where(p, sel)
    }
}

/// The HAVING filter, where there is one, over that.
pub open spec fn chain_having(p: LogicalPlan, sel: Select, ctx: BinderContext) -> bool {
    if sel.having is Some {
        p.operator matches Operator::Filter(f) && f.having && p.childrens@.len() == 1 && chain_agg(
            p.childrens@[0],
            sel,
            ctx,
        )
    } else {
        chain_agg(p, sel, ctx)
    }
}

/// The DISTINCT grouping, where asked for, over that.
pub open spec fn chain_distinct(p: LogicalPlan, sel: Select, ctx: BinderContext) -> bool {
    if sel.distinct {
        p.operator matches Operator::Aggregate(a) && a.agg_calls@.len() == 0 && p.childrens@.len() == 1
            && chain_having(p.childrens@[0], sel, ctx)
    } else {
        chain_having(p, sel, ctx)
    }
}

/// The sort, where there is ORDER BY, over that.
pub open spec fn chain_sort(p: LogicalPlan, sel: Select, n_order: nat, ctx: BinderContext) -> bool {
    if n_order > 0 {
        p.operator matches Operator::Sort(so) && so.sort_fields@.len() == n_order && so.limit is None
            && p.childrens@.len() == 1 && chain_distinct(p.childrens@[0], sel, ctx)
    } else {
        chain_distinct(p, sel, ctx)
    }
}

/// The select list: each expression bound, in the scope of the aliases
/// registered by the items before it; an aliased item registers its alias;
/// each `*` expands to the columns of all bound tables. Gives the items and
/// the aliases registered after them.
pub open spec fn select_list_spec(sc: Scope, items: Seq<SelectItem>) -> Option<(Seq<ExprV>, Seq<(Seq<char>, ExprV)>)>
    decreases items.len(),
{
    if items.len() == 0 {
        Some((Seq::empty(), sc.aliases))
    } else {
        match select_list_spec(sc, items.drop_last()) {
            Some((prev, als)) => {
                let sc2 = Scope { aliases: als, ..sc };
                match items.last() {
                    SelectItem::UnnamedExpr(e) => match bound(sc2, e) {
                        Some(x) => Some((prev.push(x), als)),
                        None => None,
                    },
                    SelectItem::ExprWithAlias { expr, alias } => match bound(sc2, expr) {
                        Some(x) => Some((prev.push(ExprV::Alias { expr: Box::new(x), alias: alias@ }), als.push((alias@, x)))),
                        None => None,
                    },
                    SelectItem::Wildcard => Some(
                        (prev + all_col_refs(sc.catalog, sc.tables, sc.tables.len() as int), als),
                    ),
                    SelectItem::QualifiedWildcard(_) => None,
                }
            },
            None => None,
        }
    }
}

proof fn lemma_select_items_prefix(sc: Scope, items: Seq<SelectItem>, n: int)
    requires
        0 <= n <= items.len(),
        select_list_spec(sc, items.take(n)) is None,
    ensures
        select_list_spec(sc, items) is None,
    decreases items.len() - n,
{
    if n < items.len() {
        assert(items.take(n + 1).drop_last() =~= items.take(n));
        lemma_select_items_prefix(sc, items, n + 1);
    } else {
        assert(items.take(n) =~= items);
    }
}

/// The select items after the join nullability rewrite.
pub open spec fn rewrite_all(tables: Seq<BoundTable>, items: Seq<ExprV>) -> Seq<ExprV> {
    Seq::new(items.len(), |i: int| rewritten_item(tables, items[i]))
}

/// The name a table is bound under, as written in the statement.
pub open spec fn factor_bind_string(t: TableFactor) -> String {
    match t {
        TableFactor::Table { alias: Some(a), .. } => a,
        TableFactor::Table { name, .. } => name@.last(),
        TableFactor::Derived => arbitrary(),
    }
}

/// The plan of a bound SELECT: a projection of `cols` over the chain of
/// `chain_sort`.
pub open spec fn select_plan(p: LogicalPlan, sel: Select, ob: Seq<OrderByExpr>, ctx: BinderContext, cols: Seq<ExprV>) -> bool {
    &&& p.operator matches Operator::Project(pr) && exprs_view(pr.columns@) == cols
    &&& p.childrens@.len() == 1
    &&& chain_sort(p.childrens@[0], sel, ob.len(), ctx)
}

/// The SELECT that is a query's body.
pub open spec fn query_sel(q: Query) -> Select {
    match q.body {
        SetExpr::Select(b) => *b,
        _ => arbitrary(),
    }
}

/// The scope with one more table bound, under the name it goes by.
pub open spec fn scope_push(sc: Scope, t: TableFactor, join_type: Option<JoinType>) -> Scope {
    Scope {
        tables: sc.tables.push(
            BoundTable {
                name: factor_bind_string(t),
                table: first_table(sc.catalog.tables@, factor_name(t).last(), 0)->Some_0 as usize,
                join_type,
            },
        ),
        ..sc
    }
}

/// The joins of FROM bound one after the other, each onto the table named
/// `left`: the scope afterwards, `None` where one does not bind.
pub open spec fn joins_scope(sc: Scope, left: Seq<char>, js: Seq<Join>) -> Option<Scope>
    decreases js.len(),
{
    if js.len() == 0 {
        Some(sc)
    } else {
        match joins_scope(sc, left, js.drop_last()) {
            Some(sck) => {
                let j = js.last();
                if !(j.join_operator is Other) && right_binds(sck, j.relation) {
                    let sc2 = scope_push(sck, j.relation, Some(join_type_of(j.join_operator)));
                    if qualified_table(sc2, left) is Some && join_cond_ok(
                        j.join_operator,
                        sc2,
                        join_left(sc2, left),
                        join_right(sc2),
                    ) {
                        Some(sc2)
                    } else {
                        None
                    }
                } else {
                    None
                }
            },
            None => None,
        }
    }
}

proof fn lemma_joins_scope_prefix(sc: Scope, left: Seq<char>, js: Seq<Join>, n: int)
    requires
        0 <= n <= js.len(),
        joins_scope(sc, left, js.take(n)) is None,
    ensures
        joins_scope(sc, left, js) is None,
    decreases js.len() - n,
{
    if n < js.len() {
        assert(js.take(n + 1).drop_last() =~= js.take(n));
        lemma_joins_scope_prefix(sc, left, js, n + 1);
    } else {
        assert(js.take(n) =~= js);
    }
}

/// The scope after binding FROM: no table, or one table and its joins.
pub open spec fn from_scope(sc: Scope, from: Seq<TableWithJoins>) -> Option<Scope> {
    if from.len() == 0 {
        Some(sc)
    } else if from.len() == 1 && right_binds(sc, from[0].relation) {
        joins_scope(scope_push(sc, from[0].relation, None), factor_bind_name(from[0].relation), from[0].joins@)
    } else {
        None
    }
}

/// The plan of FROM with `n` joins: scans joined left-deep.
pub open spec fn joined_plan(p: LogicalPlan, n: nat) -> bool
    decreases n,
{
    if n == 0 {
        p.operator is Scan
    } else {
        &&& p.operator is Join
        &&& p.childrens@.len() == 2
        &&& joined_plan(p.childrens@[0], (n - 1) as nat)
        &&& p.childrens@[1].operator is Scan
    }
}

/// FROM and the select list bound: the scope with the select-list aliases,
/// and the select items after the join nullability rewrite.
pub open spec fn select_stage(sc: Scope, sel: Select) -> Option<(Scope, Seq<ExprV>)> {
    match from_scope(sc, sel.from@) {
        Some(sc1) => match select_list_spec(sc1, sel.projection@) {
            Some((items, als)) => Some((Scope { aliases: als, ..sc1 }, rewrite_all(sc1.tables, items))),
            None => None,
        },
        None => None,
    }
}

pub open spec fn where_binds(sc: Scope, sel: Select) -> bool {
    sel.selection matches Some(w) ==> bound(sc, w) is Some
}

/// The select list once its aggregate calls are taken out, and the calls.
pub open spec fn select_extracted(sc: Scope, sel: Select, ai: nat) -> Option<(Scope, Seq<ExprV>, Seq<ExprV>)> {
    match select_stage(sc, sel) {
        Some((sc2, rw)) => if where_binds(sc2, sel) && ai + count_aggs_seq(rw) <= usize::MAX {
            Some((sc2, extract_aggs_seq(rw, ai).0, extract_aggs_seq(rw, ai).1))
        } else {
            None
        },
        None => None,
    }
}

/// Everything up to GROUP BY binds, and GROUP BY is not legal: the binding
/// fails with `AggMiss`.
pub open spec fn select_groupby_illegal(sc: Scope, sel: Select, ai: nat, gi: nat, n_aggs: nat) -> bool {
    &&& select_extracted(sc, sel, ai) matches Some((sc2, ex, a1))
    &&& sel.group_by@.len() > 0
    &&& gi + sel.group_by@.len() <= usize::MAX
    &&& bound_list(sc2, sel.group_by@) matches Some(b)
    &&& !groupby_legal(ex, b, n_aggs + a1.len())
}

/// A SELECT bound in full: the projected
/// columns, and the aggregate calls and group-by entries of the context
/// afterwards. `None` exactly when binding fails.
pub open spec fn select_spec(
    sc: Scope,
    ai: nat,
    gi: nat,
    aggs0: Seq<ExprV>,
    gbs0: Seq<ExprV>,
    sel: Select,
    ob: Seq<OrderByExpr>,
) -> Option<(Seq<ExprV>, Seq<ExprV>, Seq<ExprV>)> {
    match select_extracted(sc, sel, ai) {
        Some((sc2, ex, a1)) => {
            let grp = if sel.group_by@.len() == 0 {
                Some((ex, Seq::<ExprV>::empty()))
            } else if gi + sel.group_by@.len() > usize::MAX {
                None
            } else {
                match bound_list(sc2, sel.group_by@) {
                    Some(b) => if groupby_legal(ex, b, aggs0.len() + a1.len()) {
                        Some((group_by_fold(ex, b, gi).0, group_by_fold(ex, b, gi).1))
                    } else {
                        None
                    },
                    None => None,
                }
            };
            let ai2 = ai + a1.len();
            let ho = if sel.having is Some || ob.len() > 0 {
                match having_orderby_spec(sc2, sel.having, ob, ai2) {
                    Some((hv, es, a2)) => if ai2 + a2.len() <= usize::MAX {
                        Some((hv, a2))
                    } else {
                        None
                    },
                    None => None,
                }
            } else {
                Some((None::<ExprV>, Seq::<ExprV>::empty()))
            };
            match (grp, ho) {
                (Some((cols, g)), Some((hv, a2))) => {
                    let aggs = aggs0 + a1 + a2;
                    let groups = gbs0 + g;
                    if hv matches Some(h) && !having_ok(h, groups, aggs) {
                        None
                    } else {
                        Some((cols, aggs, groups))
                    }
                },
                _ => None,
            }
        },
        None => None,
    }
}

/// The context is the same but for the bound tables.
pub open spec fn same_but_tables(a: BinderContext, b: BinderContext) -> bool {
    &&& a.catalog == b.catalog
    &&& a.aliases == b.aliases
    &&& a.agg_calls == b.agg_calls
    &&& a.group_by_exprs == b.group_by_exprs
    &&& a.agg_index == b.agg_index
    &&& a.group_by_index == b.group_by_index
}

/// A join key pair: a column of the left table, then one of the right table.
pub open spec fn key_oriented(k: (ScalarExpression, ScalarExpression), left: TableCatalog, right: TableCatalog) -> bool {
    &&& k.0@ matches ExprV::ColumnRef(a) && has_column_named(left.columns@, a.name)
    &&& k.1@ matches ExprV::ColumnRef(b) && has_column_named(right.columns@, b.name)
}

pub open spec fn join_type_of(op: AstJoinOperator) -> JoinType {
    match op {
        AstJoinOperator::LeftOuter(_) => JoinType::Left,
        AstJoinOperator::RightOuter(_) => JoinType::Right,
        AstJoinOperator::FullOuter(_) => JoinType::Full,
        AstJoinOperator::CrossJoin => JoinType::Cross,
        _ => JoinType::Inner,
    }
}

/// Column references to all columns of a table, in order.
pub fn col_refs_of(t: &TableCatalog) -> (r: Vec<ScalarExpression>)
    ensures
        exprs_view(r@) == table_col_refs(*t),
{
    let mut r: Vec<ScalarExpression> = Vec::new();
    let mut i: usize = 0;
    while i < t.columns.len()
        invariant
            0 <= i <= t.columns@.len(),
            r@.len() == i,
            forall|k: int| 0 <= k < i ==> r@[k]@ == ExprV::ColumnRef(t.columns@[k]@),
        decreases t.columns@.len() - i,
    {
        r.push(ScalarExpression::ColumnRef(t.columns[i].clone()));
        i = i + 1;
    }
    assert(exprs_view(r@) =~= table_col_refs(*t));
    r
}

impl<'a> Binder<'a> {
    pub fn bind_project(&mut self, children: LogicalPlan, select_list: Vec<ScalarExpression>) -> (r: LogicalPlan)
        ensures
            r.operator == Operator::Project(ProjectOperator { columns: select_list }),
            r.childrens@ == seq![children],
            final(self).context == old(self).context,
    {
        let mut childrens: Vec<LogicalPlan> = Vec::new();
        childrens.push(children);
        LogicalPlan { operator: Operator::Project(ProjectOperator { columns: select_list }), childrens }
    }

    pub fn bind_sort(&mut self, children: LogicalPlan, sort_fields: Vec<SortField>) -> (r: LogicalPlan)
        ensures
            r.operator == Operator::Sort(SortOperator { sort_fields, limit: None }),
            r.childrens@ == seq![children],
            final(self).context == old(self).context,
    {
        let mut childrens: Vec<LogicalPlan> = Vec::new();
        childrens.push(children);
        LogicalPlan { operator: Operator::Sort(SortOperator { sort_fields, limit: None }), childrens }
    }

    /// `DISTINCT`: a grouping by every select item, with no aggregate.
    pub fn bind_distinct(&mut self, children: LogicalPlan, select_list: Vec<ScalarExpression>) -> (r: LogicalPlan)
        ensures
            r.operator matches Operator::Aggregate(a) && a.agg_calls@.len() == 0 && a.groupby_exprs == select_list,
            r.childrens@ == seq![children],
            final(self).context == old(self).context,
    {
        self.bind_aggregate(children, Vec::new(), select_list)
    }

    /// A HAVING filter, checked against the grouping.
    pub fn bind_having(&mut self, children: LogicalPlan, having: ScalarExpression) -> (r: Result<LogicalPlan, BindError>)
        ensures
            r is Ok <==> crate::aggregate::having_ok(
                having@,
                exprs_view(old(self).context.group_by_exprs@),
                exprs_view(old(self).context.agg_calls@),
            ),
            r is Err ==> r matches Err(BindError::AggMiss(_)),
            r matches Ok(p) ==> p.operator == Operator::Filter(FilterOperator { predicate: having, having: true })
                && p.childrens@ == seq![children],
            final(self).context == old(self).context,
    {
        self.validate_having_orderby(&having)?;
        let mut childrens: Vec<LogicalPlan> = Vec::new();
        childrens.push(children);
        Ok(LogicalPlan { operator: Operator::Filter(FilterOperator { predicate: having, having: true }), childrens })
    }

    /// A WHERE filter.
    pub fn bind_where(&mut self, children: LogicalPlan, predicate: &Expr) -> (r: Result<LogicalPlan, BindError>)
        requires
            tables_wf(old(self).context),
        ensures
            r matches Ok(p) ==> p.operator matches Operator::Filter(f) && !f.having && p.childrens@ == seq![children]
                && bound(scope_of(old(self).context), *predicate) == Some(f.predicate@),
            r is Ok <==> bound(scope_of(old(self).context), *predicate) is Some,
            final(self).context == old(self).context,
    {
        let e = self.bind_expr(predicate)?;
        let mut childrens: Vec<LogicalPlan> = Vec::new();
        childrens.push(children);
        Ok(LogicalPlan { operator: Operator::Filter(FilterOperator { predicate: e, having: false }), childrens })
    }

    /// LIMIT and OFFSET: each, where present, must be a positive integer
    /// literal; an absent one counts as 0.
    pub fn bind_limit(&mut self, children: LogicalPlan, limit_expr: &Option<Expr>, offset_expr: &Option<Expr>) -> (r:
        Result<LogicalPlan, BindError>)
        requires
            tables_wf(old(self).context),
        ensures
            final(self).context == old(self).context,
            r matches Ok(p) ==> p.operator matches Operator::Limit(l) && p.childrens@ == seq![children] && (
            limit_expr is None ==> l.limit == 0) && (offset_expr is None ==> l.offset == 0),
            lit_value(*limit_expr) matches Some(n) && n <= 0 ==> r matches Err(BindError::InvalidColumn(_)),
            arg_ok(*limit_expr) ==> (lit_value(*offset_expr) matches Some(n) && n <= 0 ==> r matches Err(BindError::InvalidColumn(_))),
            r matches Ok(p) ==> (lit_value(*limit_expr) matches Some(n) ==> limit_of(p) == n as usize),
            r matches Ok(p) ==> (lit_value(*offset_expr) matches Some(n) ==> offset_of(p) == n as usize),
            arg_ok(*limit_expr) && arg_ok(*offset_expr) ==> r is Ok,
            r is Ok <==> limit_arg(scope_of(old(self).context), *limit_expr) is Some && limit_arg(scope_of(old(self).context),
                *offset_expr,
            ) is Some,
            r matches Ok(p) ==> Some(limit_of(p)) == limit_arg(scope_of(old(self).context), *limit_expr) && Some(offset_of(p))
                == limit_arg(scope_of(old(self).context), *offset_expr),
            *limit_expr matches Some(e) && bound(scope_of(old(self).context), e) matches Some(x) && positive_int(x) is None
                ==> r matches Err(BindError::InvalidColumn(_)),
            limit_arg(scope_of(old(self).context), *limit_expr) is Some ==> (*offset_expr matches Some(e) && bound(scope_of(old(self).context),
                e,
            ) matches Some(x) && positive_int(x) is None ==> r matches Err(BindError::InvalidColumn(_))),
    {
        let mut limit: usize = 0;
        let mut offset: usize = 0;
        if let Some(expr) = limit_expr {
            let e = self.bind_expr(expr)?;
            match positive_int_of(&e) {
                Some(v) => limit = v,
                None => {
                    return Err(BindError::InvalidColumn("invalid limit expression".to_owned()));
                },
            }
        }
        if let Some(expr) = offset_expr {
            let e = self.bind_expr(expr)?;
            match positive_int_of(&e) {
                Some(v) => offset = v,
                None => {
                    return Err(BindError::InvalidColumn("invalid offset expression".to_owned()));
                },
            }
        }
        let mut childrens: Vec<LogicalPlan> = Vec::new();
        childrens.push(children);
        Ok(LogicalPlan { operator: Operator::Limit(LimitOperator { offset, limit }), childrens })
    }

    /// Registers a table under the name it goes by in the statement and
    /// returns a scan of all its columns.
    pub fn _bind_single_table_ref(&mut self, join_type: Option<JoinType>, table: &String, bind_name: &String) -> (r:
        Result<(TableName, LogicalPlan), BindError>)
        requires
            tables_wf(old(self).context),
        ensures
            tables_wf(final(self).context),
            same_but_tables(old(self).context, final(self).context),
            (exists|i: int| 0 <= i < old(self).context.bind_table@.len() && old(self).context.bind_table@[i].name@ == bind_name@)
                ==> r matches Err(BindError::InvalidTable(_)),
            r is Err ==> final(self).context.bind_table == old(self).context.bind_table,
            r is Err ==> r matches Err(BindError::InvalidTable(_)),
            first_table(old(self).context.catalog.tables@, table@, 0) is None ==> r matches Err(BindError::InvalidTable(_)),
            r is Ok <==> first_bound(old(self).context.bind_table@, bind_name@, 0) is None && first_table(
                old(self).context.catalog.tables@,
                table@,
                0,
            ) is Some,
            r is Ok ==> final(self).context.bind_table@ == old(self).context.bind_table@.push(
                BoundTable {
                    name: *bind_name,
                    table: first_table(old(self).context.catalog.tables@, table@, 0)->Some_0 as usize,
                    join_type,
                },
            ),
            r is Ok ==> Some(final(self).context.bind_table@.last().table as int) == first_table(
                old(self).context.catalog.tables@,
                table@,
                0,
            ),
            r matches Ok((n, p)) ==> {
                &&& n@ == bind_name@
                &&& final(self).context.bind_table@.len() == old(self).context.bind_table@.len() + 1
                &&& final(self).context.bind_table@.drop_last() == old(self).context.bind_table@
                &&& final(self).context.bind_table@.last().name@ == bind_name@
                &&& final(self).context.bind_table@.last().join_type == join_type
                &&& bound_table(final(self).context, old(self).context.bind_table@.len() as int).name@ == table@
                &&& p.operator matches Operator::Scan(s) && s.table_name@ == bind_name@ && exprs_view(s.columns@) == table_col_refs(
                    bound_table(final(self).context, old(self).context.bind_table@.len() as int),
                )
                &&& p.childrens@.len() == 0
            },
    {
        if let Some(_) = self.find_bound_table(bind_name) {
            return Err(BindError::InvalidTable(bind_name.clone()));
        }
        let catalog = self.context.catalog;
        let t = match catalog.table_catalog(table) {
            Some(t) => t,
            None => {
                return Err(BindError::InvalidTable(table.clone()));
            },
        };
        let columns = col_refs_of(&catalog.tables[t]);
        let ghost b0 = self.context.bind_table@;
        self.context.bind_table.push(BoundTable { name: bind_name.clone(), table: t, join_type });
        proof {
            assert forall|i: int, j: int|
                0 <= i < j < self.context.bind_table@.len() implies (#[trigger] self.context.bind_table@[i]).name@
                    != (#[trigger] self.context.bind_table@[j]).name@ by {
                if j == b0.len() {
                    assert(b0[i].name@ != bind_name@);
                } else {
                    assert(b0[i] == self.context.bind_table@[i] && b0[j] == self.context.bind_table@[j]);
                }
            }
            assert(self.context.bind_table@.drop_last() =~= b0);
        }
        let mut childrens: Vec<LogicalPlan> = Vec::new();
        Ok((bind_name.clone(), LogicalPlan { operator: Operator::Scan(ScanOperator { table_name: bind_name.clone(), columns }), childrens }))
    }

    /// Binds a table of `FROM` with its optional alias: a name of one to
    /// three parts, the last naming the table.
    pub fn bind_single_table_ref(&mut self, table: &TableFactor, join_type: Option<JoinType>) -> (r: Result<
        (TableName, LogicalPlan),
        BindError,
    >)
        requires
            tables_wf(old(self).context),
        ensures
            tables_wf(final(self).context),
            same_but_tables(old(self).context, final(self).context),
            final(self).context.bind_table@.len() <= old(self).context.bind_table@.len() + 1,
            old(self).context.bind_table@ == final(self).context.bind_table@.subrange(0, old(self).context.bind_table@.len() as int),
            *table matches TableFactor::Table { name, .. } && (name@.len() == 0 || name@.len() > 3) ==> r matches Err(
                BindError::InvalidTableName(_),
            ),
            table is Derived ==> r matches Err(BindError::Unsupported(_)),
            r is Ok ==> final(self).context.bind_table@ == old(self).context.bind_table@.push(
                BoundTable {
                    name: factor_bind_string(*table),
                    table: first_table(old(self).context.catalog.tables@, factor_name(*table).last(), 0)->Some_0 as usize,
                    join_type,
                },
            ),
            r matches Err(BindError::InvalidTableName(parts)) ==> *table matches TableFactor::Table { name, .. }
                && names_view(parts@) == names_view(name@),
            table is Table && 1 <= factor_name(*table).len() <= 3 ==> {
                &&& r is Ok <==> first_bound(old(self).context.bind_table@, factor_bind_name(*table), 0) is None
                    && first_table(old(self).context.catalog.tables@, factor_name(*table).last(), 0) is Some
                &&& r matches Ok((n, p)) ==> n@ == factor_bind_name(*table) && Some(
                    final(self).context.bind_table@.last().table as int,
                ) == first_table(old(self).context.catalog.tables@, factor_name(*table).last(), 0)
            },
            r matches Ok((n, p)) ==> final(self).context.bind_table@.len() == old(self).context.bind_table@.len() + 1
                && final(self).context.bind_table@.last().name@ == n@ && final(self).context.bind_table@.last().join_type == join_type
                && p.operator is Scan,
            r matches Ok((n, p)) ==> p.operator matches Operator::Scan(s) && s.table_name@ == n@ && exprs_view(s.columns@) == table_col_refs(
                bound_table(final(self).context, old(self).context.bind_table@.len() as int),
            ) && p.childrens@.len() == 0,
            r is Err ==> final(self).context.bind_table == old(self).context.bind_table,
    {
        match table {
            TableFactor::Table { name, alias } => {
                let n = name.len();
                if n == 0 || n > 3 {
                    let mut parts: Vec<String> = Vec::new();
                    let mut i: usize = 0;
                    while i < n
                        invariant
                            0 <= i <= n,
                            n == name@.len(),
                            parts@.len() == i,
                            forall|k: int| 0 <= k < i ==> parts@[k]@ == name@[k]@,
                        decreases n - i,
                    {
                        parts.push(name[i].clone());
                        i = i + 1;
                    }
                    assert(names_view(parts@) =~= names_view(name@));
                    return Err(BindError::InvalidTableName(parts));
                }
                let table_name = &name[n - 1];
                let bind_name = match alias {
                    Some(a) => a,
                    None => table_name,
                };
                assert(*bind_name == factor_bind_string(*table));
                assert(table_name@ == factor_name(*table).last());
                let r = self._bind_single_table_ref(join_type, table_name, bind_name);
                proof {
                    assert(old(self).context.bind_table@ =~= self.context.bind_table@.subrange(0, old(self).context.bind_table@.len() as int));
                }
                r
            },
            TableFactor::Derived => Err(BindError::Unsupported("subquery in FROM".to_owned())),
        }
    }

    /// The plan of `FROM`: one table and the tables joined to it, or none.
    pub fn bind_table_ref(&mut self, from: &Vec<TableWithJoins>) -> (r: Result<LogicalPlan, BindError>)
        requires
            tables_wf(old(self).context),
        ensures
            tables_wf(final(self).context),
            same_but_tables(old(self).context, final(self).context),
            from@.len() > 1 ==> r matches Err(BindError::Unsupported(_)),
            from@.len() == 0 ==> (r matches Ok(p) && p.operator is Dummy && p.childrens@.len() == 0),
            from@.len() == 1 && from@[0].joins@.len() == 0 ==> (r matches Ok(p) ==> p.operator is Scan),
            from@.len() == 0 ==> final(self).context == old(self).context,
            from@.len() == 1 && from@[0].joins@.len() == 0 ==> (r is Ok <==> right_binds(scope_of(old(self).context),
                from@[0].relation,
            )),
            from@.len() == 1 && from@[0].joins@.len() == 0 ==> (r matches Ok(p) ==> p.operator matches Operator::Scan(
                sc,
            ) && exprs_view(sc.columns@) == table_col_refs(
                bound_table(final(self).context, old(self).context.bind_table@.len() as int),
            ) && p.childrens@.len() == 0),
            r is Ok <==> from_scope(scope_of(old(self).context), from@) is Some,
            r is Ok ==> Some(scope_of(final(self).context)) == from_scope(scope_of(old(self).context), from@),
            from@.len() == 1 ==> (r matches Ok(p) ==> joined_plan(p, from@[0].joins@.len() as nat)),
            from@.len() == 1 ==> (r is Ok ==> final(self).context.bind_table@.len() == old(self).context.bind_table@.len()
                + 1 + from@[0].joins@.len()),
            from@.len() == 1 && from@[0].joins@.len() > 0 ==> (r matches Ok(p) ==> p.operator is Join),
    {
        if from.len() > 1 {
            return Err(BindError::Unsupported("more than one table in FROM".to_owned()));
        }
        if from.len() == 0 {
            return Ok(LogicalPlan { operator: Operator::Dummy, childrens: Vec::new() });
        }
        let first = &from[0];
        let ghost sc0 = scope_of(self.context);
        let (left_name, plan) = self.bind_single_table_ref(&first.relation, None)?;
        let ghost tables1 = self.context.bind_table;
        let ghost sc1 = scope_of(self.context);
        assert(sc1 == scope_push(sc0, first.relation, None));
        assert(right_binds(sc0, first.relation));
        assert(first.joins@.take(0) =~= Seq::<Join>::empty());
        let mut plan = plan;
        let mut i: usize = 0;
        while i < first.joins.len()
            invariant
                0 <= i <= first.joins@.len(),
                first == &from@[0],
                from@.len() == 1,
                tables_wf(self.context),
                same_but_tables(old(self).context, self.context),
                i == 0 ==> plan.operator is Scan,
                i > 0 ==> plan.operator is Join,
                i == 0 ==> (plan.operator matches Operator::Scan(sc) && exprs_view(sc.columns@) == table_col_refs(
                    bound_table(self.context, old(self).context.bind_table@.len() as int),
                ) && plan.childrens@.len() == 0),
                self.context.bind_table@.len() == old(self).context.bind_table@.len() + 1 + i,
                i == 0 ==> self.context.bind_table == tables1,
                sc0 == scope_of(old(self).context),
                right_binds(sc0, first.relation),
                sc1 == scope_push(sc0, first.relation, None),
                left_name@ == factor_bind_name(first.relation),
                joins_scope(sc1, left_name@, first.joins@.take(i as int)) == Some(scope_of(self.context)),
                joined_plan(plan, i as nat),
            decreases first.joins@.len() - i,
        {
            let ghost before = scope_of(self.context);
            proof {
                assert(first.joins@.take(i as int + 1).drop_last() =~= first.joins@.take(i as int));
                assert(first.joins@.take(i as int + 1).last() == first.joins@[i as int]);
            }
            let ghost prev_plan = plan;
            plan = match self.bind_join(&left_name, plan, &first.joins[i]) {
                Ok(p) => p,
                Err(e) => {
                    proof {
                        let j = first.joins@[i as int];
                        if !(j.join_operator is Other) && right_binds(before, j.relation) {
                            assert(scope_of(self.context) == scope_push(before, j.relation, Some(join_type_of(j.join_operator))));
                        }
                        assert(joins_scope(sc1, left_name@, first.joins@.take(i as int + 1)) is None);
                        lemma_joins_scope_prefix(sc1, left_name@, first.joins@, i as int + 1);
                    }
                    return Err(e);
                },
            };
            assert(joins_scope(sc1, left_name@, first.joins@.take(i as int + 1)) == Some(scope_of(self.context)));
            i = i + 1;
        }
        assert(first.joins@.take(first.joins@.len() as int) =~= first.joins@);
        Ok(plan)
    }

    /// A join of `left` with the table of `join`, with its join keys and
    /// residual filter.
    pub fn bind_join(&mut self, left_table: &TableName, left: LogicalPlan, join: &Join) -> (r: Result<
        LogicalPlan,
        BindError,
    >)
        requires
            tables_wf(old(self).context),
        ensures
            tables_wf(final(self).context),
            same_but_tables(old(self).context, final(self).context),
            join.join_operator is Other ==> r matches Err(BindError::Unsupported(_)),
            r matches Ok(p) ==> p.operator matches Operator::Join(j) && p.childrens@.len() == 2 && p.childrens@[0]
                == left && j.join_type == join_type_of(join.join_operator) && (join.join_operator is CrossJoin
                <==> j.on is NoCondition),
            r is Ok <==> {
                &&& !(join.join_operator is Other)
                &&& right_binds(scope_of(old(self).context), join.relation)
                &&& qualified_table(scope_of(final(self).context), left_table@) is Some
                &&& join_cond_ok(
                    join.join_operator,
                    scope_of(final(self).context),
                    join_left(scope_of(final(self).context), left_table@),
                    join_right(scope_of(final(self).context)),
                )
            },
            !(join.join_operator is Other) && right_binds(scope_of(old(self).context), join.relation) ==> scope_of(
                final(self).context,
            ) == scope_push(scope_of(old(self).context), join.relation, Some(join_type_of(join.join_operator))),
            r is Ok ==> final(self).context.bind_table@ == old(self).context.bind_table@.push(
                BoundTable {
                    name: factor_bind_string(join.relation),
                    table: first_table(old(self).context.catalog.tables@, factor_name(join.relation).last(), 0)->Some_0 as usize,
                    join_type: Some(join_type_of(join.join_operator)),
                },
            ),
            r is Ok ==> {
                &&& final(self).context.bind_table@.len() == old(self).context.bind_table@.len() + 1
                &&& final(self).context.bind_table@.drop_last() == old(self).context.bind_table@
                &&& final(self).context.bind_table@.last().join_type == Some(join_type_of(join.join_operator))
            },
            r matches Ok(p) ==> p.childrens@[1].operator matches Operator::Scan(s) && exprs_view(s.columns@)
                == table_col_refs(join_right(scope_of(final(self).context))),
            r matches Ok(p) ==> (join_constraint_of(join.join_operator) matches Some(JoinConstraint::On(e))
                ==> p.operator matches Operator::Join(j) && j.on matches JoinCondition::On { on, filter } && join_keys(scope_of(final(self).context),
                e,
                join_left(scope_of(final(self).context), left_table@),
                join_right(scope_of(final(self).context)),
            ) matches Some((keys, residuals)) && pairs_view(on@) == keys && opt_view(filter) == and_fold(residuals)),
    {
        let (join_type, constraint) = match &join.join_operator {
            AstJoinOperator::Inner(c) => (JoinType::Inner, Some(c)),
            AstJoinOperator::LeftOuter(c) => (JoinType::Left, Some(c)),
            AstJoinOperator::RightOuter(c) => (JoinType::Right, Some(c)),
            AstJoinOperator::FullOuter(c) => (JoinType::Full, Some(c)),
            AstJoinOperator::CrossJoin => (JoinType::Cross, None),
            AstJoinOperator::Other => {
                return Err(BindError::Unsupported("join operator".to_owned()));
            },
        };
        let (right_table, right) = self.bind_single_table_ref(&join.relation, Some(join_type))?;
        let catalog = self.context.catalog;
        let left_catalog = match self.find_bound_table(left_table) {
            Some(i) => &catalog.tables[self.context.bind_table[i].table],
            None => match catalog.table_catalog(left_table) {
                Some(t) => &catalog.tables[t],
                None => {
                    return Err(BindError::InvalidTable(left_table.clone()));
                },
            },
        };
        assert(*left_catalog == join_left(scope_of(self.context), left_table@));
        let r = self.context.bind_table[self.context.bind_table.len() - 1].table;
        let on = match constraint {
            Some(c) => self.bind_join_constraint(left_catalog, &catalog.tables[r], c)?,
            None => JoinCondition::NoCondition,
        };
        let mut childrens: Vec<LogicalPlan> = Vec::new();
        childrens.push(left);
        childrens.push(right);
        Ok(LogicalPlan { operator: Operator::Join(JoinOperator { on, join_type }), childrens })
    }

    /// An `ON` condition: its equi-join keys, oriented left table first,
    /// and the conjunction of the rest.
    pub fn bind_join_constraint(&self, left_table: &TableCatalog, right_table: &TableCatalog, constraint: &JoinConstraint)
        -> (r: Result<JoinCondition, BindError>)
        requires
            tables_wf(self.context),
        ensures
            !(constraint is On) ==> r matches Err(BindError::Unsupported(_)),
            r matches Ok(c) ==> c matches JoinCondition::On { on, .. } && forall|k: int|
                0 <= k < on@.len() ==> key_oriented(#[trigger] on@[k], *left_table, *right_table),
            *constraint matches JoinConstraint::On(e) ==> (r is Ok <==> join_keys(scope_of(self.context),
                e,
                *left_table,
                *right_table,
            ) is Some),
            *constraint matches JoinConstraint::On(e) ==> (r matches Ok(JoinCondition::On { on, filter }) ==> join_keys(scope_of(self.context),
                e,
                *left_table,
                *right_table,
            ) == Some((pairs_view(on@), join_filter_of(join_keys(scope_of(self.context), e, *left_table, *right_table))))
                && opt_view(filter) == and_fold(join_keys(scope_of(self.context), e, *left_table, *right_table)->Some_0.1)),
    {
        match constraint {
            JoinConstraint::On(expr) => {
                let mut on_keys: Vec<(ScalarExpression, ScalarExpression)> = Vec::new();
                let mut filter: Vec<ScalarExpression> = Vec::new();
                self.extract_join_keys(expr, &mut on_keys, &mut filter, left_table, right_table)?;
                assert(pairs_view(on_keys@).subrange(0, on_keys@.len() as int) =~= pairs_view(on_keys@));
                let ghost fv = exprs_view(filter@);
                assert(fv.subrange(0, filter@.len() as int) =~= fv);
                let mut join_filter: Option<ScalarExpression> = None;
                let mut rest = filter;
                let ghost f0 = rest@;
                while rest.len() > 0
                    invariant
                        fv == exprs_view(f0),
                        rest@.len() <= f0.len(),
                        rest@ == f0.subrange(f0.len() - rest@.len(), f0.len() as int),
                        opt_view(join_filter) == and_fold(fv.take(f0.len() - rest@.len())),
                    decreases rest@.len(),
                {
                    let ghost k = f0.len() - rest@.len();
                    assert(fv.take(k + 1).drop_last() =~= fv.take(k));
                    let e = rest.remove(0);
                    assert(e == f0[k]);
                    assert(rest@ =~= f0.subrange(f0.len() - rest@.len(), f0.len() as int));
                    join_filter = match join_filter {
                        None => Some(e),
                        Some(acc) => Some(
                            ScalarExpression::Binary {
                                op: BinaryOperator::And,
                                left_expr: Box::new(acc),
                                right_expr: Box::new(e),
                                ty: LogicalType::Boolean,
                            },
                        ),
                    };
                }
                assert(fv.take(f0.len() as int) =~= fv);
                Ok(JoinCondition::On { on: on_keys, filter: join_filter })
            },
            _ => Err(BindError::Unsupported("join constraint".to_owned())),
        }
    }

    /// Splits an `ON` condition into equi-join keys and residual
    /// predicates: an equality of two columns, one of each table, is a key
    /// (left table's column first); `AND` is split; anything else is a
    /// residual.
    pub fn extract_join_keys(
        &self,
        expr: &Expr,
        accum: &mut Vec<(ScalarExpression, ScalarExpression)>,
        accum_filter: &mut Vec<ScalarExpression>,
        left_schema: &TableCatalog,
        right_schema: &TableCatalog,
    ) -> (r: Result<(), BindError>)
        requires
            tables_wf(self.context),
        ensures
            final(accum)@.len() >= old(accum)@.len(),
            final(accum)@.subrange(0, old(accum)@.len() as int) == old(accum)@,
            forall|k: int|
                old(accum)@.len() <= k < final(accum)@.len() ==> key_oriented(
                    #[trigger] final(accum)@[k],
                    *left_schema,
                    *right_schema,
                ),
            final(accum_filter)@.len() >= old(accum_filter)@.len(),
            final(accum_filter)@.subrange(0, old(accum_filter)@.len() as int) == old(accum_filter)@,
            !(expr is BinaryOp) ==> (r is Ok ==> final(accum)@ == old(accum)@ && final(accum_filter)@.len()
                == old(accum_filter)@.len() + 1),
            r is Ok <==> join_keys(scope_of(self.context), *expr, *left_schema, *right_schema) is Some,
            r is Ok ==> join_keys(scope_of(self.context), *expr, *left_schema, *right_schema) == Some(
                (
                    pairs_view(final(accum)@).subrange(old(accum)@.len() as int, final(accum)@.len() as int),
                    exprs_view(final(accum_filter)@).subrange(
                        old(accum_filter)@.len() as int,
                        final(accum_filter)@.len() as int,
                    ),
                ),
            ),
        decreases expr,
    {
        let ghost a0 = accum@;
        let ghost f0 = accum_filter@;
        let ghost ctx = self.context;
        match expr {
            Expr::BinaryOp { left, op: BinaryOperator::And, right } => {
                self.extract_join_keys(left, accum, accum_filter, left_schema, right_schema)?;
                let ghost a1 = accum@;
                let ghost f1 = accum_filter@;
                let r2 = self.extract_join_keys(right, accum, accum_filter, left_schema, right_schema);
                assert(accum@.subrange(0, a0.len() as int) =~= a1.subrange(0, a0.len() as int));
                assert forall|k: int| a0.len() <= k < accum@.len() implies key_oriented(
                    #[trigger] accum@[k],
                    *left_schema,
                    *right_schema,
                ) by {
                    if k < a1.len() {
                        assert(accum@.subrange(0, a1.len() as int)[k] == a1[k]);
                    }
                }
                assert(accum_filter@.subrange(0, f0.len() as int) =~= f1.subrange(0, f0.len() as int));
                proof {
                    if r2 is Ok {
                        let pv = pairs_view(accum@);
                        let fv = exprs_view(accum_filter@);
                        assert(pairs_view(a1) =~= pv.subrange(0, a1.len() as int));
                        assert(exprs_view(f1) =~= fv.subrange(0, f1.len() as int));
                        assert(pv.subrange(a0.len() as int, accum@.len() as int) =~= pv.subrange(
                            a0.len() as int,
                            a1.len() as int,
                        ) + pv.subrange(a1.len() as int, accum@.len() as int));
                        assert(pairs_view(a1).subrange(a0.len() as int, a1.len() as int) =~= pv.subrange(
                            a0.len() as int,
                            a1.len() as int,
                        ));
                        assert(fv.subrange(f0.len() as int, accum_filter@.len() as int) =~= fv.subrange(
                            f0.len() as int,
                            f1.len() as int,
                        ) + fv.subrange(f1.len() as int, accum_filter@.len() as int));
                        assert(exprs_view(f1).subrange(f0.len() as int, f1.len() as int) =~= fv.subrange(
                            f0.len() as int,
                            f1.len() as int,
                        ));
                    }
                }
                r2
            },
            Expr::BinaryOp { left, op: BinaryOperator::Eq, right } => {
                let l = self.bind_expr(left)?;
                let r = self.bind_expr(right)?;
                let mut residue = true;
                if let (ScalarExpression::ColumnRef(lc), ScalarExpression::ColumnRef(rc)) = (&l, &r) {
                    if left_schema.contains_column(&lc.name) && right_schema.contains_column(&rc.name) {
                        let pair = (l, r);
                        assert(key_oriented(pair, *left_schema, *right_schema));
                        accum.push(pair);
                        residue = false;
                        assert(pairs_view(accum@).subrange(a0.len() as int, accum@.len() as int) =~= seq![(pair.0@, pair.1@)]);
                    } else if left_schema.contains_column(&rc.name) && right_schema.contains_column(&lc.name) {
                        let pair = (r, l);
                        assert(key_oriented(pair, *left_schema, *right_schema));
                        accum.push(pair);
                        residue = false;
                        assert(pairs_view(accum@).subrange(a0.len() as int, accum@.len() as int) =~= seq![(pair.0@, pair.1@)]);
                    }
                }
                if residue {
                    let x = self.bind_expr(expr)?;
                    accum_filter.push(x);
                    assert(exprs_view(accum_filter@).subrange(f0.len() as int, accum_filter@.len() as int) =~= seq![x@]);
                }
                assert(accum@.subrange(0, a0.len() as int) =~= a0);
                assert(accum_filter@.subrange(0, f0.len() as int) =~= f0);
                Ok(())
            },
            _ => {
                let x = self.bind_expr(expr)?;
                accum_filter.push(x);
                assert(accum_filter@.subrange(0, f0.len() as int) =~= f0);
                assert(exprs_view(accum_filter@).subrange(f0.len() as int, accum_filter@.len() as int) =~= seq![x@]);
                assert(pairs_view(accum@).subrange(a0.len() as int, accum@.len() as int) =~= Seq::<(ExprV, ExprV)>::empty());
                Ok(())
            },
        }
    }

    /// The join nullability rewrite: with two or more tables, each select
    /// item that is a column of a bound table takes the nullability that
    /// the joins force on that table.
    pub fn extract_select_join(&mut self, select_items: &mut Vec<ScalarExpression>)
        requires
            tables_wf(old(self).context),
        ensures
            final(self).context == old(self).context,
            final(select_items)@.len() == old(select_items)@.len(),
            forall|i: int|
                0 <= i < old(select_items)@.len() ==> (#[trigger] final(select_items)@[i])@ == rewritten_item(
                    old(self).context.bind_table@,
                    old(select_items)@[i]@,
                ),
    {
        let ghost tables = self.context.bind_table@;
        let ghost s0 = select_items@;
        let n = self.context.bind_table.len();
        let mut left_flag = false;
        let mut k: usize = 0;
        while k < n
            invariant
                0 <= k <= n,
                n == tables.len(),
                tables == self.context.bind_table@,
                left_flag == last_left_flag(tables, k as int),
            decreases n - k,
        {
            if let Some(jt) = &self.context.bind_table[k].join_type {
                left_flag = joins_nullable(jt).0;
            }
            k = k + 1;
        }
        if n < 2 {
            proof {
                assert forall|i: int| 0 <= i < s0.len() implies (#[trigger] select_items@[i])@ == rewritten_item(tables, s0[i]@) by {
                    match s0[i]@ {
                        ExprV::ColumnRef(c) => {},
                        _ => {},
                    }
                }
            }
            return;
        }
        let mut i: usize = 0;
        while i < select_items.len()
            invariant
                0 <= i <= select_items@.len(),
                select_items@.len() == s0.len(),
                n == tables.len(),
                n >= 2,
                tables == self.context.bind_table@,
                tables_wf(self.context),
                left_flag == last_left_flag(tables, n as int),
                forall|j: int| 0 <= j < i ==> (#[trigger] select_items@[j])@ == rewritten_item(tables, s0[j]@),
                forall|j: int| i <= j < s0.len() ==> (#[trigger] select_items@[j]) == s0[j],
            decreases select_items@.len() - i,
        {
            let mut replaced: Option<ScalarExpression> = None;
            if let ScalarExpression::ColumnRef(col) = &select_items[i] {
                if let Some(t) = &col.table_name {
                    if let Some(b) = self.find_bound_table(t) {
                        let flag = match &self.context.bind_table[b].join_type {
                            Some(jt) => joins_nullable(jt).1,
                            None => left_flag,
                        };
                        proof {
                            assert(tables[b as int].name@ == t@);
                            let c = choose|c: int| 0 <= c < tables.len() && tables[c].name@ == t@;
                            if c != b {
                                if c < b {
                                    assert(tables[c].name@ != tables[b as int].name@);
                                } else {
                                    assert(tables[b as int].name@ != tables[c].name@);
                                }
                            }
                        }
                        let mut new_col = col.clone();
                        new_col.nullable = flag;
                        replaced = Some(ScalarExpression::ColumnRef(new_col));
                    } else {
                        proof {
                            assert(!(exists|c: int| 0 <= c < tables.len() && tables[c].name@ == t@));
                        }
                    }
                }
            }
            if let Some(e) = replaced {
                select_items.set(i, e);
            }
            i = i + 1;
        }
    }

    /// The column references of every bound table, in binding order.
    pub fn bind_all_column_refs(&self) -> (r: Vec<ScalarExpression>)
        requires
            tables_wf(self.context),
        ensures
            exprs_view(r@) == all_col_refs(*self.context.catalog, self.context.bind_table@, self.context.bind_table@.len() as int),
    {
        let mut exprs: Vec<ScalarExpression> = Vec::new();
        let mut i: usize = 0;
        while i < self.context.bind_table.len()
            invariant
                0 <= i <= self.context.bind_table@.len(),
                tables_wf(self.context),
                exprs_view(exprs@) == all_col_refs(*self.context.catalog, self.context.bind_table@, i as int),
            decreases self.context.bind_table@.len() - i,
        {
            let t = &self.context.catalog.tables[self.context.bind_table[i].table];
            let more = col_refs_of(t);
            let ghost e0 = exprs_view(exprs@);
            let ghost m0 = exprs_view(more@);
            let mut more = more;
            exprs.append(&mut more);
            assert(exprs_view(exprs@) =~= e0 + m0);
            i = i + 1;
        }
        exprs
    }

    /// The select list as expressions: aliases registered, `*` expanded to
    /// the columns of all bound tables.
    pub fn normalize_select_item(&mut self, items: &Vec<SelectItem>) -> (r: Result<Vec<ScalarExpression>, BindError>)
        requires
            tables_wf(old(self).context),
        ensures
            tables_wf(final(self).context),
            final(self).context.catalog == old(self).context.catalog,
            final(self).context.bind_table == old(self).context.bind_table,
            final(self).context.agg_calls == old(self).context.agg_calls,
            final(self).context.group_by_exprs == old(self).context.group_by_exprs,
            final(self).context.agg_index == old(self).context.agg_index,
            final(self).context.group_by_index == old(self).context.group_by_index,
            items@.len() == 1 && items@[0] is Wildcard ==> (r matches Ok(v) && exprs_view(v@) == all_col_refs(
                *old(self).context.catalog,
                old(self).context.bind_table@,
                old(self).context.bind_table@.len() as int,
            )),
            items@.len() > 0 && items@[0] is QualifiedWildcard ==> r matches Err(BindError::Unsupported(_)),
            r is Ok <==> select_list_spec(scope_of(old(self).context), items@) is Some,
            r matches Ok(v) ==> select_list_spec(scope_of(old(self).context), items@) == Some(
                (exprs_view(v@), alias_views(final(self).context.aliases@)),
            ),
    {
        let ghost ctx0 = self.context;
        let mut select_items: Vec<ScalarExpression> = Vec::new();
        let mut i: usize = 0;
        while i < items.len()
            invariant
                0 <= i <= items@.len(),
                tables_wf(self.context),
                self.context.catalog == old(self).context.catalog,
                self.context.bind_table == old(self).context.bind_table,
                self.context.agg_calls == old(self).context.agg_calls,
                self.context.group_by_exprs == old(self).context.group_by_exprs,
                self.context.agg_index == old(self).context.agg_index,
                self.context.group_by_index == old(self).context.group_by_index,
                i == 0 ==> select_items@.len() == 0,
                items@.len() == 1 && items@[0] is Wildcard && i == 1 ==> exprs_view(select_items@) == all_col_refs(
                    *old(self).context.catalog,
                    old(self).context.bind_table@,
                    old(self).context.bind_table@.len() as int,
                ),
                items@.len() > 0 && items@[0] is QualifiedWildcard ==> i == 0,
                ctx0 == old(self).context,
                select_list_spec(scope_of(ctx0), items@.take(i as int)) == Some(
                    (exprs_view(select_items@), alias_views(self.context.aliases@)),
                ),
                scope_of(self.context) == (Scope { aliases: alias_views(self.context.aliases@), ..scope_of(ctx0) }),
            decreases items@.len() - i,
        {
            proof {
                assert(items@.take(i as int + 1).drop_last() =~= items@.take(i as int));
                assert(items@.take(i as int + 1).last() == items@[i as int]);
            }
            let ghost s_before = exprs_view(select_items@);
            match &items[i] {
                SelectItem::UnnamedExpr(e) => {
                    let b = match self.bind_expr(e) {
                        Ok(b) => b,
                        Err(err) => {
                            proof {
                                lemma_select_items_prefix(scope_of(ctx0), items@, i as int + 1);
                            }
                            return Err(err);
                        },
                    };
                    select_items.push(b);
                    assert(exprs_view(select_items@) =~= s_before.push(b@));
                },
                SelectItem::ExprWithAlias { expr, alias } => {
                    let b = match self.bind_expr(expr) {
                        Ok(b) => b,
                        Err(err) => {
                            proof {
                                lemma_select_items_prefix(scope_of(ctx0), items@, i as int + 1);
                            }
                            return Err(err);
                        },
                    };
                    let ghost al0 = alias_views(self.context.aliases@);
                    self.context.aliases.push((alias.clone(), b.clone()));
                    assert(alias_views(self.context.aliases@) =~= al0.push((alias@, b@)));
                    let item = ScalarExpression::Alias { expr: Box::new(b), alias: alias.clone() };
                    select_items.push(item);
                    assert(exprs_view(select_items@) =~= s_before.push(item@));
                },
                SelectItem::Wildcard => {
                    let mut all = self.bind_all_column_refs();
                    proof {
                        assert(select_items@.len() == 0 || !(items@.len() == 1));
                    }
                    let ghost s0 = exprs_view(select_items@);
                    let ghost a0 = exprs_view(all@);
                    select_items.append(&mut all);
                    assert(exprs_view(select_items@) =~= s0 + a0);
                },
                SelectItem::QualifiedWildcard(_) => {
                    proof {
                        lemma_select_items_prefix(scope_of(ctx0), items@, i as int + 1);
                    }
                    return Err(BindError::Unsupported("qualified wildcard".to_owned()));
                },
            }
            i = i + 1;
        }
        assert(items@.take(items@.len() as int) =~= items@);
        Ok(select_items)
    }

    /// Binds a `SELECT`: FROM, select list, join nullability, WHERE,
    /// aggregates, GROUP BY, HAVING, DISTINCT, ORDER BY, and a projection on top.
    #[verifier::rlimit(100)]
    pub fn bind_select(&mut self, select: &Select, orderby: &Vec<OrderByExpr>) -> (r: Result<LogicalPlan, BindError>)
        requires
            tables_wf(old(self).context),
        ensures
            tables_wf(final(self).context),
            select.from@.len() > 1 ==> r matches Err(BindError::Unsupported(_)),
            r matches Ok(p) ==> {
                &&& p.operator matches Operator::Project(pr) && forall|i: int|
                    0 <= i < pr.columns@.len() ==> !contains_agg_call(#[trigger] pr.columns@[i]@)
                &&& p.childrens@.len() == 1
                &&& chain_sort(p.childrens@[0], *select, orderby@.len(), final(self).context)
            },
            (r is Ok <==> select_spec(
                scope_of(old(self).context),
                old(self).context.agg_index as nat,
                old(self).context.group_by_index as nat,
                exprs_view(old(self).context.agg_calls@),
                exprs_view(old(self).context.group_by_exprs@),
                *select,
                orderby@,
            ) is Some),
            (r matches Ok(p) ==> select_spec(
                scope_of(old(self).context),
                old(self).context.agg_index as nat,
                old(self).context.group_by_index as nat,
                exprs_view(old(self).context.agg_calls@),
                exprs_view(old(self).context.group_by_exprs@),
                *select,
                orderby@,
            ) matches Some((cols, aggs, groups)) && p.operator matches Operator::Project(pr) && exprs_view(pr.columns@)
                == cols && exprs_view(final(self).context.agg_calls@) == aggs && exprs_view(
                final(self).context.group_by_exprs@,
            ) == groups),
            select_groupby_illegal(
                scope_of(old(self).context),
                *select,
                old(self).context.agg_index as nat,
                old(self).context.group_by_index as nat,
                old(self).context.agg_calls@.len() as nat,
            ) ==> r matches Err(BindError::AggMiss(_)),
    {
        let ghost sc0 = scope_of(self.context);
        let ghost ai = self.context.agg_index as nat;
        let ghost gi = self.context.group_by_index as nat;
        let ghost aggs0 = exprs_view(self.context.agg_calls@);
        let ghost gbs0 = exprs_view(self.context.group_by_exprs@);
        let ghost spec = select_spec(sc0, ai, gi, aggs0, gbs0, *select, orderby@);
        let plan = self.bind_table_ref(&select.from)?;
        let ghost p_from = plan;
        let ghost sc1 = scope_of(self.context);
        assert(from_scope(sc0, select.from@) == Some(sc1));
        let mut plan = plan;
        let mut select_list = match self.normalize_select_item(&select.projection) {
            Ok(v) => v,
            Err(e) => {
                assert(select_stage(sc0, *select) is None);
                return Err(e);
            },
        };
        let ghost items = exprs_view(select_list@);
        let ghost sc2 = scope_of(self.context);
        assert(select_list_spec(sc1, select.projection@) == Some((items, sc2.aliases)));
        assert(sc2 == (Scope { aliases: sc2.aliases, ..sc1 }));
        let ghost ctx_f = self.context;
        self.extract_select_join(&mut select_list);
        let ghost rw = exprs_view(select_list@);
        assert(rw =~= rewrite_all(sc1.tables, items));
        assert(select_stage(sc0, *select) == Some((sc2, rw)));
        if let Some(predicate) = &select.selection {
            plan = self.bind_where(plan, predicate)?;
        }
        let ghost p_where = plan;
        assert(chain_where(p_where, *select));
        assert(where_binds(sc2, *select));
        let n = match agg_count_list(&select_list) {
            Some(n) => n,
            None => {
                return Err(BindError::Unsupported("too many aggregate calls".to_owned()));
            },
        };
        if n > usize::MAX - self.context.agg_index {
            return Err(BindError::Unsupported("too many aggregate calls".to_owned()));
        }
        let ghost before = exprs_view(select_list@);
        let ghost idx = self.context.agg_index as nat;
        assert(idx == ai && before == rw);
        self.extract_select_aggregate(&mut select_list)?;
        let ghost ex = exprs_view(select_list@);
        let ghost a1 = extract_aggs_seq(rw, ai).1;
        proof {
            lemma_extract_seq_no_agg(before, idx);
            crate::aggregate::lemma_extract_seq_len(rw, ai);
            assert forall|i: int| 0 <= i < select_list@.len() implies !contains_agg_call(#[trigger] select_list@[i]@) by {
                assert(exprs_view(select_list@)[i] == select_list@[i]@);
            }
        }
        assert(select_extracted(sc0, *select, ai) == Some((sc2, ex, a1)));
        let ghost ctx_b = self.context;
        assert(scope_of(ctx_b) == sc2);
        assert(exprs_view(ctx_b.agg_calls@) == aggs0 + a1);
        assert(ctx_b.agg_index == ai + a1.len());
        let ghost g: Seq<ExprV> = Seq::empty();
        if select.group_by.len() > 0 {
            if select.group_by.len() > usize::MAX - self.context.group_by_index {
                return Err(BindError::Unsupported("too many GROUP BY entries".to_owned()));
            }
            self.extract_group_by_aggregate(&mut select_list, &select.group_by)?;
            proof {
                g = group_by_fold(ex, bound_list(sc2, select.group_by@)->Some_0, gi).1;
            }
        }
        let ghost cols = exprs_view(select_list@);
        let ghost ctx_c = self.context;
        assert(scope_of(ctx_c) == sc2);
        assert(exprs_view(ctx_c.group_by_exprs@) =~= gbs0 + g);
        assert(exprs_view(ctx_c.agg_calls@) == aggs0 + a1);
        let mut having: Option<ScalarExpression> = None;
        let mut sort_fields: Option<Vec<SortField>> = None;
        let ghost a2: Seq<ExprV> = Seq::empty();
        if select.having.is_some() || orderby.len() > 0 {
            let (h, o) = self.extract_having_orderby_aggregate(&select.having, orderby)?;
            proof {
                a2 = having_orderby_spec(sc2, select.having, orderby@, ai + a1.len())->Some_0.2;
            }
            having = h;
            sort_fields = o;
        }
        assert(exprs_view(self.context.agg_calls@) =~= aggs0 + a1 + a2);
        let ghost ctx1 = self.context;
        if self.context.agg_calls.len() > 0 || self.context.group_by_exprs.len() > 0 {
            let aggs = clone_exprs(&self.context.agg_calls);
            let groups = clone_exprs(&self.context.group_by_exprs);
            plan = self.bind_aggregate(plan, aggs, groups);
        }
        let ghost p_agg = plan;
        assert(chain_agg(p_agg, *select, ctx1));
        if let Some(h) = having {
            plan = self.bind_having(plan, h)?;
        }
        let ghost p_having = plan;
        assert(chain_having(p_having, *select, ctx1));
        if select.distinct {
            let distinct_list = clone_exprs(&select_list);
            plan = self.bind_distinct(plan, distinct_list);
        }
        let ghost p_distinct = plan;
        assert(chain_distinct(p_distinct, *select, ctx1));
        if let Some(fields) = sort_fields {
            plan = self.bind_sort(plan, fields);
        }
        assert(chain_sort(plan, *select, orderby@.len(), ctx1));
        let r = self.bind_project(plan, select_list);
        assert(self.context == ctx1);
        Ok(r)
    }

    /// Binds a query: its body, then LIMIT and OFFSET on top where either is present.
    pub fn bind_query(&mut self, query: &Query) -> (r: Result<LogicalPlan, BindError>)
        requires
            tables_wf(old(self).context),
        ensures
            tables_wf(final(self).context),
            query.with ==> r matches Err(BindError::Unsupported(_)),
            query.body is Other ==> r matches Err(BindError::Unsupported(_)),
            r matches Ok(p) ==> ((query.limit is Some || query.offset is Some) ==> p.operator is Limit
                && p.childrens@.len() == 1 && (query.body is Select ==> p.childrens@[0].operator is Project)),
            r matches Ok(p) ==> (query.limit is None && query.offset is None && query.body is Select ==> p.operator is Project),
            r matches Ok(p) ==> ((query.limit is Some || query.offset is Some) ==> Some(limit_of(p)) == limit_arg(scope_of(final(self).context),
                query.limit,
            ) && Some(offset_of(p)) == limit_arg(scope_of(final(self).context), query.offset)),
            !query.with && query.body is Select ==> (r is Ok <==> select_spec(
                scope_of(old(self).context),
                old(self).context.agg_index as nat,
                old(self).context.group_by_index as nat,
                exprs_view(old(self).context.agg_calls@),
                exprs_view(old(self).context.group_by_exprs@),
                query_sel(*query),
                query.order_by@,
            ) is Some && limit_arg(scope_of(final(self).context), query.limit) is Some && limit_arg(
                scope_of(final(self).context),
                query.offset,
            ) is Some),
            !query.with && query.body is Select ==> (r matches Ok(p) ==> select_plan(
                if query.limit is Some || query.offset is Some {
                    p.childrens@[0]
                } else {
                    p
                },
                query_sel(*query),
                query.order_by@,
                final(self).context,
                select_spec(
                    scope_of(old(self).context),
                    old(self).context.agg_index as nat,
                    old(self).context.group_by_index as nat,
                    exprs_view(old(self).context.agg_calls@),
                    exprs_view(old(self).context.group_by_exprs@),
                    query_sel(*query),
                    query.order_by@,
                )->Some_0.0,
            )),
        decreases query,
    {
        if query.with {
            return Err(BindError::Unsupported("WITH".to_owned()));
        }
        let ghost ctx0 = self.context;
        let plan = match &query.body {
            SetExpr::Select(select) => {
                let p = self.bind_select(select, &query.order_by)?;
                assert(select_plan(p, **select, query.order_by@, self.context, select_spec(
                    scope_of(ctx0),
                    ctx0.agg_index as nat,
                    ctx0.group_by_index as nat,
                    exprs_view(ctx0.agg_calls@),
                    exprs_view(ctx0.group_by_exprs@),
                    **select,
                    query.order_by@,
                )->Some_0.0));
                p
            },
            SetExpr::Query(q) => self.bind_query(q)?,
            SetExpr::Other => {
                return Err(BindError::Unsupported("set operation".to_owned()));
            },
        };
        if query.limit.is_some() || query.offset.is_some() {
            return self.bind_limit(plan, &query.limit, &query.offset);
        }
        Ok(plan)
    }
}

}
