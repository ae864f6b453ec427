use vstd::prelude::*;
use crate::ast::{Expr, OrderByExpr};
use crate::binder::{BindError, Binder, BinderContext, InputRefType, Scope, bound, bound_list, scope_of, tables_wf};
use crate::expression::{ExprV, ScalarExpression, contains_agg_call, expr_type, exprs_view, has_agg};
use crate::planner::{AggregateOperator, LogicalPlan, Operator, SortField};
use crate::types::LogicalType;

verus! {

broadcast use vstd::seq::group_seq_axioms;

/// How many aggregate calls the extraction rewrite takes out of `e`.
pub open spec fn count_aggs(e: ExprV) -> nat
    decreases e,
{
    match e {
        ExprV::AggCall { .. } => 1,
        ExprV::Alias { expr, .. } | ExprV::TypeCast { expr, .. } | ExprV::IsNull { expr } | ExprV::Unary {
            expr,
            ..
        } => count_aggs(*expr),
        ExprV::Binary { left, right, .. } => count_aggs(*left) + count_aggs(*right),
        _ => 0,
    }
}

/// The aggregate extraction rewrite, in pre-order: each aggregate call
/// becomes a placeholder numbered from `next` on, of the call's type, and is
/// listed in the order met.
pub open spec fn extract_aggs(e: ExprV, next: nat) -> (ExprV, Seq<ExprV>)
    decreases e,
{
    match e {
        ExprV::AggCall { ty, .. } => (ExprV::InputRef { index: next as usize, ty }, seq![e]),
        ExprV::Alias { expr, alias } => {
            let (x, s) = extract_aggs(*expr, next);
            (ExprV::Alias { expr: Box::new(x), alias }, s)
        },
        ExprV::TypeCast { expr, ty } => {
            let (x, s) = extract_aggs(*expr, next);
            (ExprV::TypeCast { expr: Box::new(x), ty }, s)
        },
        ExprV::IsNull { expr } => {
            let (x, s) = extract_aggs(*expr, next);
            (ExprV::IsNull { expr: Box::new(x) }, s)
        },
        ExprV::Unary { op, expr, ty } => {
            let (x, s) = extract_aggs(*expr, next);
            (ExprV::Unary { op, expr: Box::new(x), ty }, s)
        },
        ExprV::Binary { op, left, right, ty } => {
            let (l, s1) = extract_aggs(*left, next);
            let (r, s2) = extract_aggs(*right, next + s1.len());
            (ExprV::Binary { op, left: Box::new(l), right: Box::new(r), ty }, s1 + s2)
        },
        _ => (e, Seq::empty()),
    }
}

pub proof fn lemma_extract_len(e: ExprV, next: nat)
    ensures
        extract_aggs(e, next).1.len() == count_aggs(e),
    decreases e,
{
    match e {
        ExprV::Alias { expr, .. } | ExprV::TypeCast { expr, .. } | ExprV::IsNull { expr } | ExprV::Unary {
            expr,
            ..
        } => lemma_extract_len(*expr, next),
        ExprV::Binary { left, right, .. } => {
            lemma_extract_len(*left, next);
            lemma_extract_len(*right, next + count_aggs(*left));
        },
        _ => {},
    }
}

/// The extraction rewrite over a list, left to right.
pub open spec fn extract_aggs_seq(s: Seq<ExprV>, next: nat) -> (Seq<ExprV>, Seq<ExprV>)
    decreases s.len(),
{
    if s.len() == 0 {
        (Seq::empty(), Seq::empty())
    } else {
        let (xs, a) = extract_aggs_seq(s.drop_last(), next);
        let (x, b) = extract_aggs(s.last(), next + a.len());
        (xs.push(x), a + b)
    }
}

pub open spec fn count_aggs_seq(s: Seq<ExprV>) -> nat
    decreases s.len(),
{
    if s.len() == 0 {
        0
    } else {
        count_aggs_seq(s.drop_last()) + count_aggs(s.last())
    }
}

/// The group-by entries with each alias resolved to the select item of that alias.
pub open spec fn group_raw(sel: Seq<ExprV>, gb: Seq<ExprV>) -> Seq<ExprV>
    decreases gb.len(),
{
    if gb.len() == 0 {
        Seq::empty()
    } else {
        let rest = group_raw(sel, gb.drop_last());
        match gb.last() {
            ExprV::Alias { alias, .. } => match alias_position(sel, alias) {
                Some(i) => rest.push(sel[i]),
                None => rest,
            },
            e => rest.push(e),
        }
    }
}

pub open spec fn is_alias_named(e: ExprV, alias: Seq<char>) -> bool {
    e matches ExprV::Alias { alias: a, .. } && a == alias
}

/// The first select item that is an alias of the given name.
#[verifier::opaque]
pub open spec fn alias_position(sel: Seq<ExprV>, alias: Seq<char>) -> Option<int> {
    if exists|i: int| 0 <= i < sel.len() && is_alias_named(sel[i], alias) {
        Some(choose|i: int| 0 <= i < sel.len() && is_alias_named(sel[i], alias) && forall|k: int| 0 <= k < i ==> !is_alias_named(sel[k], alias))
    } else {
        None
    }
}

/// Every non-aggregate select item appears in GROUP BY, and every GROUP BY
/// entry is a non-aggregate select item.
pub open spec fn groupby_legal(sel: Seq<ExprV>, gb: Seq<ExprV>, n_aggs: nat) -> bool {
    let raw = group_raw(sel, gb);
    &&& forall|i: int| 0 <= i < sel.len() && !has_agg(sel[i], n_aggs) ==> raw.contains(#[trigger] sel[i])
    &&& forall|j: int| 0 <= j < raw.len() ==> #[trigger] plain_item(sel, raw[j], n_aggs)
}

/// `e` is a select item that computes no aggregate.
pub open spec fn plain_item(sel: Seq<ExprV>, e: ExprV, n_aggs: nat) -> bool {
    exists|i: int| 0 <= i < sel.len() && !has_agg(sel[i], n_aggs) && sel[i] == e
}

/// A HAVING or ORDER BY expression reads only grouped values and aggregates.
pub open spec fn having_ok(e: ExprV, gbs: Seq<ExprV>, aggs: Seq<ExprV>) -> bool
    decreases e,
{
    if gbs.len() == 0 {
        true
    } else {
        match e {
            ExprV::AggCall { .. } => gbs.contains(e) || aggs.contains(e),
            ExprV::ColumnRef(_) | ExprV::Alias { .. } => gbs.contains(e),
            ExprV::TypeCast { expr, .. } | ExprV::IsNull { expr } | ExprV::Unary { expr, .. } => having_ok(
                *expr,
                gbs,
                aggs,
            ),
            ExprV::Binary { left, right, .. } => having_ok(*left, gbs, aggs) && having_ok(*right, gbs, aggs),
            ExprV::Constant(_) | ExprV::InputRef { .. } => true,
        }
    }
}

/// The context is the same but for the aggregate calls and their counter.
pub open spec fn same_but_aggs(a: BinderContext, b: BinderContext) -> bool {
    &&& a.catalog == b.catalog
    &&& a.bind_table == b.bind_table
    &&& a.aliases == b.aliases
    &&& a.group_by_exprs == b.group_by_exprs
    &&& a.group_by_index == b.group_by_index
}

/// The context is the same but for the group-by entries and their counter.
pub open spec fn same_but_groups(a: BinderContext, b: BinderContext) -> bool {
    &&& a.catalog == b.catalog
    &&& a.bind_table == b.bind_table
    &&& a.aliases == b.aliases
    &&& a.agg_calls == b.agg_calls
    &&& a.agg_index == b.agg_index
}

/// The first position of an expression equal to `e`.
pub fn position_of(v: &Vec<ScalarExpression>, e: &ScalarExpression) -> (r: Option<usize>)
    ensures
        r matches Some(i) ==> i < v@.len() && v@[i as int]@ == e@ && forall|k: int| 0 <= k < i ==> v@[k]@ != e@,
        r is Some ==> exprs_view(v@).contains(e@),
        r is None ==> !exprs_view(v@).contains(e@),
{
    let mut i: usize = 0;
    while i < v.len()
        invariant
            0 <= i <= v@.len(),
            forall|k: int| 0 <= k < i ==> v@[k]@ != e@,
        decreases v@.len() - i,
    {
        if v[i].equals(e) {
            assert(exprs_view(v@)[i as int] == e@);
            return Some(i);
        }
        i = i + 1;
    }
    proof {
        if exprs_view(v@).contains(e@) {
            let k = choose|k: int| 0 <= k < exprs_view(v@).len() && exprs_view(v@)[k] == e@;
            assert(v@[k]@ == e@);
        }
    }
    None
}

/// The group-by entries with each alias resolved (see `group_raw`).
fn group_raw_exprs(select_items: &Vec<ScalarExpression>, groupby: &Vec<ScalarExpression>) -> (r: Vec<ScalarExpression>)
    ensures
        exprs_view(r@) == group_raw(exprs_view(select_items@), exprs_view(groupby@)),
{
    let ghost sv = exprs_view(select_items@);
    let ghost gv = exprs_view(groupby@);
    let mut raw: Vec<ScalarExpression> = Vec::new();
    let mut k: usize = 0;
    while k < groupby.len()
        invariant
            0 <= k <= groupby@.len(),
            sv == exprs_view(select_items@),
            gv == exprs_view(groupby@),
            exprs_view(raw@) == group_raw(sv, gv.take(k as int)),
        decreases groupby@.len() - k,
    {
        let ghost gk = gv.take(k as int + 1);
        assert(gk.drop_last() =~= gv.take(k as int));
        assert(gk.last() == groupby@[k as int]@);
        let ghost r0 = exprs_view(raw@);
        if let ScalarExpression::Alias { alias, .. } = &groupby[k] {
            if let Some(i) = alias_position_of(select_items, alias) {
                raw.push(select_items[i].clone());
                assert(exprs_view(raw@) =~= r0.push(sv[i as int]));
            } else {
                assert(exprs_view(raw@) =~= r0);
            }
        } else {
            raw.push(groupby[k].clone());
            assert(exprs_view(raw@) =~= r0.push(gv[k as int]));
        }
        k = k + 1;
    }
    assert(gv.take(groupby@.len() as int) =~= gv);
    raw
}

fn str_of_group() -> (r: String) {
    "the GROUP BY field must be in the select clause".to_owned()
}

/// The first select item that is an alias of the given name.
fn alias_position_of(sel: &Vec<ScalarExpression>, alias: &String) -> (r: Option<usize>)
    ensures
        r matches Some(i) ==> i < sel@.len() && alias_position(exprs_view(sel@), alias@) == Some(i as int),
        r is None ==> alias_position(exprs_view(sel@), alias@) is None,
{
    let ghost sv = exprs_view(sel@);
    let mut i: usize = 0;
    while i < sel.len()
        invariant
            0 <= i <= sel@.len(),
            sv == exprs_view(sel@),
            forall|k: int| 0 <= k < i ==> !is_alias_named(sv[k], alias@),
        decreases sel@.len() - i,
    {
        if let ScalarExpression::Alias { alias: a, .. } = &sel[i] {
            if *a == *alias {
                proof {
                    reveal(alias_position);
                    assert(sv[i as int] == sel@[i as int]@);
                    assert(is_alias_named(sv[i as int], alias@));
                    let j = choose|j: int| 0 <= j < sv.len() && is_alias_named(sv[j], alias@) && forall|k: int| 0 <= k < j ==> !is_alias_named(sv[k], alias@);
                    assert(!(j < i));
                    assert(!(i < j));
                }
                return Some(i);
            }
        }
        i = i + 1;
    }
    proof {
        reveal(alias_position);
        assert(forall|k: int| 0 <= k < sv.len() ==> !is_alias_named(sv[k], alias@));
    }
    None
}

/// The placeholders of an expression, in pre-order.
pub open spec fn input_refs_in(e: ExprV) -> Seq<ExprV>
    decreases e,
{
    match e {
        ExprV::InputRef { .. } => seq![e],
        ExprV::Alias { expr, .. } | ExprV::TypeCast { expr, .. } | ExprV::IsNull { expr } | ExprV::Unary {
            expr,
            ..
        } => input_refs_in(*expr),
        ExprV::Binary { left, right, .. } => input_refs_in(*left) + input_refs_in(*right),
        _ => Seq::empty(),
    }
}

/// The placeholders that stand for a list of aggregate calls, numbered from `next`.
pub open spec fn placeholders_for(aggs: Seq<ExprV>, next: nat) -> Seq<ExprV> {
    Seq::new(aggs.len(), |i: int| ExprV::InputRef { index: (next + i) as usize, ty: aggs[i]->AggCall_ty })
}

/// Extraction is faithful: in an expression without placeholders, each
/// aggregate call taken out is an aggregate call, listed once, and its
/// place holds a placeholder of the call's type, numbered in order.
pub proof fn lemma_extract_faithful(e: ExprV, next: nat)
    requires
        input_refs_in(e).len() == 0,
    ensures
        forall|i: int| 0 <= i < extract_aggs(e, next).1.len() ==> (#[trigger] extract_aggs(e, next).1[i]) is AggCall,
        input_refs_in(extract_aggs(e, next).0) == placeholders_for(extract_aggs(e, next).1, next),
    decreases e,
{
    match e {
        ExprV::AggCall { .. } => {
            assert(placeholders_for(seq![e], next) =~= seq![extract_aggs(e, next).0]);
        },
        ExprV::Alias { expr, .. } | ExprV::TypeCast { expr, .. } | ExprV::IsNull { expr } | ExprV::Unary {
            expr,
            ..
        } => lemma_extract_faithful(*expr, next),
        ExprV::Binary { left, right, .. } => {
            lemma_extract_faithful(*left, next);
            let s1 = extract_aggs(*left, next).1;
            lemma_extract_faithful(*right, next + s1.len());
            let s2 = extract_aggs(*right, next + s1.len()).1;
            assert(placeholders_for(s1 + s2, next) =~= placeholders_for(s1, next) + placeholders_for(s2, next + s1.len()));
        },
        ExprV::InputRef { .. } => {
            assert(input_refs_in(e).len() == 1);
        },
        _ => {
            assert(placeholders_for(Seq::<ExprV>::empty(), next) =~= Seq::<ExprV>::empty());
        },
    }
}

/// The bound ORDER BY expressions with their aggregate calls taken out at
/// the running placeholder number, and the calls taken out, in order.
pub open spec fn orderby_spec(sc: Scope, obs: Seq<OrderByExpr>, next: nat) -> Option<(Seq<ExprV>, Seq<ExprV>)>
    decreases obs.len(),
{
    if obs.len() == 0 {
        Some((Seq::empty(), Seq::empty()))
    } else {
        match orderby_spec(sc, obs.drop_last(), next) {
            Some((es, aggs)) => match bound(sc, obs.last().expr) {
                Some(x) => Some(
                    (es.push(extract_aggs(x, next + aggs.len()).0), aggs + extract_aggs(x, next + aggs.len()).1),
                ),
                None => None,
            },
            None => None,
        }
    }
}

/// HAVING, then ORDER BY, bound and with their aggregate calls taken out:
/// (HAVING, ORDER BY expressions, calls taken out in order).
pub open spec fn having_orderby_spec(sc: Scope, having: Option<Expr>, obs: Seq<OrderByExpr>, next: nat) -> Option<
    (Option<ExprV>, Seq<ExprV>, Seq<ExprV>),
> {
    let h = match having {
        None => Some((None::<ExprV>, Seq::<ExprV>::empty())),
        Some(h) => match bound(sc, h) {
            Some(x) => Some((Some(extract_aggs(x, next).0), extract_aggs(x, next).1)),
            None => None,
        },
    };
    match h {
        Some((hv, a1)) => match orderby_spec(sc, obs, next + a1.len()) {
            Some((es, a2)) => Some((hv, es, a1 + a2)),
            None => None,
        },
        None => None,
    }
}

pub open spec fn opt_expr_view(o: Option<ScalarExpression>) -> Option<ExprV> {
    match o {
        Some(e) => Some(e@),
        None => None,
    }
}

proof fn lemma_orderby_spec_fails(sc: Scope, obs: Seq<OrderByExpr>, i: int, next: nat)
    requires
        0 <= i < obs.len(),
        bound(sc, obs[i].expr) is None,
    ensures
        forall|n: nat| orderby_spec(sc, obs, n) is None,
    decreases obs.len(),
{
    if i < obs.len() - 1 {
        lemma_orderby_spec_fails(sc, obs.drop_last(), i, next);
    }
    assert forall|n: nat| orderby_spec(sc, obs, n) is None by {
        if i == obs.len() - 1 {
            assert(obs.last() == obs[i]);
        } else {
            assert(orderby_spec(sc, obs.drop_last(), n) is None);
        }
    }
}

proof fn lemma_orderby_spec_len(sc: Scope, obs: Seq<OrderByExpr>, next: nat)
    ensures
        orderby_spec(sc, obs, next) matches Some((es, aggs)) ==> es.len() == obs.len(),
    decreases obs.len(),
{
    if obs.len() > 0 {
        lemma_orderby_spec_len(sc, obs.drop_last(), next);
    }
}

proof fn lemma_orderby_step(sc: Scope, obs: Seq<OrderByExpr>, j: int, next: nat, x: ExprV)
    requires
        0 <= j < obs.len(),
        orderby_spec(sc, obs.take(j), next) is Some,
        bound(sc, obs[j].expr) == Some(x),
    ensures
        ({
            let (es, aggs) = orderby_spec(sc, obs.take(j), next)->Some_0;
            orderby_spec(sc, obs.take(j + 1), next) == Some(
                (
                    es.push(extract_aggs(x, next + aggs.len()).0),
                    aggs + extract_aggs(x, next + aggs.len()).1,
                ),
            )
        }),
{
    assert(obs.take(j + 1).drop_last() =~= obs.take(j));
    assert(obs.take(j + 1).last() == obs[j]);
}

/// The calls taken out of a prefix of ORDER BY are a prefix of all of them.
proof fn lemma_orderby_spec_total(sc: Scope, obs: Seq<OrderByExpr>, n: int, next: nat)
    requires
        0 <= n <= obs.len(),
    ensures
        orderby_spec(sc, obs, next) matches Some((es, aggs)) ==> orderby_spec(sc, obs.take(n), next) matches Some(
            (es2, aggs2),
        ) && aggs2.len() <= aggs.len(),
    decreases obs.len() - n,
{
    if n < obs.len() {
        lemma_orderby_spec_total(sc, obs.drop_last(), n, next);
        assert(obs.drop_last().take(n) =~= obs.take(n));
    } else {
        assert(obs.take(n) =~= obs);
    }
}

/// The placeholders of a list of expressions, in order.
pub open spec fn input_refs_seq(s: Seq<ExprV>) -> Seq<ExprV>
    decreases s.len(),
{
    if s.len() == 0 {
        Seq::empty()
    } else {
        input_refs_seq(s.drop_last()) + input_refs_in(s.last())
    }
}

/// Extraction over a select list is faithful: in a list without
/// placeholders, each call taken out is an aggregate call, listed once in
/// order, and its place holds a placeholder of the call's type, numbered
/// in order.
pub proof fn lemma_extract_seq_faithful(s: Seq<ExprV>, next: nat)
    requires
        input_refs_seq(s).len() == 0,
    ensures
        forall|i: int|
            0 <= i < extract_aggs_seq(s, next).1.len() ==> (#[trigger] extract_aggs_seq(s, next).1[i]) is AggCall,
        input_refs_seq(extract_aggs_seq(s, next).0) == placeholders_for(extract_aggs_seq(s, next).1, next),
    decreases s.len(),
{
    if s.len() == 0 {
        assert(placeholders_for(Seq::<ExprV>::empty(), next) =~= Seq::<ExprV>::empty());
    } else {
        lemma_extract_seq_faithful(s.drop_last(), next);
        let (xs, a) = extract_aggs_seq(s.drop_last(), next);
        lemma_extract_seq_len(s.drop_last(), next);
        lemma_extract_faithful(s.last(), next + a.len());
        let (x, b) = extract_aggs(s.last(), next + a.len());
        assert(xs.push(x).drop_last() =~= xs);
        assert(placeholders_for(a + b, next) =~= placeholders_for(a, next) + placeholders_for(b, next + a.len()));
        assert forall|i: int| 0 <= i < (a + b).len() implies (#[trigger] (a + b)[i]) is AggCall by {
            if i >= a.len() {
                assert((a + b)[i] == b[i - a.len()]);
            }
        }
    }
}

/// After extraction no aggregate call is left in an expression.
pub proof fn lemma_extract_no_agg(e: ExprV, next: nat)
    ensures
        !contains_agg_call(extract_aggs(e, next).0),
    decreases e,
{
    match e {
        ExprV::Alias { expr, .. } | ExprV::TypeCast { expr, .. } | ExprV::IsNull { expr } | ExprV::Unary {
            expr,
            ..
        } => lemma_extract_no_agg(*expr, next),
        ExprV::Binary { left, right, .. } => {
            lemma_extract_no_agg(*left, next);
            lemma_extract_no_agg(*right, next + extract_aggs(*left, next).1.len());
        },
        _ => {},
    }
}

pub open spec fn sort_field_ok(f: SortField, o: OrderByExpr) -> bool {
    &&& f.desc == !match o.asc {
        Some(a) => a,
        None => true,
    }
    &&& f.nulls_first == match o.nulls_first {
        Some(n) => n,
        None => false,
    }
    &&& !contains_agg_call(f.expr@)
}

/// After extraction no aggregate call is left in any item of a list.
pub proof fn lemma_extract_seq_no_agg(s: Seq<ExprV>, next: nat)
    ensures
        forall|i: int|
            0 <= i < extract_aggs_seq(s, next).0.len() ==> !contains_agg_call(#[trigger] extract_aggs_seq(s, next).0[i]),
    decreases s.len(),
{
    if s.len() > 0 {
        lemma_extract_seq_no_agg(s.drop_last(), next);
        let a = extract_aggs_seq(s.drop_last(), next).1;
        lemma_extract_no_agg(s.last(), next + a.len());
    }
}

/// Matching a group-by entry puts no aggregate call into the select list.
pub proof fn lemma_group_by_step_no_agg(sel: Seq<ExprV>, e: ExprV, next: usize)
    requires
        forall|i: int| 0 <= i < sel.len() ==> !contains_agg_call(#[trigger] sel[i]),
    ensures
        forall|i: int|
            0 <= i < group_by_step(sel, e, next).0.len() ==> !contains_agg_call(#[trigger] group_by_step(sel, e, next).0[i]),
{
    let by_alias = match e {
        ExprV::Alias { alias, .. } => alias_position(sel, alias),
        _ => None,
    };
    let r = group_by_step(sel, e, next).0;
    if let Some(i) = by_alias {
        lemma_alias_position_range(sel, e->Alias_alias);
        lemma_update_no_agg(sel, i, ExprV::InputRef { index: next, ty: expr_type(sel[i]) });
        assert(r == sel.update(i, ExprV::InputRef { index: next, ty: expr_type(sel[i]) }));
    } else if let Some(i) = first_equal(sel, e) {
        lemma_first_equal_range(sel, e);
        lemma_update_no_agg(sel, i, ExprV::InputRef { index: next, ty: expr_type(sel[i]) });
        assert(r == sel || r == sel.update(i, ExprV::InputRef { index: next, ty: expr_type(sel[i]) }));
    } else {
        assert(r == sel);
    }
}

proof fn lemma_alias_position_range(sel: Seq<ExprV>, alias: Seq<char>)
    ensures
        alias_position(sel, alias) matches Some(i) ==> 0 <= i < sel.len(),
{
    reveal(alias_position);
    if exists|i: int| 0 <= i < sel.len() && is_alias_named(sel[i], alias) {
        let w = choose|i: int| 0 <= i < sel.len() && is_alias_named(sel[i], alias);
        lemma_min_alias(sel, alias, w);
    }
}

proof fn lemma_min_alias(sel: Seq<ExprV>, alias: Seq<char>, w: int)
    requires
        0 <= w < sel.len(),
        is_alias_named(sel[w], alias),
    ensures
        exists|i: int| 0 <= i < sel.len() && is_alias_named(sel[i], alias) && forall|k: int| 0 <= k < i ==> !is_alias_named(sel[k], alias),
    decreases w,
{
    if exists|k: int| 0 <= k < w && is_alias_named(sel[k], alias) {
        let k = choose|k: int| 0 <= k < w && is_alias_named(sel[k], alias);
        lemma_min_alias(sel, alias, k);
    }
}

proof fn lemma_first_equal_range(sel: Seq<ExprV>, e: ExprV)
    ensures
        first_equal(sel, e) matches Some(i) ==> 0 <= i < sel.len(),
{
    reveal(first_equal);
    if sel.contains(e) {
        let w = choose|i: int| 0 <= i < sel.len() && sel[i] == e;
        lemma_min_equal(sel, e, w);
    }
}

proof fn lemma_min_equal(sel: Seq<ExprV>, e: ExprV, w: int)
    requires
        0 <= w < sel.len(),
        sel[w] == e,
    ensures
        exists|i: int| 0 <= i < sel.len() && sel[i] == e && forall|k: int| 0 <= k < i ==> sel[k] != e,
    decreases w,
{
    if exists|k: int| 0 <= k < w && sel[k] == e {
        let k = choose|k: int| 0 <= k < w && sel[k] == e;
        lemma_min_equal(sel, e, k);
    }
}

proof fn lemma_update_no_agg(sel: Seq<ExprV>, i: int, x: ExprV)
    requires
        0 <= i < sel.len(),
        !contains_agg_call(x),
        forall|j: int| 0 <= j < sel.len() ==> !contains_agg_call(#[trigger] sel[j]),
    ensures
        forall|j: int| 0 <= j < sel.update(i, x).len() ==> !contains_agg_call(#[trigger] sel.update(i, x)[j]),
{
    assert forall|j: int| 0 <= j < sel.update(i, x).len() implies !contains_agg_call(#[trigger] sel.update(i, x)[j]) by {
        if j != i {
            assert(sel.update(i, x)[j] == sel[j]);
        }
    }
}


pub proof fn lemma_extract_seq_len(s: Seq<ExprV>, next: nat)
    ensures
        extract_aggs_seq(s, next).1.len() == count_aggs_seq(s),
        extract_aggs_seq(s, next).0.len() == s.len(),
    decreases s.len(),
{
    if s.len() > 0 {
        lemma_extract_seq_len(s.drop_last(), next);
        lemma_extract_len(s.last(), next + count_aggs_seq(s.drop_last()));
    }
}

pub proof fn lemma_count_prefix(s: Seq<ExprV>, k: int)
    requires
        0 <= k <= s.len(),
    ensures
        count_aggs_seq(s.take(k)) <= count_aggs_seq(s),
    decreases s.len() - k,
{
    if k < s.len() {
        lemma_count_prefix(s, k + 1);
        assert(s.take(k + 1).drop_last() =~= s.take(k));
    } else {
        assert(s.take(k) =~= s);
    }
}

/// The first item equal to `e`.
#[verifier::opaque]
pub open spec fn first_equal(sel: Seq<ExprV>, e: ExprV) -> Option<int> {
    if sel.contains(e) {
        Some(choose|i: int| 0 <= i < sel.len() && sel[i] == e && forall|k: int| 0 <= k < i ==> sel[k] != e)
    } else {
        None
    }
}

/// How a select list and the group-by list look after one group-by entry
/// `e` has been matched against the select list, given the placeholder
/// number `next`: (select list, new group-by entries, placeholders used).
pub open spec fn group_by_step(sel: Seq<ExprV>, e: ExprV, next: usize) -> (Seq<ExprV>, Seq<ExprV>, nat) {
    let by_alias = match e {
        ExprV::Alias { alias, .. } => alias_position(sel, alias),
        _ => None,
    };
    match by_alias {
        Some(i) => (sel.update(i, ExprV::InputRef { index: next, ty: expr_type(sel[i]) }), seq![sel[i]], 1),
        None => match first_equal(sel, e) {
            Some(i) => if sel[i] is Constant || sel[i] is ColumnRef {
                (sel, seq![sel[i]], 0)
            } else {
                (sel.update(i, ExprV::InputRef { index: next, ty: expr_type(sel[i]) }), seq![sel[i]], 1)
            },
            None => (sel, Seq::empty(), 0),
        },
    }
}

/// The GROUP BY entries matched one after the other against the select
/// list: (select list, group-by entries added, placeholders used).
pub open spec fn group_by_fold(sel: Seq<ExprV>, gb: Seq<ExprV>, next: nat) -> (Seq<ExprV>, Seq<ExprV>, nat)
    decreases gb.len(),
{
    if gb.len() == 0 {
        (sel, Seq::empty(), 0)
    } else {
        let (s1, g1, u1) = group_by_fold(sel, gb.drop_last(), next);
        let (s2, g2, u2) = group_by_step(s1, gb.last(), (next + u1) as usize);
        (s2, g1 + g2, u1 + u2)
    }
}

/// How many aggregate calls the extraction rewrite takes out, where that fits.
proof fn lemma_count_seq_prefix(s: Seq<ExprV>, n: int)
    requires
        0 <= n <= s.len(),
    ensures
        count_aggs_seq(s.take(n)) <= count_aggs_seq(s),
    decreases s.len() - n,
{
    if n < s.len() {
        lemma_count_seq_prefix(s, n + 1);
        assert(s.take(n + 1).drop_last() =~= s.take(n));
    } else {
        assert(s.take(n) =~= s);
    }
}

pub fn agg_count_list(v: &Vec<ScalarExpression>) -> (r: Option<usize>)
    ensures
        r matches Some(n) ==> n == count_aggs_seq(exprs_view(v@)),
        r is None ==> count_aggs_seq(exprs_view(v@)) > usize::MAX,
{
    let mut total: usize = 0;
    let mut i: usize = 0;
    while i < v.len()
        invariant
            0 <= i <= v@.len(),
            total == count_aggs_seq(exprs_view(v@.take(i as int))),
        decreases v@.len() - i,
    {
        assert(exprs_view(v@.take(i as int + 1)).drop_last() =~= exprs_view(v@.take(i as int)));
        match agg_count(&v[i]) {
            Some(c) => match total.checked_add(c) {
                Some(t) => total = t,
                None => {
                    proof {
                        lemma_count_seq_prefix(exprs_view(v@), i as int + 1);
                        assert(exprs_view(v@).take(i as int + 1) =~= exprs_view(v@.take(i as int + 1)));
                    }
                    return None;
                },
            },
            None => {
                proof {
                    lemma_count_seq_prefix(exprs_view(v@), i as int + 1);
                    assert(exprs_view(v@).take(i as int + 1) =~= exprs_view(v@.take(i as int + 1)));
                }
                return None;
            },
        }
        i = i + 1;
    }
    assert(v@.take(v@.len() as int) =~= v@);
    Some(total)
}

pub fn agg_count(e: &ScalarExpression) -> (r: Option<usize>)
    ensures
        r matches Some(n) ==> n == count_aggs(e@),
        r is None ==> count_aggs(e@) > usize::MAX,
    decreases e,
{
    match e {
        ScalarExpression::AggCall { .. } => Some(1),
        ScalarExpression::Alias { expr, .. } => agg_count(expr),
        ScalarExpression::TypeCast { expr, .. } => agg_count(expr),
        ScalarExpression::IsNull { expr } => agg_count(expr),
        ScalarExpression::Unary { expr, .. } => agg_count(expr),
        ScalarExpression::Binary { left_expr, right_expr, .. } => match (agg_count(left_expr), agg_count(right_expr)) {
            (Some(a), Some(b)) => a.checked_add(b),
            _ => None,
        },
        _ => Some(0),
    }
}

impl<'a> Binder<'a> {
    /// An aggregation over `children`.
    pub fn bind_aggregate(
        &mut self,
        children: LogicalPlan,
        agg_calls: Vec<ScalarExpression>,
        groupby_exprs: Vec<ScalarExpression>,
    ) -> (r: LogicalPlan)
        ensures
            r.operator == Operator::Aggregate(AggregateOperator { agg_calls, groupby_exprs }),
            r.childrens@ == seq![children],
            final(self).context == old(self).context,
    {
        let mut childrens: Vec<LogicalPlan> = Vec::new();
        childrens.push(children);
        LogicalPlan { operator: Operator::Aggregate(AggregateOperator { agg_calls, groupby_exprs }), childrens }
    }

    /// Takes the aggregate calls out of each select item, left to right.
    pub fn extract_select_aggregate(&mut self, select_items: &mut Vec<ScalarExpression>) -> (r: Result<(), BindError>)
        requires
            old(self).context.agg_index + count_aggs_seq(exprs_view(old(select_items)@)) <= usize::MAX,
        ensures
            r is Ok,
            exprs_view(final(select_items)@) == extract_aggs_seq(
                exprs_view(old(select_items)@),
                old(self).context.agg_index as nat,
            ).0,
            exprs_view(final(self).context.agg_calls@) == exprs_view(old(self).context.agg_calls@) + extract_aggs_seq(
                exprs_view(old(select_items)@),
                old(self).context.agg_index as nat,
            ).1,
            final(self).context.agg_index == old(self).context.agg_index + count_aggs_seq(exprs_view(old(select_items)@)),
            same_but_aggs(old(self).context, final(self).context),
    {
        let ghost sv = exprs_view(select_items@);
        let ghost s0 = select_items@;
        let ghost idx = self.context.agg_index as nat;
        let ghost a0 = exprs_view(self.context.agg_calls@);
        let ghost ctx0 = self.context;
        let mut rest: Vec<ScalarExpression> = Vec::new();
        std::mem::swap(select_items, &mut rest);
        let mut done: Vec<ScalarExpression> = Vec::new();
        while rest.len() > 0
            invariant
                done@.len() + rest@.len() == s0.len(),
                rest@ == s0.subrange(done@.len() as int, s0.len() as int),
                sv == exprs_view(s0),
                exprs_view(done@) == extract_aggs_seq(sv.take(done@.len() as int), idx).0,
                exprs_view(self.context.agg_calls@) == a0 + extract_aggs_seq(sv.take(done@.len() as int), idx).1,
                self.context.agg_index == idx + count_aggs_seq(sv.take(done@.len() as int)),
                idx + count_aggs_seq(sv) <= usize::MAX,
                same_but_aggs(ctx0, self.context),
            decreases rest@.len(),
        {
            let ghost k = done@.len() as int;
            let mut item = rest.remove(0);
            assert(item@ == sv[k]);
            proof {
                assert(sv.take(k + 1).drop_last() =~= sv.take(k));
                lemma_count_prefix(sv, k + 1);
                lemma_extract_seq_len(sv.take(k), idx);
            }
            self.visit_column_agg_expr(&mut item);
            let ghost d0 = exprs_view(done@);
            done.push(item);
            assert(exprs_view(done@) =~= d0.push(item@));
            assert(rest@ =~= s0.subrange(done@.len() as int, s0.len() as int));
        }
        assert(sv.take(s0.len() as int) =~= sv);
        *select_items = done;
        Ok(())
    }

    /// Checks that every non-aggregate select item appears in GROUP BY and
    /// every GROUP BY entry is a non-aggregate select item; an alias in
    /// GROUP BY stands for the select item of that alias.
    pub fn validate_groupby_illegal_column(
        &self,
        select_items: &Vec<ScalarExpression>,
        groupby: &Vec<ScalarExpression>,
    ) -> (r: Result<(), BindError>)
        ensures
            r is Ok <==> groupby_legal(
                exprs_view(select_items@),
                exprs_view(groupby@),
                self.context.agg_calls@.len() as nat,
            ),
            r is Err ==> r matches Err(BindError::AggMiss(_)),
    {
        let ghost sv = exprs_view(select_items@);
        let ghost gv = exprs_view(groupby@);
        let n = self.context.agg_calls.len();
        let raw = group_raw_exprs(select_items, groupby);
        let ghost rv = exprs_view(raw@);
        let mut i: usize = 0;
        while i < select_items.len()
            invariant
                0 <= i <= select_items@.len(),
                sv == exprs_view(select_items@),
                rv == exprs_view(raw@),
                rv == group_raw(sv, gv),
                gv == exprs_view(groupby@),
                n == self.context.agg_calls@.len(),
                forall|i2: int| 0 <= i2 < i && !has_agg(sv[i2], n as nat) ==> rv.contains(sv[i2]),
            decreases select_items@.len() - i,
        {
            if !select_items[i].has_agg_call(n) {
                match position_of(&raw, &select_items[i]) {
                    None => {
                        proof {
                            assert(sv[i as int] == select_items@[i as int]@);
                            assert(!has_agg(sv[i as int], n as nat));
                            assert(!rv.contains(sv[i as int]));
                            assert(rv == group_raw(sv, gv));
                            assert(0 <= i < sv.len());
                            assert(!groupby_legal(sv, gv, n as nat));
                        }
                        return Err(BindError::AggMiss(select_items[i].describe()));
                    },
                    Some(p) => {
                        assert(rv[p as int] == sv[i as int]);
                    },
                }
            }
            i = i + 1;
        }
        let mut j: usize = 0;
        while j < raw.len()
            invariant
                0 <= j <= raw@.len(),
                sv == exprs_view(select_items@),
                rv == exprs_view(raw@),
                rv == group_raw(sv, gv),
                gv == exprs_view(groupby@),
                n == self.context.agg_calls@.len(),
                forall|i2: int| 0 <= i2 < sv.len() && !has_agg(sv[i2], n as nat) ==> rv.contains(sv[i2]),
                forall|j2: int| 0 <= j2 < j ==> #[trigger] plain_item(sv, rv[j2], n as nat),
            decreases raw@.len() - j,
        {
            let mut found = false;
            let mut i: usize = 0;
            while i < select_items.len()
                invariant
                    0 <= i <= select_items@.len(),
                    j < raw@.len(),
                    sv == exprs_view(select_items@),
                    rv == exprs_view(raw@),
                    found ==> plain_item(sv, rv[j as int], n as nat),
                    !found ==> forall|i2: int| 0 <= i2 < i ==> !(!has_agg(sv[i2], n as nat) && sv[i2] == rv[j as int]),
                decreases select_items@.len() - i,
            {
                if !select_items[i].has_agg_call(n) && select_items[i].equals(&raw[j]) {
                    assert(!has_agg(sv[i as int], n as nat) && sv[i as int] == rv[j as int]);
                    found = true;
                }
                i = i + 1;
            }
            if !found {
                proof {
                    assert(!plain_item(sv, rv[j as int], n as nat));
                }
                return Err(BindError::AggMiss(str_of_group()));
            }
            j = j + 1;
        }
        Ok(())
    }

    /// Matches one GROUP BY entry against the select list: the select item
    /// it names moves to the group-by list and a placeholder takes its place
    /// (a plain column or constant is copied and stays).
    pub fn visit_group_by_expr(&mut self, select_list: &mut Vec<ScalarExpression>, expr: &ScalarExpression)
        requires
            old(self).context.group_by_index < usize::MAX,
        ensures
            ({
                let (sel, added, used) = group_by_step(
                    exprs_view(old(select_list)@),
                    expr@,
                    old(self).context.group_by_index,
                );
                &&& exprs_view(final(select_list)@) == sel
                &&& exprs_view(final(self).context.group_by_exprs@) == exprs_view(
                    old(self).context.group_by_exprs@,
                ) + added
                &&& final(self).context.group_by_index == old(self).context.group_by_index + used
            }),
            same_but_groups(old(self).context, final(self).context),
    {
        let ghost sv = exprs_view(select_list@);
        let ghost g0 = exprs_view(self.context.group_by_exprs@);
        if let ScalarExpression::Alias { alias, .. } = expr {
            if let Some(i) = alias_position_of(select_list, alias) {
                let index = self.input_ref_index(InputRefType::GroupBy);
                let item = select_list[i].clone();
                let ty = item.return_type();
                select_list.set(i, ScalarExpression::InputRef { index, ty });
                self.context.group_by_exprs.push(item);
                assert(exprs_view(select_list@) =~= sv.update(i as int, ExprV::InputRef { index, ty }));
                assert(exprs_view(self.context.group_by_exprs@) =~= g0 + seq![sv[i as int]]);
                return;
            }
        }
        let ghost by_alias = match expr@ {
            ExprV::Alias { alias, .. } => alias_position(sv, alias),
            _ => None,
        };
        assert(by_alias is None);
        match position_of(select_list, expr) {
            Some(i) => {
                proof {
                    reveal(first_equal);
                    assert(sv[i as int] == expr@);
                    assert(sv.contains(expr@));
                    let j = choose|j: int| 0 <= j < sv.len() && sv[j] == expr@ && forall|k: int| 0 <= k < j ==> sv[k] != expr@;
                    assert(!(j < i));
                    assert(!(i < j));
                }
                match &select_list[i] {
                    ScalarExpression::Constant(_) | ScalarExpression::ColumnRef(_) => {
                        let item = select_list[i].clone();
                        self.context.group_by_exprs.push(item);
                        assert(exprs_view(select_list@) =~= sv);
                        assert(exprs_view(self.context.group_by_exprs@) =~= g0 + seq![sv[i as int]]);
                    },
                    _ => {
                        let index = self.input_ref_index(InputRefType::GroupBy);
                        let item = select_list[i].clone();
                        let ty = item.return_type();
                        select_list.set(i, ScalarExpression::InputRef { index, ty });
                        self.context.group_by_exprs.push(item);
                        assert(exprs_view(select_list@) =~= sv.update(i as int, ExprV::InputRef { index, ty }));
                        assert(exprs_view(self.context.group_by_exprs@) =~= g0 + seq![sv[i as int]]);
                    },
                }
            },
            None => {
                proof {
                    reveal(first_equal);
                }
                assert(exprs_view(self.context.group_by_exprs@) =~= g0 + Seq::<ExprV>::empty());
            },
        }
    }

    /// Checks a HAVING or ORDER BY expression against the grouping: with a
    /// GROUP BY, it may read only grouped expressions and aggregates.
    pub fn validate_having_orderby(&self, expr: &ScalarExpression) -> (r: Result<(), BindError>)
        ensures
            r is Ok <==> having_ok(
                expr@,
                exprs_view(self.context.group_by_exprs@),
                exprs_view(self.context.agg_calls@),
            ),
            r is Err ==> r matches Err(BindError::AggMiss(_)),
        decreases expr,
    {
        if self.context.group_by_exprs.len() == 0 {
            return Ok(());
        }
        match expr {
            ScalarExpression::AggCall { .. } => {
                if position_of(&self.context.group_by_exprs, expr).is_some() || position_of(
                    &self.context.agg_calls,
                    expr,
                ).is_some() {
                    return Ok(());
                }
                Err(BindError::AggMiss(expr.describe()))
            },
            ScalarExpression::ColumnRef(_) | ScalarExpression::Alias { .. } => {
                if position_of(&self.context.group_by_exprs, expr).is_some() {
                    return Ok(());
                }
                Err(BindError::AggMiss(expr.describe()))
            },
            ScalarExpression::TypeCast { expr, .. } => self.validate_having_orderby(expr),
            ScalarExpression::IsNull { expr } => self.validate_having_orderby(expr),
            ScalarExpression::Unary { expr, .. } => self.validate_having_orderby(expr),
            ScalarExpression::Binary { left_expr, right_expr, .. } => {
                self.validate_having_orderby(left_expr)?;
                self.validate_having_orderby(right_expr)?;
                Ok(())
            },
            ScalarExpression::Constant(_) | ScalarExpression::InputRef { .. } => Ok(()),
        }
    }

    /// Binds the GROUP BY entries, checks them against the select list, and
    /// moves the grouped select items to the group-by list.
    pub fn extract_group_by_aggregate(
        &mut self,
        select_list: &mut Vec<ScalarExpression>,
        groupby: &Vec<Expr>,
    ) -> (r: Result<(), BindError>)
        requires
            tables_wf(old(self).context),
            old(self).context.group_by_index + groupby@.len() <= usize::MAX,
        ensures
            same_but_groups(old(self).context, final(self).context),
            final(self).context.group_by_index <= old(self).context.group_by_index + groupby@.len(),
            r is Err ==> final(self).context == old(self).context && final(select_list)@ == old(select_list)@,
            bound_list(scope_of(old(self).context), groupby@) is None ==> r is Err,
            bound_list(scope_of(old(self).context), groupby@) matches Some(b) ==> (r is Ok <==> groupby_legal(
                exprs_view(old(select_list)@),
                b,
                old(self).context.agg_calls@.len() as nat,
            )),
            bound_list(scope_of(old(self).context), groupby@) matches Some(b) && !groupby_legal(
                exprs_view(old(select_list)@),
                b,
                old(self).context.agg_calls@.len() as nat,
            ) ==> r matches Err(BindError::AggMiss(_)),
            r is Ok ==> (bound_list(scope_of(old(self).context), groupby@) matches Some(b) && ({
                let (sel, groups, used) = group_by_fold(
                    exprs_view(old(select_list)@),
                    b,
                    old(self).context.group_by_index as nat,
                );
                &&& exprs_view(final(select_list)@) == sel
                &&& exprs_view(final(self).context.group_by_exprs@) == exprs_view(
                    old(self).context.group_by_exprs@,
                ) + groups
                &&& final(self).context.group_by_index == old(self).context.group_by_index + used
            })),
            r is Ok ==> exists|bound: Seq<ExprV>|
                bound.len() == groupby@.len() && #[trigger] groupby_legal(
                    exprs_view(old(select_list)@),
                    bound,
                    old(self).context.agg_calls@.len() as nat,
                ),
            (forall|i: int| 0 <= i < old(select_list)@.len() ==> !contains_agg_call(#[trigger] old(select_list)@[i]@))
                ==> forall|i: int| 0 <= i < final(select_list)@.len() ==> !contains_agg_call(#[trigger] final(select_list)@[i]@),
    {
        let ghost clean = forall|i: int| 0 <= i < select_list@.len() ==> !contains_agg_call(#[trigger] select_list@[i]@);
        let bound = self.bind_exprs(groupby)?;
        self.validate_groupby_illegal_column(select_list, &bound)?;
        let ghost ctx0 = self.context;
        assert(ctx0 == old(self).context);
        assert(groupby_legal(exprs_view(select_list@), exprs_view(bound@), ctx0.agg_calls@.len() as nat));
        let ghost s0 = exprs_view(select_list@);
        let ghost bv = exprs_view(bound@);
        let ghost g0 = exprs_view(self.context.group_by_exprs@);
        let mut i: usize = 0;
        assert(bv.take(0) =~= Seq::<ExprV>::empty());
        assert(g0 + Seq::<ExprV>::empty() =~= g0);
        while i < bound.len()
            invariant
                bv == exprs_view(bound@),
                ({
                    let (sel, groups, used) = group_by_fold(s0, bv.take(i as int), ctx0.group_by_index as nat);
                    &&& exprs_view(select_list@) == sel
                    &&& exprs_view(self.context.group_by_exprs@) == g0 + groups
                    &&& self.context.group_by_index == ctx0.group_by_index + used
                    &&& used <= i
                }),
                0 <= i <= bound@.len(),
                bound@.len() == groupby@.len(),
                same_but_groups(ctx0, self.context),
                self.context.group_by_index <= ctx0.group_by_index + i,
                ctx0.group_by_index + groupby@.len() <= usize::MAX,
                clean ==> forall|j: int| 0 <= j < select_list@.len() ==> !contains_agg_call(#[trigger] select_list@[j]@),
            decreases bound@.len() - i,
        {
            let ghost sv = exprs_view(select_list@);
            proof {
                if clean {
                    assert forall|j: int| 0 <= j < sv.len() implies !contains_agg_call(#[trigger] sv[j]) by {
                        assert(sv[j] == select_list@[j]@);
                    }
                    lemma_group_by_step_no_agg(sv, bound@[i as int]@, self.context.group_by_index);
                }
            }
            let ghost gb = exprs_view(self.context.group_by_exprs@);
            proof {
                assert(bv.take(i as int + 1).drop_last() =~= bv.take(i as int));
                assert(bv.take(i as int + 1).last() == bound@[i as int]@);
            }
            self.visit_group_by_expr(select_list, &bound[i]);
            proof {
                let prev = group_by_fold(s0, bv.take(i as int), ctx0.group_by_index as nat);
                let st = group_by_step(prev.0, bound@[i as int]@, (ctx0.group_by_index + prev.2) as usize);
                assert(exprs_view(self.context.group_by_exprs@) =~= g0 + (prev.1 + st.1));
            }
            proof {
                if clean {
                    assert forall|j: int| 0 <= j < select_list@.len() implies !contains_agg_call(#[trigger] select_list@[j]@) by {
                        assert(exprs_view(select_list@)[j] == select_list@[j]@);
                    }
                }
            }
            i = i + 1;
        }
        assert(bv.take(bound@.len() as int) =~= bv);
        Ok(())
    }

    /// Takes the aggregate calls out of `expr`, failing where their number
    /// would not fit the placeholder counter.
    fn extract_checked(&mut self, expr: &mut ScalarExpression) -> (r: Result<(), BindError>)
        ensures
            same_but_aggs(old(self).context, final(self).context),
            r is Ok ==> !contains_agg_call(final(expr)@) && final(expr)@ == extract_aggs(
                old(expr)@,
                old(self).context.agg_index as nat,
            ).0,
            r is Ok ==> exprs_view(final(self).context.agg_calls@) == exprs_view(old(self).context.agg_calls@)
                + extract_aggs(old(expr)@, old(self).context.agg_index as nat).1,
            r is Ok ==> final(self).context.agg_index == old(self).context.agg_index + count_aggs(old(expr)@),
            r is Ok <==> old(self).context.agg_index + count_aggs(old(expr)@) <= usize::MAX,
            r is Err ==> final(self).context == old(self).context,
    {
        match agg_count(expr) {
            Some(n) => {
                if n <= usize::MAX - self.context.agg_index {
                    proof {
                        lemma_extract_no_agg(expr@, self.context.agg_index as nat);
                    }
                    self.visit_column_agg_expr(expr);
                    Ok(())
                } else {
                    Err(BindError::Unsupported("too many aggregate calls".to_owned()))
                }
            },
            None => Err(BindError::Unsupported("too many aggregate calls".to_owned())),
        }
    }

    /// Binds HAVING and ORDER BY, taking their aggregate calls out.
    pub fn extract_having_orderby_aggregate(
        &mut self,
        having: &Option<Expr>,
        orderbys: &Vec<OrderByExpr>,
    ) -> (r: Result<(Option<ScalarExpression>, Option<Vec<SortField>>), BindError>)
        requires
            tables_wf(old(self).context),
        ensures
            same_but_aggs(old(self).context, final(self).context),
            r matches Ok((h, o)) ==> {
                &&& (having is None <==> h is None)
                &&& (h matches Some(e) ==> !contains_agg_call(e@))
                &&& (orderbys@.len() == 0 <==> o is None)
                &&& (o matches Some(v) ==> v@.len() == orderbys@.len() && forall|i: int|
                    0 <= i < v@.len() ==> sort_field_ok(#[trigger] v@[i], orderbys@[i]))
            },
            r matches Ok((h, o)) ==> having_orderby_spec(scope_of(old(self).context),
                *having,
                orderbys@,
                old(self).context.agg_index as nat,
            ) matches Some((hv, es, aggs)) && opt_expr_view(h) == hv && (o matches Some(v) ==> forall|i: int|
                0 <= i < v@.len() ==> (#[trigger] v@[i]).expr@ == es[i]) && exprs_view(final(self).context.agg_calls@)
                == exprs_view(old(self).context.agg_calls@) + aggs && final(self).context.agg_index
                == old(self).context.agg_index + aggs.len(),
            having_orderby_spec(scope_of(old(self).context), *having, orderbys@, old(self).context.agg_index as nat) matches Some(
                (hv, es, aggs),
            ) && old(self).context.agg_index + aggs.len() <= usize::MAX ==> r is Ok,
    {
        let ghost ctx0 = self.context;
        let ghost idx = self.context.agg_index as nat;
        let bound_having = match having {
            Some(h) => Some(self.bind_expr(h)?),
            None => None,
        };
        let mut bound_obs: Vec<ScalarExpression> = Vec::new();
        let mut i: usize = 0;
        while i < orderbys.len()
            invariant
                0 <= i <= orderbys@.len(),
                bound_obs@.len() == i,
                self.context == ctx0,
                ctx0 == old(self).context,
                tables_wf(self.context),
                forall|k: int| 0 <= k < i ==> bound(scope_of(ctx0), #[trigger] orderbys@[k].expr) == Some(bound_obs@[k]@),
            decreases orderbys@.len() - i,
        {
            let e = match self.bind_expr(&orderbys[i].expr) {
                Ok(e) => e,
                Err(err) => {
                    proof {
                        lemma_orderby_spec_fails(scope_of(ctx0), orderbys@, i as int, idx);
                    }
                    return Err(err);
                },
            };
            bound_obs.push(e);
            i = i + 1;
        }
        let ghost a0 = exprs_view(self.context.agg_calls@);
        let return_having = match bound_having {
            Some(h) => {
                let mut e = h;
                proof {
                    lemma_extract_len(e@, idx);
                }
                self.extract_checked(&mut e)?;
                Some(e)
            },
            None => None,
        };
        let ghost a1 = exprs_view(self.context.agg_calls@).subrange(a0.len() as int, exprs_view(self.context.agg_calls@).len() as int);
        assert(exprs_view(self.context.agg_calls@) =~= a0 + a1);
        assert(self.context.agg_index == idx + a1.len()) by {
            if bound_having is Some {
                lemma_extract_len(bound_having->Some_0@, idx);
            }
        }
        let ghost ha: Seq<ExprV> = if having is Some {
            extract_aggs(bound(scope_of(ctx0), having->Some_0)->Some_0, idx).1
        } else {
            Seq::empty()
        };
        assert(a1 == ha);
        assert(having is Some ==> bound(scope_of(ctx0), having->Some_0) is Some);
        let mut fields: Vec<SortField> = Vec::new();
        let mut j: usize = 0;
        assert(orderbys@.take(0) =~= Seq::<OrderByExpr>::empty());
        while j < orderbys.len()
            invariant
                0 <= j <= orderbys@.len(),
                bound_obs@.len() == orderbys@.len(),
                fields@.len() == j,
                same_but_aggs(ctx0, self.context),
                ctx0 == old(self).context,
                idx == ctx0.agg_index,
                a1 == ha,
                having is Some ==> bound(scope_of(ctx0), having->Some_0) is Some,
                ha == (if having is Some {
                    extract_aggs(bound(scope_of(ctx0), having->Some_0)->Some_0, idx).1
                } else {
                    Seq::empty()
                }),
                forall|k: int| 0 <= k < orderbys@.len() ==> bound(scope_of(ctx0), #[trigger] orderbys@[k].expr) == Some(bound_obs@[k]@),
                forall|k: int| 0 <= k < j ==> sort_field_ok(#[trigger] fields@[k], orderbys@[k]),
                orderby_spec(scope_of(ctx0), orderbys@.take(j as int), idx + a1.len()) matches Some((es, aggs)) && (forall|k: int|
                    0 <= k < j ==> (#[trigger] fields@[k]).expr@ == es[k]) && exprs_view(self.context.agg_calls@) == a0
                    + a1 + aggs && self.context.agg_index == idx + a1.len() + aggs.len(),
            decreases orderbys@.len() - j,
        {
            let ghost prev = orderby_spec(scope_of(ctx0), orderbys@.take(j as int), idx + a1.len())->Some_0;
            let mut e = bound_obs[j].clone();
            proof {
                lemma_orderby_step(scope_of(ctx0), orderbys@, j as int, idx + a1.len(), e@);
                lemma_extract_len(e@, idx + a1.len() + prev.1.len());
            }
            let r = self.extract_checked(&mut e);
            if r.is_err() {
                proof {
                    lemma_orderby_spec_total(scope_of(ctx0), orderbys@, j as int + 1, idx + a1.len());
                }
                return Err(BindError::Unsupported("too many aggregate calls".to_owned()));
            }
            let o = &orderbys[j];
            let desc = match o.asc {
                Some(a) => !a,
                None => false,
            };
            let nulls_first = match o.nulls_first {
                Some(n) => n,
                None => false,
            };
            let ghost f0 = fields@;
            fields.push(SortField { expr: e, desc, nulls_first });
            proof {
                lemma_orderby_spec_len(scope_of(ctx0), orderbys@.take(j as int), idx + a1.len());
                let nxt = orderby_spec(scope_of(ctx0), orderbys@.take(j as int + 1), idx + a1.len())->Some_0;
                assert(nxt.0 == prev.0.push(e@));
                assert forall|k: int| 0 <= k < j + 1 implies (#[trigger] fields@[k]).expr@ == nxt.0[k] by {
                    if k < j {
                        assert(fields@[k] == f0[k]);
                    }
                }
            }
            assert(exprs_view(self.context.agg_calls@) =~= a0 + a1 + orderby_spec(scope_of(ctx0), orderbys@.take(j as int + 1), idx + a1.len())->Some_0.1);
            assert(forall|k: int| 0 <= k < j ==> fields@[k] == f0[k]);
            j = j + 1;
        }
        assert(orderbys@.take(orderbys@.len() as int) =~= orderbys@);
        if orderbys.len() == 0 {
            return Ok((return_having, None));
        }
        Ok((return_having, Some(fields)))
    }

    /// Takes the aggregate calls out of an expression (see `extract_aggs`).
    fn take_aggs(&mut self, e: ScalarExpression) -> (r: ScalarExpression)
        requires
            old(self).context.agg_index + count_aggs(e@) <= usize::MAX,
        ensures
            r@ == extract_aggs(e@, old(self).context.agg_index as nat).0,
            exprs_view(final(self).context.agg_calls@) == exprs_view(old(self).context.agg_calls@) + extract_aggs(
                e@,
                old(self).context.agg_index as nat,
            ).1,
            final(self).context.agg_index == old(self).context.agg_index + count_aggs(e@),
            same_but_aggs(old(self).context, final(self).context),
        decreases e,
    {
        proof {
            lemma_extract_len(e@, self.context.agg_index as nat);
        }
        let ghost a0 = self.context.agg_calls@;
        match e {
            ScalarExpression::AggCall { distinct, kind, args, ty } => {
                let index = self.input_ref_index(InputRefType::AggCall);
                let e2 = ScalarExpression::AggCall { distinct, kind, args, ty };
                self.context.agg_calls.push(e2);
                assert(exprs_view(self.context.agg_calls@) =~= exprs_view(a0) + seq![e2@]);
                ScalarExpression::InputRef { index, ty }
            },
            ScalarExpression::Alias { expr, alias } => {
                let x = self.take_aggs(*expr);
                ScalarExpression::Alias { expr: Box::new(x), alias }
            },
            ScalarExpression::TypeCast { expr, ty } => {
                let x = self.take_aggs(*expr);
                ScalarExpression::TypeCast { expr: Box::new(x), ty }
            },
            ScalarExpression::IsNull { expr } => {
                let x = self.take_aggs(*expr);
                ScalarExpression::IsNull { expr: Box::new(x) }
            },
            ScalarExpression::Unary { op, expr, ty } => {
                let x = self.take_aggs(*expr);
                ScalarExpression::Unary { op, expr: Box::new(x), ty }
            },
            ScalarExpression::Binary { op, left_expr, right_expr, ty } => {
                proof {
                    lemma_extract_len(left_expr@, self.context.agg_index as nat);
                }
                let l = self.take_aggs(*left_expr);
                let r = self.take_aggs(*right_expr);
                assert(exprs_view(self.context.agg_calls@) =~= exprs_view(a0) + extract_aggs(e@, old(self).context.agg_index as nat).1);
                ScalarExpression::Binary { op, left_expr: Box::new(l), right_expr: Box::new(r), ty }
            },
            other => {
                assert(exprs_view(self.context.agg_calls@) =~= exprs_view(a0) + Seq::<ExprV>::empty());
                other
            },
        }
    }

    /// Replaces each aggregate call in `expr`, in pre-order, by a placeholder
    /// of the call's type, and appends the call to the context's list.
    pub fn visit_column_agg_expr(&mut self, expr: &mut ScalarExpression)
        requires
            old(self).context.agg_index + count_aggs(old(expr)@) <= usize::MAX,
        ensures
            final(expr)@ == extract_aggs(old(expr)@, old(self).context.agg_index as nat).0,
            exprs_view(final(self).context.agg_calls@) == exprs_view(old(self).context.agg_calls@) + extract_aggs(
                old(expr)@,
                old(self).context.agg_index as nat,
            ).1,
            final(self).context.agg_index == old(self).context.agg_index + count_aggs(old(expr)@),
            same_but_aggs(old(self).context, final(self).context),
    {
        let mut taken = ScalarExpression::InputRef { index: 0, ty: LogicalType::Invalid };
        std::mem::swap(expr, &mut taken);
        *expr = self.take_aggs(taken);
    }
}

}
