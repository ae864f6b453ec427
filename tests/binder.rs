use kip_sql::ast::{
    AstValue, Expr, Join, JoinConstraint, JoinOperator, OrderByExpr, Query, Select, SelectItem, SetExpr,
    TableFactor, TableWithJoins,
};
use kip_sql::binder::{BindError, Binder, Catalog};
use kip_sql::catalog::{ColumnCatalog, ColumnDesc, TableCatalog};
use kip_sql::expression::{AggKind, BinaryOperator, ScalarExpression};
use kip_sql::planner::{JoinCondition, LogicalPlan, Operator};
use kip_sql::types::{DataValue, IdGenerator, LogicalType};

fn column(name: &str, primary: bool, ids: &mut IdGenerator) -> ColumnCatalog {
    ColumnCatalog::new(name.to_string(), false, ColumnDesc::new(LogicalType::Integer, primary), ids)
}

fn catalog() -> Catalog {
    let mut ids = IdGenerator::new();
    let c1 = column("c1", true, &mut ids);
    let c2 = column("c2", false, &mut ids);
    let c3 = column("c3", true, &mut ids);
    let c4 = column("c4", false, &mut ids);
    let a = column("a", true, &mut ids);
    let b = column("b", false, &mut ids);
    Catalog {
        tables: vec![
            TableCatalog::new("t1".to_string(), vec![c1, c2]),
            TableCatalog::new("t2".to_string(), vec![c3, c4]),
            TableCatalog::new("t".to_string(), vec![a, b]),
        ],
    }
}

fn ident(s: &str) -> Expr {
    Expr::Identifier(s.to_string())
}

fn compound(t: &str, c: &str) -> Expr {
    Expr::CompoundIdentifier(vec![t.to_string(), c.to_string()])
}

fn num(n: i64) -> Expr {
    Expr::Value(AstValue::Number(n))
}

fn bin(l: Expr, op: BinaryOperator, r: Expr) -> Expr {
    Expr::BinaryOp { left: Box::new(l), op, right: Box::new(r) }
}

fn table(name: &str) -> TableWithJoins {
    TableWithJoins { relation: TableFactor::Table { name: vec![name.to_string()], alias: None }, joins: vec![] }
}

fn select(projection: Vec<SelectItem>, from: Vec<TableWithJoins>, selection: Option<Expr>) -> Select {
    Select { distinct: false, projection, from, selection, group_by: vec![], having: None }
}

fn query(select: Select) -> Query {
    Query { with: false, body: SetExpr::Select(Box::new(select)), order_by: vec![], limit: None, offset: None }
}

fn bind(catalog: &Catalog, q: &Query) -> Result<LogicalPlan, BindError> {
    let mut binder = Binder::new(catalog);
    binder.bind_query(q)
}

fn star_from_t1() -> Query {
    query(select(vec![SelectItem::Wildcard], vec![table("t1")], None))
}

fn join_t1_t2(op: JoinOperator, projection: Vec<SelectItem>) -> Query {
    let from = TableWithJoins {
        relation: TableFactor::Table { name: vec!["t1".to_string()], alias: None },
        joins: vec![Join { relation: TableFactor::Table { name: vec!["t2".to_string()], alias: None }, join_operator: op }],
    };
    query(select(projection, vec![from], None))
}

fn unnamed(e: Expr) -> SelectItem {
    SelectItem::UnnamedExpr(e)
}

fn column_names(cols: &[ScalarExpression]) -> Vec<String> {
    cols.iter()
        .map(|e| match e.unpack_alias() {
            ScalarExpression::ColumnRef(c) => c.name.clone(),
            _ => "?".to_string(),
        })
        .collect()
}

#[test]
fn test_select_bind() {
    let catalog = catalog();
    let plan_1 = bind(&catalog, &star_from_t1()).unwrap();
    println!("just_col:\n {:#?}", plan_1);
    let plan_2 = bind(
        &catalog,
        &query(select(vec![unnamed(compound("t1", "c1")), unnamed(compound("t1", "c2"))], vec![table("t1")], None)),
    )
    .unwrap();
    println!("table_with_col:\n {:#?}", plan_2);
    let plan_3 = bind(
        &catalog,
        &query(select(
            vec![unnamed(compound("t1", "c1")), unnamed(compound("t1", "c2"))],
            vec![table("t1")],
            Some(bin(ident("c1"), BinaryOperator::Gt, num(2))),
        )),
    )
    .unwrap();
    println!("table_with_col_and_c1_compare_constant:\n {:#?}", plan_3);
    let plan_4 = bind(
        &catalog,
        &query(select(
            vec![unnamed(compound("t1", "c1")), unnamed(compound("t1", "c2"))],
            vec![table("t1")],
            Some(bin(ident("c1"), BinaryOperator::Gt, ident("c2"))),
        )),
    )
    .unwrap();
    println!("table_with_col_and_c1_compare_c2:\n {:#?}", plan_4);
    let avg = Expr::Function { name: "avg".to_string(), args: vec![compound("t1", "c1")], distinct: false };
    let plan_5 = bind(&catalog, &query(select(vec![unnamed(avg)], vec![table("t1")], None))).unwrap();
    println!("table_with_col_and_c1_avg:\n {:#?}", plan_5);
    let nested = bin(
        Expr::Nested(Box::new(bin(compound("t1", "c1"), BinaryOperator::Minus, compound("t1", "c2")))),
        BinaryOperator::Gt,
        num(1),
    );
    let plan_6 = bind(
        &catalog,
        &query(select(vec![unnamed(compound("t1", "c1")), unnamed(compound("t1", "c2"))], vec![table("t1")], Some(nested))),
    )
    .unwrap();
    println!("table_with_col_nested:\n {:#?}", plan_6);
    let mut q7 = star_from_t1();
    q7.limit = Some(num(1));
    let plan_7 = bind(&catalog, &q7).unwrap();
    println!("limit:\n {:#?}", plan_7);
    let mut q8 = star_from_t1();
    q8.offset = Some(num(2));
    let plan_8 = bind(&catalog, &q8).unwrap();
    println!("offset:\n {:#?}", plan_8);
    let on = bin(bin(ident("c1"), BinaryOperator::Eq, ident("c3")), BinaryOperator::And, bin(ident("c1"), BinaryOperator::Gt, num(1)));
    let plan_9 = bind(
        &catalog,
        &join_t1_t2(JoinOperator::Inner(JoinConstraint::On(on)), vec![unnamed(ident("c1")), unnamed(ident("c3"))]),
    )
    .unwrap();
    println!("join:\n {:#?}", plan_9);
}

#[test]
fn select_star_projects_all_columns_over_scan() {
    let catalog = catalog();
    let plan = bind(&catalog, &star_from_t1()).unwrap();
    match &plan.operator {
        Operator::Project(p) => assert_eq!(column_names(&p.columns), vec!["c1", "c2"]),
        _ => panic!("expected a projection"),
    }
    assert_eq!(plan.childrens.len(), 1);
    match &plan.childrens[0].operator {
        Operator::Scan(s) => {
            assert_eq!(s.table_name, "t1");
            assert_eq!(column_names(&s.columns), vec!["c1", "c2"]);
        },
        _ => panic!("expected a scan"),
    }
}

#[test]
fn where_becomes_filter_below_projection() {
    let catalog = catalog();
    let q = query(select(
        vec![unnamed(compound("t1", "c1")), unnamed(compound("t1", "c2"))],
        vec![table("t1")],
        Some(bin(ident("c1"), BinaryOperator::Gt, num(2))),
    ));
    let plan = bind(&catalog, &q).unwrap();
    assert!(matches!(plan.operator, Operator::Project(_)));
    match &plan.childrens[0].operator {
        Operator::Filter(f) => {
            assert!(!f.having);
            match &f.predicate {
                ScalarExpression::Binary { op, ty, right_expr, .. } => {
                    assert_eq!(*op, BinaryOperator::Gt);
                    assert_eq!(*ty, LogicalType::Boolean);
                    assert!(matches!(**right_expr, ScalarExpression::Constant(DataValue::Int32(Some(2)))));
                },
                _ => panic!("expected a comparison"),
            }
        },
        _ => panic!("expected a filter"),
    }
    assert!(matches!(plan.childrens[0].childrens[0].operator, Operator::Scan(_)));
}

#[test]
fn avg_becomes_input_ref_over_aggregate() {
    let catalog = catalog();
    let avg = Expr::Function { name: "avg".to_string(), args: vec![ident("c1")], distinct: false };
    let plan = bind(&catalog, &query(select(vec![unnamed(avg)], vec![table("t1")], None))).unwrap();
    match &plan.operator {
        Operator::Project(p) => {
            assert_eq!(p.columns.len(), 1);
            assert!(matches!(p.columns[0], ScalarExpression::InputRef { index: 0, ty: LogicalType::Double }));
        },
        _ => panic!("expected a projection"),
    }
    match &plan.childrens[0].operator {
        Operator::Aggregate(a) => {
            assert_eq!(a.agg_calls.len(), 1);
            assert!(a.groupby_exprs.is_empty());
            match &a.agg_calls[0] {
                ScalarExpression::AggCall { kind, ty, args, .. } => {
                    assert_eq!(*kind, AggKind::Avg);
                    assert_eq!(*ty, LogicalType::Double);
                    assert_eq!(column_names(args), vec!["c1"]);
                },
                _ => panic!("expected an aggregate call"),
            }
        },
        _ => panic!("expected an aggregate"),
    }
    assert!(matches!(plan.childrens[0].childrens[0].operator, Operator::Scan(_)));
}

#[test]
fn inner_join_splits_keys_and_filter() {
    let catalog = catalog();
    let on = bin(bin(ident("c1"), BinaryOperator::Eq, ident("c3")), BinaryOperator::And, bin(ident("c1"), BinaryOperator::Gt, num(1)));
    let plan = bind(
        &catalog,
        &join_t1_t2(JoinOperator::Inner(JoinConstraint::On(on)), vec![unnamed(ident("c1")), unnamed(ident("c3"))]),
    )
    .unwrap();
    match &plan.childrens[0].operator {
        Operator::Join(j) => match &j.on {
            JoinCondition::On { on, filter } => {
                assert_eq!(on.len(), 1);
                assert_eq!(column_names(&[on[0].0.clone(), on[0].1.clone()]), vec!["c1", "c3"]);
                match filter {
                    Some(ScalarExpression::Binary { op, .. }) => assert_eq!(*op, BinaryOperator::Gt),
                    _ => panic!("expected a residual filter"),
                }
            },
            _ => panic!("expected an ON condition"),
        },
        _ => panic!("expected a join"),
    }
}

#[test]
fn join_keys_are_oriented_left_first() {
    let catalog = catalog();
    let on = bin(ident("c3"), BinaryOperator::Eq, ident("c1"));
    let plan = bind(
        &catalog,
        &join_t1_t2(JoinOperator::Inner(JoinConstraint::On(on)), vec![unnamed(ident("c1"))]),
    )
    .unwrap();
    match &plan.childrens[0].operator {
        Operator::Join(j) => match &j.on {
            JoinCondition::On { on, filter } => {
                assert_eq!(column_names(&[on[0].0.clone(), on[0].1.clone()]), vec!["c1", "c3"]);
                assert!(filter.is_none());
            },
            _ => panic!("expected an ON condition"),
        },
        _ => panic!("expected a join"),
    }
}

fn nullability(op: JoinOperator) -> Vec<bool> {
    let catalog = catalog();
    let plan = bind(&catalog, &join_t1_t2(op, vec![unnamed(ident("c1")), unnamed(ident("c3"))])).unwrap();
    match &plan.operator {
        Operator::Project(p) => p
            .columns
            .iter()
            .map(|e| match e {
                ScalarExpression::ColumnRef(c) => c.nullable,
                _ => panic!("expected a column"),
            })
            .collect(),
        _ => panic!("expected a projection"),
    }
}

#[test]
fn outer_joins_force_nullable_columns() {
    let eq = || JoinConstraint::On(bin(ident("c1"), BinaryOperator::Eq, ident("c3")));
    assert_eq!(nullability(JoinOperator::LeftOuter(eq())), vec![false, true]);
    assert_eq!(nullability(JoinOperator::RightOuter(eq())), vec![true, false]);
    assert_eq!(nullability(JoinOperator::FullOuter(eq())), vec![true, true]);
    assert_eq!(nullability(JoinOperator::Inner(eq())), vec![false, false]);
    assert_eq!(nullability(JoinOperator::CrossJoin), vec![false, false]);
}

#[test]
fn group_by_missing_column_is_agg_miss() {
    let catalog = catalog();
    let mut s = select(vec![unnamed(ident("a")), unnamed(ident("b"))], vec![table("t")], None);
    s.group_by = vec![ident("a")];
    assert!(matches!(bind(&catalog, &query(s)), Err(BindError::AggMiss(_))));
}

#[test]
fn group_by_entry_not_selected_is_agg_miss() {
    let catalog = catalog();
    let count = Expr::Function { name: "count".to_string(), args: vec![ident("a")], distinct: false };
    let mut s = select(vec![unnamed(count)], vec![table("t")], None);
    s.group_by = vec![ident("b")];
    assert!(matches!(bind(&catalog, &query(s)), Err(BindError::AggMiss(_))));
}

#[test]
fn group_by_with_aggregate_binds() {
    let catalog = catalog();
    let count = Expr::Function { name: "count".to_string(), args: vec![ident("b")], distinct: false };
    let mut s = select(vec![unnamed(ident("a")), unnamed(count)], vec![table("t")], None);
    s.group_by = vec![ident("a")];
    let plan = bind(&catalog, &query(s)).unwrap();
    match &plan.operator {
        Operator::Project(p) => {
            assert!(matches!(p.columns[0], ScalarExpression::ColumnRef(_)));
            assert!(matches!(p.columns[1], ScalarExpression::InputRef { index: 0, ty: LogicalType::Integer }));
        },
        _ => panic!("expected a projection"),
    }
    match &plan.childrens[0].operator {
        Operator::Aggregate(a) => {
            assert_eq!(a.agg_calls.len(), 1);
            assert_eq!(column_names(&a.groupby_exprs), vec!["a"]);
        },
        _ => panic!("expected an aggregate"),
    }
}

#[test]
fn having_on_ungrouped_column_is_agg_miss() {
    let catalog = catalog();
    let mut s = select(vec![unnamed(ident("a"))], vec![table("t")], None);
    s.group_by = vec![ident("a")];
    s.having = Some(bin(ident("b"), BinaryOperator::Gt, num(1)));
    assert!(matches!(bind(&catalog, &query(s)), Err(BindError::AggMiss(_))));
}

#[test]
fn limit_and_offset_wrap_projection() {
    let catalog = catalog();
    let mut q = star_from_t1();
    q.limit = Some(num(1));
    q.offset = Some(num(2));
    let plan = bind(&catalog, &q).unwrap();
    match &plan.operator {
        Operator::Limit(l) => {
            assert_eq!(l.offset, 2);
            assert_eq!(l.limit, 1);
        },
        _ => panic!("expected a limit"),
    }
    assert!(matches!(plan.childrens[0].operator, Operator::Project(_)));
}

#[test]
fn non_positive_limit_is_invalid_column() {
    let catalog = catalog();
    let mut q = star_from_t1();
    q.limit = Some(num(0));
    assert!(matches!(bind(&catalog, &q), Err(BindError::InvalidColumn(_))));
    let mut q = star_from_t1();
    q.offset = Some(ident("c1"));
    assert!(matches!(bind(&catalog, &q), Err(BindError::InvalidColumn(_))));
}

#[test]
fn unknown_table_and_column_errors() {
    let catalog = catalog();
    let q = query(select(vec![SelectItem::Wildcard], vec![table("nope")], None));
    assert!(matches!(bind(&catalog, &q), Err(BindError::InvalidTable(_))));
    let q = query(select(vec![unnamed(ident("zz"))], vec![table("t1")], None));
    assert!(matches!(bind(&catalog, &q), Err(BindError::InvalidColumn(_))));
    let long = TableWithJoins {
        relation: TableFactor::Table {
            name: vec!["a".to_string(), "b".to_string(), "c".to_string(), "t1".to_string()],
            alias: None,
        },
        joins: vec![],
    };
    let q = query(select(vec![SelectItem::Wildcard], vec![long], None));
    assert!(matches!(bind(&catalog, &q), Err(BindError::InvalidTableName(_))));
}

#[test]
fn unsupported_forms_are_rejected() {
    let catalog = catalog();
    let mut q = star_from_t1();
    q.with = true;
    assert!(matches!(bind(&catalog, &q), Err(BindError::Unsupported(_))));
    let q = query(select(vec![SelectItem::Wildcard], vec![table("t1"), table("t2")], None));
    assert!(matches!(bind(&catalog, &q), Err(BindError::Unsupported(_))));
    let using = JoinOperator::Inner(JoinConstraint::Using(vec!["c1".to_string()]));
    assert!(matches!(bind(&catalog, &join_t1_t2(using, vec![SelectItem::Wildcard])), Err(BindError::Unsupported(_))));
    let f = Expr::Function { name: "upper".to_string(), args: vec![ident("c1")], distinct: false };
    let q = query(select(vec![unnamed(f)], vec![table("t1")], None));
    assert!(matches!(bind(&catalog, &q), Err(BindError::Unsupported(_))));
}

#[test]
fn duplicate_table_is_invalid() {
    let catalog = catalog();
    let from = TableWithJoins {
        relation: TableFactor::Table { name: vec!["t1".to_string()], alias: None },
        joins: vec![Join {
            relation: TableFactor::Table { name: vec!["t1".to_string()], alias: None },
            join_operator: JoinOperator::CrossJoin,
        }],
    };
    let q = query(select(vec![SelectItem::Wildcard], vec![from], None));
    assert!(matches!(bind(&catalog, &q), Err(BindError::InvalidTable(_))));
}

#[test]
fn order_by_flags() {
    let catalog = catalog();
    let mut q = star_from_t1();
    q.order_by = vec![
        OrderByExpr { expr: ident("c1"), asc: None, nulls_first: None },
        OrderByExpr { expr: ident("c2"), asc: Some(false), nulls_first: Some(true) },
    ];
    let plan = bind(&catalog, &q).unwrap();
    match &plan.childrens[0].operator {
        Operator::Sort(s) => {
            assert_eq!(s.sort_fields.len(), 2);
            assert!(!s.sort_fields[0].desc && !s.sort_fields[0].nulls_first);
            assert!(s.sort_fields[1].desc && s.sort_fields[1].nulls_first);
            assert!(s.limit.is_none());
        },
        _ => panic!("expected a sort"),
    }
}

#[test]
fn alias_in_group_by_resolves_to_select_item() {
    let catalog = catalog();
    let item = SelectItem::ExprWithAlias { expr: bin(ident("a"), BinaryOperator::Plus, num(1)), alias: "x".to_string() };
    let mut s = select(vec![item], vec![table("t")], None);
    s.group_by = vec![ident("x")];
    let plan = bind(&catalog, &query(s)).unwrap();
    match &plan.operator {
        Operator::Project(p) => assert!(matches!(p.columns[0], ScalarExpression::InputRef { index: 0, ty: LogicalType::Integer })),
        _ => panic!("expected a projection"),
    }
    match &plan.childrens[0].operator {
        Operator::Aggregate(a) => {
            assert!(a.agg_calls.is_empty());
            assert_eq!(a.groupby_exprs.len(), 1);
            assert!(matches!(a.groupby_exprs[0], ScalarExpression::Alias { .. }));
        },
        _ => panic!("expected an aggregate"),
    }
}

#[test]
fn aggregates_become_numbered_placeholders() {
    let catalog = catalog();
    let count = Expr::Function { name: "count".to_string(), args: vec![ident("a")], distinct: false };
    let sum = Expr::Function { name: "sum".to_string(), args: vec![ident("b")], distinct: false };
    let s = select(vec![unnamed(bin(count, BinaryOperator::Plus, sum))], vec![table("t")], None);
    let plan = bind(&catalog, &query(s)).unwrap();
    match &plan.operator {
        Operator::Project(p) => match &p.columns[0] {
            ScalarExpression::Binary { left_expr, right_expr, .. } => {
                assert!(matches!(**left_expr, ScalarExpression::InputRef { index: 0, ty: LogicalType::Integer }));
                assert!(matches!(**right_expr, ScalarExpression::InputRef { index: 1, ty: LogicalType::Integer }));
            },
            _ => panic!("expected a sum of placeholders"),
        },
        _ => panic!("expected a projection"),
    }
    match &plan.childrens[0].operator {
        Operator::Aggregate(a) => {
            let kinds: Vec<AggKind> = a
                .agg_calls
                .iter()
                .map(|e| match e {
                    ScalarExpression::AggCall { kind, .. } => *kind,
                    _ => panic!("expected an aggregate call"),
                })
                .collect();
            assert_eq!(kinds, vec![AggKind::Count, AggKind::Sum]);
        },
        _ => panic!("expected an aggregate"),
    }
}

#[test]
fn distinct_groups_by_the_select_list() {
    let catalog = catalog();
    let mut s = select(vec![unnamed(ident("a"))], vec![table("t")], None);
    s.distinct = true;
    let plan = bind(&catalog, &query(s)).unwrap();
    match &plan.childrens[0].operator {
        Operator::Aggregate(a) => {
            assert!(a.agg_calls.is_empty());
            assert_eq!(column_names(&a.groupby_exprs), vec!["a"]);
        },
        _ => panic!("expected a grouping"),
    }
}
