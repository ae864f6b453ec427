use kip_sql::ast::{AstValue, Expr, Join, JoinConstraint, JoinOperator, Query, Select, SelectItem, SetExpr, TableFactor, TableWithJoins};
use kip_sql::binder::{Binder, Catalog};
use kip_sql::catalog::{ColumnCatalog, ColumnDesc, TableCatalog};
use kip_sql::column_pruning::{PushProjectIntoScan, PushProjectThroughChild};
use kip_sql::expression::{BinaryOperator, ScalarExpression};
use kip_sql::heuristic::{HepBatchStrategy, HepOptimizer, RuleImpl};
use kip_sql::pattern::{OperatorPredicate, Pattern, PatternChildrenPredicate, PatternMatcher, PlanMatcher};
use kip_sql::planner::{FilterOperator, JoinCondition, LogicalPlan, Operator, ProjectOperator, ScanOperator};
use kip_sql::types::{DataValue, IdGenerator, LogicalType};

fn catalog() -> Catalog {
    let mut ids = IdGenerator::new();
    let mut col = |n: &str, p: bool| ColumnCatalog::new(n.to_string(), false, ColumnDesc::new(LogicalType::Integer, p), &mut ids);
    let c1 = col("c1", true);
    let c2 = col("c2", false);
    let c3 = col("c3", true);
    let c4 = col("c4", false);
    Catalog { tables: vec![TableCatalog::new("t1".to_string(), vec![c1, c2]), TableCatalog::new("t2".to_string(), vec![c3, c4])] }
}

fn ident(s: &str) -> Expr {
    Expr::Identifier(s.to_string())
}

fn query(projection: Vec<SelectItem>, from: TableWithJoins) -> Query {
    let select = Select { distinct: false, projection, from: vec![from], selection: None, group_by: vec![], having: None };
    Query { with: false, body: SetExpr::Select(Box::new(select)), order_by: vec![], limit: None, offset: None }
}

fn t(name: &str) -> TableFactor {
    TableFactor::Table { name: vec![name.to_string()], alias: None }
}

fn bind(catalog: &Catalog, q: &Query) -> LogicalPlan {
    let mut binder = Binder::new(catalog);
    binder.bind_query(q).unwrap()
}

fn left_join_plan(catalog: &Catalog) -> LogicalPlan {
    let on = Expr::BinaryOp { left: Box::new(ident("c1")), op: BinaryOperator::Eq, right: Box::new(ident("c3")) };
    let from = TableWithJoins {
        relation: t("t1"),
        joins: vec![Join { relation: t("t2"), join_operator: JoinOperator::LeftOuter(JoinConstraint::On(on)) }],
    };
    bind(catalog, &query(vec![SelectItem::UnnamedExpr(ident("c1")), SelectItem::UnnamedExpr(ident("c3"))], from))
}

fn scan_names(cols: &[ScalarExpression]) -> Vec<String> {
    cols.iter()
        .map(|e| match e {
            ScalarExpression::ColumnRef(c) => c.name.clone(),
            _ => "?".to_string(),
        })
        .collect()
}

#[test]
fn test_project_into_table_scan() {
    let catalog = catalog();
    let plan = bind(&catalog, &query(vec![SelectItem::Wildcard], TableWithJoins { relation: t("t1"), joins: vec![] }));
    let best_plan = HepOptimizer::new(plan)
        .batch("test_project_into_table_scan".to_string(), HepBatchStrategy::once_topdown(), vec![RuleImpl::PushProjectIntoScan])
        .find_best();
    assert_eq!(best_plan.childrens.len(), 0);
    match best_plan.operator {
        Operator::Scan(op) => {
            assert_eq!(op.columns.len(), 2);
        },
        _ => unreachable!("Should be a scan operator"),
    }
}

#[test]
fn test_project_through_child_on_join() {
    let catalog = catalog();
    let plan = left_join_plan(&catalog);
    let best_plan = HepOptimizer::new(plan)
        .batch(
            "test_project_through_child_on_join".to_string(),
            HepBatchStrategy::fix_point_topdown(10),
            vec![RuleImpl::PushProjectThroughChild, RuleImpl::PushProjectIntoScan],
        )
        .find_best();
    assert_eq!(best_plan.childrens.len(), 1);
    match best_plan.operator {
        Operator::Project(op) => {
            assert_eq!(op.columns.len(), 2);
        },
        _ => unreachable!("Should be a project operator"),
    }
    match &best_plan.childrens[0].operator {
        Operator::Join(op) => match &op.on {
            JoinCondition::On { on, filter } => {
                assert_eq!(on.len(), 1);
                assert!(filter.is_none());
            },
            _ => unreachable!("Should be a on condition"),
        },
        _ => unreachable!("Should be a join operator"),
    }
    assert_eq!(best_plan.childrens[0].childrens.len(), 2);
    for grandson_plan in &best_plan.childrens[0].childrens {
        match &grandson_plan.operator {
            Operator::Scan(op) => {
                assert_eq!(op.columns.len(), 1);
            },
            _ => unreachable!("Should be a scan operator"),
        }
    }
}

#[test]
fn pruned_scans_keep_exactly_the_join_columns() {
    let catalog = catalog();
    let best = HepOptimizer::new(left_join_plan(&catalog))
        .batch("prune".to_string(), HepBatchStrategy::fix_point_topdown(10), vec![RuleImpl::PushProjectThroughChild, RuleImpl::PushProjectIntoScan])
        .find_best();
    let names: Vec<Vec<String>> = best.childrens[0]
        .childrens
        .iter()
        .map(|g| match &g.operator {
            Operator::Scan(s) => scan_names(&s.columns),
            _ => vec![],
        })
        .collect();
    assert_eq!(names, vec![vec!["c1".to_string()], vec!["c3".to_string()]]);
}

#[test]
fn optimizing_keeps_output_types() {
    let catalog = catalog();
    let plan = left_join_plan(&catalog);
    let before: Vec<LogicalType> = match &plan.operator {
        Operator::Project(p) => p.columns.iter().map(|c| c.return_type()).collect(),
        _ => panic!("expected a projection"),
    };
    let best = HepOptimizer::new(plan)
        .batch("prune".to_string(), HepBatchStrategy::fix_point_topdown(10), vec![RuleImpl::PushProjectThroughChild, RuleImpl::PushProjectIntoScan])
        .find_best();
    let after: Vec<LogicalType> = match &best.operator {
        Operator::Project(p) => p.columns.iter().map(|c| c.return_type()).collect(),
        _ => panic!("expected a projection"),
    };
    assert_eq!(before, after);
}

#[test]
fn into_scan_keeps_only_column_references() {
    let catalog = catalog();
    let c1 = catalog.tables[0].columns[0].clone();
    let scan = LogicalPlan {
        operator: Operator::Scan(ScanOperator { table_name: "t1".to_string(), columns: vec![] }),
        childrens: vec![],
    };
    let cols = vec![
        ScalarExpression::Alias { expr: Box::new(ScalarExpression::ColumnRef(c1)), alias: "x".to_string() },
        ScalarExpression::InputRef { index: 0, ty: LogicalType::Integer },
    ];
    let plan = LogicalPlan { operator: Operator::Project(ProjectOperator { columns: cols }), childrens: vec![scan] };
    let r = PushProjectIntoScan.apply(plan);
    match r.operator {
        Operator::Scan(s) => {
            assert_eq!(s.columns.len(), 1);
            assert!(matches!(s.columns[0], ScalarExpression::Alias { .. }));
        },
        _ => panic!("expected a scan"),
    }
}

#[test]
fn rules_leave_other_shapes_alone() {
    let scan = LogicalPlan { operator: Operator::Scan(ScanOperator { table_name: "t1".to_string(), columns: vec![] }), childrens: vec![] };
    let r = PushProjectIntoScan.apply(scan);
    assert!(matches!(r.operator, Operator::Scan(_)));
    let scan = LogicalPlan { operator: Operator::Scan(ScanOperator { table_name: "t1".to_string(), columns: vec![] }), childrens: vec![] };
    let r = PushProjectThroughChild.apply(scan);
    assert!(matches!(r.operator, Operator::Scan(_)));
}

#[test]
fn patterns_match_by_shape() {
    let catalog = catalog();
    let plan = left_join_plan(&catalog);
    let through = PushProjectThroughChild.pattern();
    let into = PushProjectIntoScan.pattern();
    assert!(PlanMatcher { pattern: &through, plan: &plan }.match_opt_expr());
    assert!(!PlanMatcher { pattern: &into, plan: &plan }.match_opt_expr());
    let any = Pattern { predicate: OperatorPredicate::IsProject, children: PatternChildrenPredicate::Recursive };
    assert!(PlanMatcher { pattern: &any, plan: &plan }.match_opt_expr());
    let scan_only = Pattern { predicate: OperatorPredicate::IsScan, children: PatternChildrenPredicate::Opaque };
    assert!(!PlanMatcher { pattern: &scan_only, plan: &plan }.match_opt_expr());
}

#[test]
fn numbers_bind_to_the_smallest_integer_type() {
    let catalog = catalog();
    let big = Expr::Value(AstValue::Number(5_000_000_000));
    let q = query(vec![SelectItem::UnnamedExpr(big)], TableWithJoins { relation: t("t1"), joins: vec![] });
    let plan = bind(&catalog, &q);
    match &plan.operator {
        Operator::Project(p) => assert_eq!(p.columns[0].return_type(), LogicalType::Bigint),
        _ => panic!("expected a projection"),
    }
}

#[test]
fn placeholders_are_pushed_below_an_input_that_reads_no_column() {
    let scan = LogicalPlan { operator: Operator::Scan(ScanOperator { table_name: "t1".to_string(), columns: vec![] }), childrens: vec![] };
    let filter = LogicalPlan {
        operator: Operator::Filter(FilterOperator { predicate: ScalarExpression::Constant(DataValue::Boolean(Some(true))), having: false }),
        childrens: vec![scan],
    };
    let cols = vec![ScalarExpression::InputRef { index: 0, ty: LogicalType::Integer }];
    let plan = LogicalPlan { operator: Operator::Project(ProjectOperator { columns: cols }), childrens: vec![filter] };
    let r = PushProjectThroughChild.apply(plan);
    let below = &r.childrens[0].childrens[0];
    match &below.operator {
        Operator::Project(p) => {
            assert_eq!(p.columns.len(), 1);
            assert!(matches!(p.columns[0], ScalarExpression::InputRef { index: 0, .. }));
        },
        _ => panic!("expected a projection below the filter"),
    }
    assert!(matches!(below.childrens[0].operator, Operator::Scan(_)));
}
