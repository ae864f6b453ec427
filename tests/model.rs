use kip_sql::catalog::{ColumnCatalog, ColumnDef, ColumnDesc, ColumnOption, TableCatalog};
use kip_sql::insert::{ExecutorError, Insert, Tuple};
use kip_sql::planner::InsertOperator;
use kip_sql::types::{DataValue, IdGenerator, LogicalType};

#[test]
fn widening_lattice() {
    assert_eq!(LogicalType::max_logical_type(&LogicalType::Integer, &LogicalType::Bigint), LogicalType::Bigint);
    assert_eq!(LogicalType::max_logical_type(&LogicalType::UTinyint, &LogicalType::Smallint), LogicalType::Smallint);
    assert_eq!(LogicalType::max_logical_type(&LogicalType::UInteger, &LogicalType::UBigint), LogicalType::UBigint);
    assert_eq!(LogicalType::max_logical_type(&LogicalType::Integer, &LogicalType::Double), LogicalType::Double);
    assert_eq!(LogicalType::max_logical_type(&LogicalType::SqlNull, &LogicalType::Varchar), LogicalType::Varchar);
    assert_eq!(LogicalType::max_logical_type(&LogicalType::Date, &LogicalType::DateTime), LogicalType::DateTime);
    assert_eq!(LogicalType::max_logical_type(&LogicalType::Boolean, &LogicalType::Date), LogicalType::Invalid);
}

#[test]
fn ids_are_fresh() {
    let mut ids = IdGenerator::new();
    let a = ColumnCatalog::new("a".to_string(), true, ColumnDesc::new(LogicalType::Integer, false), &mut ids);
    let b = ColumnCatalog::new("b".to_string(), true, ColumnDesc::new(LogicalType::Integer, false), &mut ids);
    assert_ne!(a.id, b.id);
    assert!(a.table_name.is_none());
    assert_eq!(*a.datatype(), LogicalType::Integer);
    assert!(!a.desc().is_primary);
}

#[test]
fn column_from_definition() {
    let mut ids = IdGenerator::new();
    let def = ColumnDef { name: "k".to_string(), data_type: LogicalType::Bigint, options: vec![ColumnOption::Null, ColumnOption::Unique { is_primary: true }] };
    let c = ColumnCatalog::from_column_def(def, &mut ids);
    assert!(c.nullable);
    assert!(c.desc.is_primary);
    assert_eq!(c.desc.column_datatype, LogicalType::Bigint);
    let def = ColumnDef { name: "v".to_string(), data_type: LogicalType::Integer, options: vec![ColumnOption::NotNull] };
    let c = ColumnCatalog::from_column_def(def, &mut ids);
    assert!(!c.nullable && !c.desc.is_primary);
}

fn table() -> TableCatalog {
    let mut ids = IdGenerator::new();
    let k = ColumnCatalog::new("k".to_string(), false, ColumnDesc::new(LogicalType::Integer, true), &mut ids);
    let v = ColumnCatalog::new("v".to_string(), true, ColumnDesc::new(LogicalType::Integer, false), &mut ids);
    let w = ColumnCatalog::new("w".to_string(), false, ColumnDesc::new(LogicalType::Integer, false), &mut ids);
    TableCatalog::new("t".to_string(), vec![k, v, w])
}

#[test]
fn table_lookups() {
    let t = table();
    assert!(t.contains_column(&"v".to_string()));
    assert!(!t.contains_column(&"z".to_string()));
    assert_eq!(t.all_columns().len(), 3);
    let with_id = t.all_columns_with_id();
    assert_eq!(with_id[1].0, t.columns[1].id);
    assert_eq!(t.columns[2].table_name.as_deref(), Some("t"));
}

#[test]
fn insert_fills_missing_columns_with_null() {
    let t = table();
    let insert = Insert::from(InsertOperator { table_name: "t".to_string(), is_overwrite: false });
    assert!(!insert.is_overwrite);
    let input = Tuple {
        id: None,
        columns: vec![t.columns[2].clone(), t.columns[0].clone()],
        values: vec![DataValue::Int32(Some(7)), DataValue::Int32(Some(1))],
    };
    let out = insert.build_tuple(&t, input).unwrap();
    assert!(matches!(out.id, Some(DataValue::Int32(Some(1)))));
    assert_eq!(out.columns.len(), 3);
    assert!(matches!(out.values[0], DataValue::Int32(Some(1))));
    assert!(matches!(out.values[1], DataValue::Int32(None)));
    assert!(matches!(out.values[2], DataValue::Int32(Some(7))));
}

#[test]
fn insert_rejects_null_in_non_nullable_column() {
    let t = table();
    let insert = Insert::from(InsertOperator { table_name: "t".to_string(), is_overwrite: true });
    let input = Tuple { id: None, columns: vec![t.columns[0].clone()], values: vec![DataValue::Int32(Some(1))] };
    assert!(matches!(insert.build_tuple(&t, input), Err(ExecutorError::InternalError(_))));
}
