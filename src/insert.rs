use vstd::prelude::*;
use crate::catalog::{ColumnCatalog, TableCatalog, TableName};
use crate::expression::cols_view;
use crate::planner::InsertOperator;
use crate::types::{ColumnId, DataValue, LogicalType, ValueV, value_is_null};

verus! {

broadcast use vstd::seq::group_seq_axioms;

/// A row: its columns, their values, and the row's key.
pub struct Tuple {
    pub id: Option<DataValue>,
    pub columns: Vec<ColumnCatalog>,
    pub values: Vec<DataValue>,
}

#[derive(Debug)]
pub enum ExecutorError {
    InternalError(String),
}

/// Writes the rows of its input into a table.
pub struct Insert {
    pub table_name: TableName,
    pub is_overwrite: bool,
}

/// The value the input gives for a column id: the last one given for it.
pub open spec fn value_for(cols: Seq<ColumnCatalog>, vals: Seq<DataValue>, id: ColumnId) -> Option<ValueV>
    decreases vals.len(),
{
    if vals.len() == 0 {
        None
    } else if cols[vals.len() - 1].id == id {
        Some(vals.last()@)
    } else {
        value_for(cols, vals.drop_last(), id)
    }
}

/// The NULL of a column type.
pub open spec fn null_of(ty: LogicalType) -> ValueV {
    match ty {
        LogicalType::Boolean => ValueV::Boolean(None),
        LogicalType::Integer => ValueV::Int32(None),
        LogicalType::Bigint => ValueV::Int64(None),
        LogicalType::Varchar => ValueV::Utf8(None),
        _ => ValueV::Null,
    }
}

/// The value stored for a table column: the input's, or NULL.
pub open spec fn stored_value(col: ColumnCatalog, cols: Seq<ColumnCatalog>, vals: Seq<DataValue>) -> ValueV {
    match value_for(cols, vals, col.id) {
        Some(v) => v,
        None => null_of(col.desc.column_datatype),
    }
}

/// The first primary-key column of a row.
pub open spec fn is_first_primary(cols: Seq<ColumnCatalog>, p: int) -> bool {
    0 <= p < cols.len() && cols[p].desc.is_primary && forall|k: int| 0 <= k < p ==> !cols[k].desc.is_primary
}

/// Some column would hold NULL though it does not take NULLs.
pub open spec fn null_violation(table: Seq<ColumnCatalog>, cols: Seq<ColumnCatalog>, vals: Seq<DataValue>) -> bool {
    exists|k: int| 0 <= k < table.len() && !table[k].nullable && value_is_null(#[trigger] stored_value(table[k], cols, vals))
}

impl Insert {
    pub fn from(op: InsertOperator) -> (r: Insert)
        ensures
            r.table_name == op.table_name,
            r.is_overwrite == op.is_overwrite,
    {
        Insert { table_name: op.table_name, is_overwrite: op.is_overwrite }
    }

    /// The row to store for an input row: the table's columns in order,
    /// each with the input's value for its id or NULL, keyed by the value of
    /// the input's first primary-key column. Fails where a column that
    /// takes no NULLs would hold one.
    pub fn build_tuple(&self, table: &TableCatalog, tuple: Tuple) -> (r: Result<Tuple, ExecutorError>)
        requires
            tuple.values@.len() <= tuple.columns@.len(),
            exists|p: int| is_first_primary(tuple.columns@, p) && p < tuple.values@.len(),
        ensures
            r is Err <==> null_violation(table.columns@, tuple.columns@, tuple.values@),
            r matches Ok(t) ==> {
                &&& t.id matches Some(v) && exists|p: int| is_first_primary(tuple.columns@, p) && v@ == tuple.values@[p]@
                &&& cols_view(t.columns@) == cols_view(table.columns@)
                &&& t.values@.len() == table.columns@.len()
                &&& forall|k: int|
                    0 <= k < table.columns@.len() ==> (#[trigger] t.values@[k])@ == stored_value(
                        table.columns@[k],
                        tuple.columns@,
                        tuple.values@,
                    )
            },
    {
        let mut p: usize = 0;
        while p < tuple.columns.len() && !tuple.columns[p].desc.is_primary
            invariant
                0 <= p <= tuple.columns@.len(),
                forall|k: int| 0 <= k < p ==> !tuple.columns@[k].desc.is_primary,
                exists|q: int| is_first_primary(tuple.columns@, q) && q < tuple.values@.len(),
            decreases tuple.columns@.len() - p,
        {
            p = p + 1;
        }
        proof {
            let q = choose|q: int| is_first_primary(tuple.columns@, q) && q < tuple.values@.len();
            assert(!(q < p));
            if p < q {
                assert(!tuple.columns@[p as int].desc.is_primary);
            }
        }
        let id = Some(tuple.values[p].clone());
        let mut columns: Vec<ColumnCatalog> = Vec::new();
        let mut values: Vec<DataValue> = Vec::new();
        let mut k: usize = 0;
        while k < table.columns.len()
            invariant
                0 <= k <= table.columns@.len(),
                tuple.values@.len() <= tuple.columns@.len(),
                columns@.len() == k,
                values@.len() == k,
                forall|j: int| 0 <= j < k ==> (#[trigger] columns@[j])@ == table.columns@[j]@,
                forall|j: int|
                    0 <= j < k ==> (#[trigger] values@[j])@ == stored_value(table.columns@[j], tuple.columns@, tuple.values@),
                forall|j: int|
                    0 <= j < k ==> !(!table.columns@[j].nullable && value_is_null(
                        #[trigger] stored_value(table.columns@[j], tuple.columns@, tuple.values@),
                    )),
            decreases table.columns@.len() - k,
        {
            let col = &table.columns[k];
            let v = value_of(&tuple.columns, &tuple.values, col.id);
            let value = match v {
                Some(x) => x,
                None => DataValue::none(col.datatype()),
            };
            assert(value@ == stored_value(table.columns@[k as int], tuple.columns@, tuple.values@));
            if value.is_null() && !col.nullable {
                return Err(ExecutorError::InternalError(col.name.clone()));
            }
            columns.push(col.clone());
            values.push(value);
            k = k + 1;
        }
        proof {
            assert(cols_view(columns@) =~= cols_view(table.columns@));
        }
        Ok(Tuple { id, columns, values })
    }
}

/// The last value the input gives for a column id.
fn value_of(cols: &Vec<ColumnCatalog>, vals: &Vec<DataValue>, id: ColumnId) -> (r: Option<DataValue>)
    requires
        vals@.len() <= cols@.len(),
    ensures
        r matches Some(v) ==> value_for(cols@, vals@, id) == Some(v@),
        r is None ==> value_for(cols@, vals@, id) is None,
{
    let mut i: usize = vals.len();
    assert(vals@.take(i as int) =~= vals@);
    while i > 0
        invariant
            0 <= i <= vals@.len(),
            vals@.len() <= cols@.len(),
            value_for(cols@, vals@, id) == value_for(cols@, vals@.take(i as int), id),
        decreases i,
    {
        assert(vals@.take(i as int).drop_last() =~= vals@.take(i as int - 1));
        if cols[i - 1].id == id {
            return Some(vals[i - 1].clone());
        }
        i = i - 1;
    }
    None
}

}
