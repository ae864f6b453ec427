use vstd::prelude::*;
use crate::types::{ColumnId, IdGenerator, LogicalType};

verus! {

/// The name of a table as the binder knows it.
pub type TableName = String;

/// The descriptor of a column.
#[derive(Clone, Copy, Debug, PartialEq, Eq, Structural, Hash)]
pub struct ColumnDesc {
    pub column_datatype: LogicalType,
    pub is_primary: bool,
}

impl ColumnDesc {
    pub fn new(column_datatype: LogicalType, is_primary: bool) -> (r: ColumnDesc)
        ensures
            r.column_datatype == column_datatype,
            r.is_primary == is_primary,
    {
        ColumnDesc { column_datatype, is_primary }
    }
}

/// A column of a table: equality is over all fields.
#[derive(Debug)]
pub struct ColumnCatalog {
    pub id: ColumnId,
    pub name: String,
    pub table_name: Option<TableName>,
    pub nullable: bool,
    pub desc: ColumnDesc,
}

/// The mathematical model of a `ColumnCatalog`.
pub struct ColumnV {
    pub id: ColumnId,
    pub name: Seq<char>,
    pub table_name: Option<Seq<char>>,
    pub nullable: bool,
    pub desc: ColumnDesc,
}

pub open spec fn opt_str_view(s: Option<String>) -> Option<Seq<char>> {
    match s {
        Some(s) => Some(s@),
        None => None,
    }
}

impl View for ColumnCatalog {
    type V = ColumnV;

    open spec fn view(&self) -> ColumnV {
        ColumnV {
            id: self.id,
            name: self.name@,
            table_name: opt_str_view(self.table_name),
            nullable: self.nullable,
            desc: self.desc,
        }
    }
}

pub fn clone_opt_str(s: &Option<String>) -> (r: Option<String>)
    ensures
        opt_str_view(r) == opt_str_view(*s),
{
    match s {
        Some(s) => Some(s.clone()),
        None => None,
    }
}

pub fn opt_str_eq(a: &Option<String>, b: &Option<String>) -> (r: bool)
    ensures
        r == (opt_str_view(*a) == opt_str_view(*b)),
{
    match (a, b) {
        (Some(x), Some(y)) => *x == *y,
        (None, None) => true,
        _ => false,
    }
}

impl Clone for ColumnCatalog {
    fn clone(&self) -> (r: Self)
        ensures
            r@ == self@,
    {
        ColumnCatalog {
            id: self.id,
            name: self.name.clone(),
            table_name: clone_opt_str(&self.table_name),
            nullable: self.nullable,
            desc: self.desc,
        }
    }
}

impl ColumnCatalog {
    /// A new column with a fresh id and no table.
    pub fn new(column_name: String, nullable: bool, column_desc: ColumnDesc, ids: &mut IdGenerator) -> (r: ColumnCatalog)
        requires
            old(ids).next < u32::MAX,
        ensures
            r.id == old(ids).next,
            final(ids).next == old(ids).next + 1,
            r.name@ == column_name@,
            r.table_name is None,
            r.nullable == nullable,
            r.desc == column_desc,
    {
        ColumnCatalog {
            id: ids.build(),
            name: column_name,
            table_name: None,
            nullable,
            desc: column_desc,
        }
    }

    pub fn datatype(&self) -> (r: &LogicalType)
        ensures
            *r == self.desc.column_datatype,
    {
        &self.desc.column_datatype
    }

    pub fn desc(&self) -> (r: &ColumnDesc)
        ensures
            *r == self.desc,
    {
        &self.desc
    }

    /// Structural equality over all fields.
    pub fn equals(&self, other: &ColumnCatalog) -> (r: bool)
        ensures
            r == (self@ == other@),
    {
        self.id == other.id && self.name == other.name && opt_str_eq(&self.table_name, &other.table_name)
            && self.nullable == other.nullable && self.desc == other.desc
    }

    /// A column definition of a `CREATE TABLE` statement, as a new column.
    pub fn from_column_def(column_def: ColumnDef, ids: &mut IdGenerator) -> (r: ColumnCatalog)
        requires
            old(ids).next < u32::MAX,
            forall|i: int| 0 <= i < column_def.options@.len() ==> !(column_def.options@[i] == (ColumnOption::Unique { is_primary: false })),
        ensures
            r.id == old(ids).next,
            final(ids).next == old(ids).next + 1,
            r.name@ == column_def.name@,
            r.table_name is None,
            r.nullable == def_nullable(column_def.options@),
            r.desc.column_datatype == column_def.data_type,
            r.desc.is_primary == def_primary(column_def.options@),
    {
        let mut column_desc = ColumnDesc::new(column_def.data_type, false);
        let mut nullable = false;
        let options = &column_def.options;
        let mut i: usize = 0;
        while i < options.len()
            invariant
                0 <= i <= options@.len(),
                options == &column_def.options,
                ids.next == old(ids).next,
                ids.next < u32::MAX,
                forall|k: int| 0 <= k < options@.len() ==> !(options@[k] == (ColumnOption::Unique { is_primary: false })),
                column_desc.column_datatype == column_def.data_type,
                !column_desc.is_primary,
                nullable == def_nullable(options@.take(i as int)),
                !def_primary(options@.take(i as int)),
            decreases options@.len() - i,
        {
            proof {
                lemma_def_step(options@, i as int);
            }
            match options[i] {
                ColumnOption::Null => nullable = true,
                ColumnOption::NotNull => {},
                ColumnOption::Unique { is_primary } => {
                    column_desc.is_primary = true;
                    proof {
                        lemma_def_stop(options@, i as int);
                    }
                    return ColumnCatalog::new(column_def.name, nullable, column_desc, ids);
                },
            }
            i = i + 1;
        }
        proof {
            assert(options@.take(options@.len() as int) =~= options@);
        }
        ColumnCatalog::new(column_def.name, nullable, column_desc, ids)
    }
}

/// An option of a column definition.
#[derive(Clone, Copy, Debug, PartialEq, Eq, Structural)]
pub enum ColumnOption {
    Null,
    NotNull,
    Unique { is_primary: bool },
}

/// A column definition of a `CREATE TABLE` statement.
pub struct ColumnDef {
    pub name: String,
    pub data_type: LogicalType,
    pub options: Vec<ColumnOption>,
}

/// Options are read in order; a primary key ends the reading.
pub open spec fn def_nullable(options: Seq<ColumnOption>) -> bool
    decreases options.len(),
{
    if options.len() == 0 {
        false
    } else {
        let before = def_nullable(options.drop_last());
        if def_primary(options.drop_last()) {
            before
        } else {
            before || options.last() is Null
        }
    }
}

pub open spec fn def_primary(options: Seq<ColumnOption>) -> bool
    decreases options.len(),
{
    if options.len() == 0 {
        false
    } else {
        def_primary(options.drop_last()) || options.last() == (ColumnOption::Unique { is_primary: true })
    }
}

proof fn lemma_def_step(options: Seq<ColumnOption>, i: int)
    requires
        0 <= i < options.len(),
    ensures
        options.take(i + 1).drop_last() =~= options.take(i),
        options.take(i + 1).last() == options[i],
{
}

proof fn lemma_def_stop(options: Seq<ColumnOption>, i: int)
    requires
        0 <= i < options.len(),
        options[i] == (ColumnOption::Unique { is_primary: true }),
    ensures
        def_primary(options),
        def_nullable(options) == def_nullable(options.take(i)),
    decreases options.len(),
{
    if i == options.len() - 1 {
        assert(options.drop_last() =~= options.take(i));
    } else {
        lemma_def_stop(options.drop_last(), i);
        assert(options.drop_last().take(i) =~= options.take(i));
    }
}

/// The position of the first column of the given name, from `i` on.
pub open spec fn first_col(cols: Seq<ColumnCatalog>, name: Seq<char>, i: int) -> Option<int>
    decreases cols.len() - i,
{
    if i < 0 || i >= cols.len() {
        None
    } else if cols[i].name@ == name {
        Some(i)
    } else {
        first_col(cols, name, i + 1)
    }
}

/// A table: its name and its columns in declaration order.
pub struct TableCatalog {
    pub name: TableName,
    pub columns: Vec<ColumnCatalog>,
}

pub open spec fn has_column_named(cols: Seq<ColumnCatalog>, name: Seq<char>) -> bool {
    exists|i: int| 0 <= i < cols.len() && cols[i].name@ == name
}

impl TableCatalog {
    /// A table whose columns all carry its name.
    pub fn new(name: TableName, columns: Vec<ColumnCatalog>) -> (r: TableCatalog)
        ensures
            r.name@ == name@,
            r.columns@.len() == columns@.len(),
            forall|k: int|
                0 <= k < columns@.len() ==> {
                    let c = #[trigger] r.columns@[k];
                    &&& c.id == columns@[k].id
                    &&& c.name@ == columns@[k].name@
                    &&& opt_str_view(c.table_name) == Some(name@)
                    &&& c.nullable == columns@[k].nullable
                    &&& c.desc == columns@[k].desc
                },
    {
        let mut out: Vec<ColumnCatalog> = Vec::new();
        let mut rest = columns;
        let ghost c0 = rest@;
        while rest.len() > 0
            invariant
                out@.len() + rest@.len() == c0.len(),
                rest@ == c0.subrange(out@.len() as int, c0.len() as int),
                forall|k: int|
                    0 <= k < out@.len() ==> {
                        let c = #[trigger] out@[k];
                        &&& c.id == c0[k].id
                        &&& c.name@ == c0[k].name@
                        &&& opt_str_view(c.table_name) == Some(name@)
                        &&& c.nullable == c0[k].nullable
                        &&& c.desc == c0[k].desc
                    },
            decreases rest@.len(),
        {
            let mut c = rest.remove(0);
            assert(c == c0[out@.len() as int]);
            c.table_name = Some(name.clone());
            out.push(c);
            assert(rest@ =~= c0.subrange(out@.len() as int, c0.len() as int));
        }
        TableCatalog { name, columns: out }
    }

    /// The first column of the given name.
    pub fn get_column_by_name(&self, name: &String) -> (r: Option<&ColumnCatalog>)
        ensures
            r is None <==> !has_column_named(self.columns@, name@),
            r matches Some(c) ==> exists|i: int|
                0 <= i < self.columns@.len() && self.columns@[i] == *c && c.name@ == name@ && forall|k: int|
                    0 <= k < i ==> self.columns@[k].name@ != name@,
            r is None <==> first_col(self.columns@, name@, 0) is None,
            r matches Some(c) ==> first_col(self.columns@, name@, 0) matches Some(i) && 0 <= i < self.columns@.len()
                && self.columns@[i] == *c,
    {
        let mut i: usize = 0;
        while i < self.columns.len()
            invariant
                0 <= i <= self.columns@.len(),
                forall|k: int| 0 <= k < i ==> self.columns@[k].name@ != name@,
                first_col(self.columns@, name@, 0) == first_col(self.columns@, name@, i as int),
            decreases self.columns@.len() - i,
        {
            if self.columns[i].name == *name {
                return Some(&self.columns[i]);
            }
            i = i + 1;
        }
        None
    }

    pub fn contains_column(&self, name: &String) -> (r: bool)
        ensures
            r == has_column_named(self.columns@, name@),
    {
        let mut i: usize = 0;
        while i < self.columns.len()
            invariant
                0 <= i <= self.columns@.len(),
                forall|k: int| 0 <= k < i ==> self.columns@[k].name@ != name@,
            decreases self.columns@.len() - i,
        {
            if self.columns[i].name == *name {
                return true;
            }
            i = i + 1;
        }
        false
    }

    pub fn all_columns(&self) -> (r: Vec<ColumnCatalog>)
        ensures
            r@.len() == self.columns@.len(),
            forall|k: int| 0 <= k < r@.len() ==> r@[k]@ == self.columns@[k]@,
    {
        let mut r: Vec<ColumnCatalog> = Vec::new();
        let mut i: usize = 0;
        while i < self.columns.len()
            invariant
                0 <= i <= self.columns@.len(),
                r@.len() == i,
                forall|k: int| 0 <= k < i ==> r@[k]@ == self.columns@[k]@,
            decreases self.columns@.len() - i,
        {
            r.push(self.columns[i].clone());
            i = i + 1;
        }
        r
    }

    pub fn all_columns_with_id(&self) -> (r: Vec<(ColumnId, ColumnCatalog)>)
        ensures
            r@.len() == self.columns@.len(),
            forall|k: int| 0 <= k < r@.len() ==> r@[k].0 == self.columns@[k].id && r@[k].1@ == self.columns@[k]@,
    {
        let mut r: Vec<(ColumnId, ColumnCatalog)> = Vec::new();
        let mut i: usize = 0;
        while i < self.columns.len()
            invariant
                0 <= i <= self.columns@.len(),
                r@.len() == i,
                forall|k: int| 0 <= k < i ==> r@[k].0 == self.columns@[k].id && r@[k].1@ == self.columns@[k]@,
            decreases self.columns@.len() - i,
        {
            r.push((self.columns[i].id, self.columns[i].clone()));
            i = i + 1;
        }
        r
    }
}

}
