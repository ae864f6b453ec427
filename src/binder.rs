use vstd::prelude::*;
use crate::ast::{AstValue, Expr};
use crate::catalog::{ColumnCatalog, ColumnV, TableCatalog, TableName, first_col, has_column_named};
use crate::expression::{AggKind, BinaryOperator, ExprV, ScalarExpression, expr_type, exprs_view};
use crate::planner::JoinType;
use crate::types::{DataValue, LogicalType, ValueV, common_type};

verus! {

/// Why a statement could not be bound.
#[derive(Debug)]
pub enum BindError {
    InvalidTable(String),
    InvalidTableName(Vec<String>),
    InvalidColumn(String),
    AggMiss(String),
    Unsupported(String),
}

/// Which counter an input reference takes its index from.
#[derive(Clone, Copy, Debug, PartialEq, Eq, Structural)]
pub enum InputRefType {
    AggCall,
    GroupBy,
}

/// What binding a name reads: the catalog, the tables bound so far, and
/// the select-list aliases registered so far (name and model).
pub struct Scope {
    pub catalog: Catalog,
    pub tables: Seq<BoundTable>,
    pub aliases: Seq<(Seq<char>, ExprV)>,
}

pub open spec fn alias_views(v: Seq<(String, ScalarExpression)>) -> Seq<(Seq<char>, ExprV)> {
    Seq::new(v.len(), |i: int| (v[i].0@, v[i].1@))
}

/// The scope of a binder context.
pub open spec fn scope_of(ctx: BinderContext) -> Scope {
    Scope { catalog: *ctx.catalog, tables: ctx.bind_table@, aliases: alias_views(ctx.aliases@) }
}

/// The catalog entry of the `i`-th table of a scope.
pub open spec fn scope_table(sc: Scope, i: int) -> TableCatalog {
    sc.catalog.tables@[sc.tables[i].table as int]
}

/// The position of the first catalog table of the given name, from `i` on.
pub open spec fn first_table(ts: Seq<TableCatalog>, name: Seq<char>, i: int) -> Option<int>
    decreases ts.len() - i,
{
    if i < 0 || i >= ts.len() {
        None
    } else if ts[i].name@ == name {
        Some(i)
    } else {
        first_table(ts, name, i + 1)
    }
}

/// The position of the first bound table of the given name, from `i` on.
pub open spec fn first_bound(ts: Seq<BoundTable>, name: Seq<char>, i: int) -> Option<int>
    decreases ts.len() - i,
{
    if i < 0 || i >= ts.len() {
        None
    } else if ts[i].name@ == name {
        Some(i)
    } else {
        first_bound(ts, name, i + 1)
    }
}

/// The position of the first alias of the given name, from `i` on.
pub open spec fn first_alias(ts: Seq<(Seq<char>, ExprV)>, name: Seq<char>, i: int) -> Option<int>
    decreases ts.len() - i,
{
    if i < 0 || i >= ts.len() {
        None
    } else if ts[i].0 == name {
        Some(i)
    } else {
        first_alias(ts, name, i + 1)
    }
}

/// The tables that statements are bound against.
pub struct Catalog {
    pub tables: Vec<TableCatalog>,
}

impl Catalog {
    /// The position of the table of the given name.
    pub fn table_catalog(&self, name: &String) -> (r: Option<usize>)
        ensures
            r matches Some(i) ==> i < self.tables@.len() && self.tables@[i as int].name@ == name@,
            r is None ==> forall|k: int| 0 <= k < self.tables@.len() ==> self.tables@[k].name@ != name@,
            r matches Some(i) ==> first_table(self.tables@, name@, 0) == Some(i as int),
            r is None ==> first_table(self.tables@, name@, 0) is None,
    {
        let mut i: usize = 0;
        while i < self.tables.len()
            invariant
                0 <= i <= self.tables@.len(),
                first_table(self.tables@, name@, 0) == first_table(self.tables@, name@, i as int),
                forall|k: int| 0 <= k < i ==> self.tables@[k].name@ != name@,
            decreases self.tables@.len() - i,
        {
            if self.tables[i].name == *name {
                return Some(i);
            }
            i = i + 1;
        }
        None
    }
}

/// A table of the statement: the name it goes by, its place in the
/// catalog, and how it was joined (none for the first table).
pub struct BoundTable {
    pub name: TableName,
    pub table: usize,
    pub join_type: Option<JoinType>,
}

/// The state of one binding pass.
pub struct BinderContext<'a> {
    pub catalog: &'a Catalog,
    pub bind_table: Vec<BoundTable>,
    pub aliases: Vec<(String, ScalarExpression)>,
    pub agg_calls: Vec<ScalarExpression>,
    pub group_by_exprs: Vec<ScalarExpression>,
    pub agg_index: usize,
    pub group_by_index: usize,
}

pub struct Binder<'a> {
    pub context: BinderContext<'a>,
}

/// Every bound table is in the catalog, and names are unique.
pub open spec fn tables_wf(ctx: BinderContext) -> bool {
    &&& forall|i: int| 0 <= i < ctx.bind_table@.len() ==> #[trigger] ctx.bind_table@[i].table < ctx.catalog.tables@.len()
    &&& forall|i: int, j: int|
        0 <= i < j < ctx.bind_table@.len() ==> (#[trigger] ctx.bind_table@[i]).name@ != (#[trigger] ctx.bind_table@[j]).name@
}

pub open spec fn bound_table(ctx: BinderContext, i: int) -> TableCatalog {
    ctx.catalog.tables@[ctx.bind_table@[i].table as int]
}

/// The model of a literal.
pub open spec fn literal_view(v: AstValue) -> ValueV {
    match v {
        AstValue::Number(n) => if i32::MIN <= n <= i32::MAX {
            ValueV::Int32(Some(n as i32))
        } else {
            ValueV::Int64(Some(n))
        },
        AstValue::SingleQuotedString(s) => ValueV::Utf8(Some(s@)),
        AstValue::Boolean(b) => ValueV::Boolean(Some(b)),
        AstValue::Null => ValueV::Null,
    }
}

/// The result type of a binary operator on operands of the given types.
pub open spec fn binary_type(op: BinaryOperator, l: LogicalType, r: LogicalType) -> LogicalType {
    match op {
        BinaryOperator::Plus | BinaryOperator::Minus | BinaryOperator::Multiply | BinaryOperator::Divide
        | BinaryOperator::Modulo => common_type(l, r),
        _ => LogicalType::Boolean,
    }
}

/// The aggregate a function name stands for.
pub open spec fn agg_kind_of(name: Seq<char>) -> Option<AggKind> {
    if name == "count"@ {
        Some(AggKind::Count)
    } else if name == "sum"@ {
        Some(AggKind::Sum)
    } else if name == "avg"@ {
        Some(AggKind::Avg)
    } else if name == "min"@ {
        Some(AggKind::Min)
    } else if name == "max"@ {
        Some(AggKind::Max)
    } else {
        None
    }
}

/// The result type of an aggregate over arguments of the given types.
pub open spec fn agg_type(kind: AggKind, args: Seq<ExprV>) -> LogicalType {
    match kind {
        AggKind::Count => LogicalType::Integer,
        AggKind::Avg => LogicalType::Double,
        _ => if args.len() > 0 {
            expr_type(args[0])
        } else {
            LogicalType::Integer
        },
    }
}

/// The column of the given name in each of the first `n` bound tables
/// that has one, in binding order.
pub open spec fn unq_matches(sc: Scope, name: Seq<char>, n: int) -> Seq<ColumnV>
    decreases n,
{
    if n <= 0 {
        Seq::empty()
    } else {
        let cols = scope_table(sc, n - 1).columns@;
        unq_matches(sc, name, n - 1) + match first_col(cols, name, 0) {
            Some(j) => seq![cols[j]@],
            None => Seq::empty(),
        }
    }
}

pub proof fn lemma_unq_matches_grow(sc: Scope, name: Seq<char>, m: int, n: int)
    requires
        0 <= m <= n,
    ensures
        unq_matches(sc, name, m).len() <= unq_matches(sc, name, n).len(),
    decreases n - m,
{
    if m < n {
        lemma_unq_matches_grow(sc, name, m, n - 1);
    }
}

/// The table a qualifier names: a bound table first, else a catalog table.
pub open spec fn qualified_table(sc: Scope, t: Seq<char>) -> Option<TableCatalog> {
    match first_bound(sc.tables, t, 0) {
        Some(i) => Some(scope_table(sc, i)),
        None => match first_table(sc.catalog.tables@, t, 0) {
            Some(k) => Some(sc.catalog.tables@[k]),
            None => None,
        },
    }
}

/// What a column name of one to three parts binds to. An unqualified name
/// binds to the column of the one bound table that has it, or, where no
/// table has it, to the select-list alias of that name.
pub open spec fn column_bound(sc: Scope, idents: Seq<Seq<char>>) -> Option<ExprV> {
    let n = idents.len();
    if n == 0 || n > 3 {
        None
    } else if n >= 2 {
        match qualified_table(sc, idents[n - 2]) {
            Some(t) => match first_col(t.columns@, idents[n - 1], 0) {
                Some(j) => Some(ExprV::ColumnRef(t.columns@[j]@)),
                None => None,
            },
            None => None,
        }
    } else {
        let m = unq_matches(sc, idents[0], sc.tables.len() as int);
        if m.len() == 1 {
            Some(ExprV::ColumnRef(m[0]))
        } else if m.len() == 0 {
            match first_alias(sc.aliases, idents[0], 0) {
                Some(a) => Some(ExprV::Alias { expr: Box::new(sc.aliases[a].1), alias: idents[0] }),
                None => None,
            }
        } else {
            None
        }
    }
}

pub open spec fn names_view(v: Seq<String>) -> Seq<Seq<char>> {
    Seq::new(v.len(), |i: int| v[i]@)
}

/// What an expression binds to; `None` where binding fails.
pub open spec fn bound(sc: Scope, e: Expr) -> Option<ExprV>
    decreases e, 0nat,
{
    match e {
        Expr::Identifier(name) => column_bound(sc, seq![name@]),
        Expr::CompoundIdentifier(idents) => column_bound(sc, names_view(idents@)),
        Expr::Value(v) => Some(ExprV::Constant(literal_view(v))),
        Expr::BinaryOp { left, op, right } => match (bound(sc, *left), bound(sc, *right)) {
            (Some(l), Some(r)) => Some(
                ExprV::Binary {
                    op,
                    left: Box::new(l),
                    right: Box::new(r),
                    ty: binary_type(op, expr_type(l), expr_type(r)),
                },
            ),
            _ => None,
        },
        Expr::UnaryOp { op, expr } => match bound(sc, *expr) {
            Some(x) => Some(ExprV::Unary { op, expr: Box::new(x), ty: expr_type(x) }),
            None => None,
        },
        Expr::IsNull(x) => match bound(sc, *x) {
            Some(x) => Some(ExprV::IsNull { expr: Box::new(x) }),
            None => None,
        },
        Expr::Cast { expr, data_type } => match bound(sc, *expr) {
            Some(x) => Some(ExprV::TypeCast { expr: Box::new(x), ty: data_type }),
            None => None,
        },
        Expr::Function { name, args, distinct } => match agg_kind_of(name@) {
            Some(kind) => match bound_list(sc, args@) {
                Some(vs) => Some(ExprV::AggCall { distinct, kind, args: vs, ty: agg_type(kind, vs) }),
                None => None,
            },
            None => None,
        },
        Expr::Nested(x) => bound(sc, *x),
        Expr::Unsupported => None,
    }
}

/// What a list of expressions binds to, item by item.
pub open spec fn bound_list(sc: Scope, s: Seq<Expr>) -> Option<Seq<ExprV>>
    decreases s, 1nat,
{
    if s.len() == 0 {
        Some(Seq::empty())
    } else {
        match (bound_list(sc, s.drop_last()), bound(sc, s.last())) {
            (Some(vs), Some(v)) => Some(vs.push(v)),
            _ => None,
        }
    }
}

pub proof fn lemma_bound_list_prefix(sc: Scope, s: Seq<Expr>, n: int)
    requires
        0 <= n <= s.len(),
        bound_list(sc, s.take(n)) is None,
    ensures
        bound_list(sc, s) is None,
    decreases s.len() - n,
{
    if n < s.len() {
        assert(s.take(n + 1).drop_last() =~= s.take(n));
        lemma_bound_list_prefix(sc, s, n + 1);
    } else {
        assert(s.take(n) =~= s);
    }
}

fn str_of(s: &str) -> (r: String)
    ensures
        r@ == s@,
{
    s.to_owned()
}

fn agg_kind_from_name(name: &String) -> (r: Option<AggKind>)
    ensures
        r == agg_kind_of(name@),
{
    proof {
        reveal_strlit("count");
        reveal_strlit("sum");
        reveal_strlit("avg");
        reveal_strlit("min");
        reveal_strlit("max");
    }
    if *name == str_of("count") {
        Some(AggKind::Count)
    } else if *name == str_of("sum") {
        Some(AggKind::Sum)
    } else if *name == str_of("avg") {
        Some(AggKind::Avg)
    } else if *name == str_of("min") {
        Some(AggKind::Min)
    } else if *name == str_of("max") {
        Some(AggKind::Max)
    } else {
        None
    }
}

impl<'a> Binder<'a> {
    pub fn new(catalog: &'a Catalog) -> (r: Binder<'a>)
        ensures
            r.context.catalog == catalog,
            r.context.bind_table@.len() == 0,
            r.context.aliases@.len() == 0,
            r.context.agg_calls@.len() == 0,
            r.context.group_by_exprs@.len() == 0,
            r.context.agg_index == 0,
            r.context.group_by_index == 0,
    {
        Binder {
            context: BinderContext {
                catalog,
                bind_table: Vec::new(),
                aliases: Vec::new(),
                agg_calls: Vec::new(),
                group_by_exprs: Vec::new(),
                agg_index: 0,
                group_by_index: 0,
            },
        }
    }

    /// The next index of the given counter; the counter moves on by one.
    pub fn input_ref_index(&mut self, ty: InputRefType) -> (r: usize)
        requires
            ty is AggCall ==> old(self).context.agg_index < usize::MAX,
            ty is GroupBy ==> old(self).context.group_by_index < usize::MAX,
        ensures
            ty is AggCall ==> r == old(self).context.agg_index && final(self).context == (BinderContext {
                agg_index: (r + 1) as usize,
                ..old(self).context
            }),
            ty is GroupBy ==> r == old(self).context.group_by_index && final(self).context == (BinderContext {
                group_by_index: (r + 1) as usize,
                ..old(self).context
            }),
    {
        match ty {
            InputRefType::AggCall => {
                let r = self.context.agg_index;
                self.context.agg_index = r + 1;
                r
            },
            InputRefType::GroupBy => {
                let r = self.context.group_by_index;
                self.context.group_by_index = r + 1;
                r
            },
        }
    }

    /// The bound table of the given name, by position.
    pub fn find_bound_table(&self, name: &String) -> (r: Option<usize>)
        ensures
            r matches Some(i) ==> i < self.context.bind_table@.len() && self.context.bind_table@[i as int].name@ == name@,
            r is None ==> forall|k: int|
                0 <= k < self.context.bind_table@.len() ==> self.context.bind_table@[k].name@ != name@,
            r matches Some(i) ==> first_bound(self.context.bind_table@, name@, 0) == Some(i as int),
            r is None ==> first_bound(self.context.bind_table@, name@, 0) is None,
    {
        let mut i: usize = 0;
        while i < self.context.bind_table.len()
            invariant
                0 <= i <= self.context.bind_table@.len(),
                first_bound(self.context.bind_table@, name@, 0) == first_bound(self.context.bind_table@, name@, i as int),
                forall|k: int| 0 <= k < i ==> self.context.bind_table@[k].name@ != name@,
            decreases self.context.bind_table@.len() - i,
        {
            if self.context.bind_table[i].name == *name {
                return Some(i);
            }
            i = i + 1;
        }
        None
    }

    fn find_alias(&self, name: &String) -> (r: Option<usize>)
        ensures
            r matches Some(i) ==> i < self.context.aliases@.len() && self.context.aliases@[i as int].0@ == name@,
            r is None ==> forall|k: int| 0 <= k < self.context.aliases@.len() ==> self.context.aliases@[k].0@ != name@,
            r matches Some(i) ==> first_alias(alias_views(self.context.aliases@), name@, 0) == Some(i as int),
            r is None ==> first_alias(alias_views(self.context.aliases@), name@, 0) is None,
    {
        let mut i: usize = 0;
        while i < self.context.aliases.len()
            invariant
                0 <= i <= self.context.aliases@.len(),
                first_alias(alias_views(self.context.aliases@), name@, 0) == first_alias(
                    alias_views(self.context.aliases@),
                    name@,
                    i as int,
                ),
                forall|k: int| 0 <= k < i ==> self.context.aliases@[k].0@ != name@,
            decreases self.context.aliases@.len() - i,
        {
            if self.context.aliases[i].0 == *name {
                return Some(i);
            }
            i = i + 1;
        }
        None
    }

    /// Resolves a column name, qualified by a table or not. An unqualified
    /// name that no table has may name a select-list alias.
    pub fn bind_column_ref(&self, idents: &Vec<String>) -> (r: Result<ScalarExpression, BindError>)
        requires
            tables_wf(self.context),
        ensures
            (idents@.len() == 0 || idents@.len() > 3) ==> r matches Err(BindError::InvalidColumn(_)),
            r is Ok <==> column_bound(scope_of(self.context), names_view(idents@)) is Some,
            r matches Ok(e) ==> column_bound(scope_of(self.context), names_view(idents@)) == Some(e@),
    {
        let ghost nv = names_view(idents@);
        let n = idents.len();
        if n == 0 || n > 3 {
            return Err(BindError::InvalidColumn(str_of("invalid column")));
        }
        let column_name = &idents[n - 1];
        assert(nv[n - 1] == column_name@);
        if n >= 2 {
            let table_name = &idents[n - 2];
            assert(nv[n - 2] == table_name@);
            let table = match self.find_bound_table(table_name) {
                Some(i) => &self.context.catalog.tables[self.context.bind_table[i].table],
                None => match self.context.catalog.table_catalog(table_name) {
                    Some(t) => &self.context.catalog.tables[t],
                    None => {
                        return Err(BindError::InvalidTable(table_name.clone()));
                    },
                },
            };
            assert(qualified_table(scope_of(self.context), nv[n - 2]) == Some(*table));
            match table.get_column_by_name(column_name) {
                Some(c) => Ok(ScalarExpression::ColumnRef(c.clone())),
                None => Err(BindError::InvalidColumn(column_name.clone())),
            }
        } else {
            let ghost ctx = self.context;
            let mut got: Option<&ColumnCatalog> = None;
            let mut i: usize = 0;
            while i < self.context.bind_table.len()
                invariant
                    0 <= i <= self.context.bind_table@.len(),
                    tables_wf(self.context),
                    ctx == self.context,
                    nv == names_view(idents@),
                    nv.len() == 1,
                    nv[0] == column_name@,
                    n == 1,
                    column_name == &idents@[0],
                    got is None <==> unq_matches(scope_of(ctx), column_name@, i as int).len() == 0,
                    got matches Some(c) ==> unq_matches(scope_of(ctx), column_name@, i as int) == seq![c@],
                decreases self.context.bind_table@.len() - i,
            {
                let table = &self.context.catalog.tables[self.context.bind_table[i].table];
                assert(*table == bound_table(ctx, i as int));
                if let Some(c) = table.get_column_by_name(column_name) {
                    if got.is_some() {
                        proof {
                            assert(unq_matches(scope_of(ctx), column_name@, i as int + 1).len() == 2);
                            lemma_unq_matches_grow(scope_of(ctx), column_name@, i as int + 1, ctx.bind_table@.len() as int);
                        }
                        return Err(BindError::InvalidColumn(column_name.clone()));
                    }
                    got = Some(c);
                    assert(unq_matches(scope_of(ctx), column_name@, i as int + 1) =~= seq![c@]);
                } else {
                    assert(unq_matches(scope_of(ctx), column_name@, i as int + 1) =~= unq_matches(scope_of(ctx), column_name@, i as int));
                }
                i = i + 1;
            }
            match got {
                Some(c) => Ok(ScalarExpression::ColumnRef(c.clone())),
                None => match self.find_alias(column_name) {
                    Some(a) => Ok(
                        ScalarExpression::Alias {
                            expr: Box::new(self.context.aliases[a].1.clone()),
                            alias: column_name.clone(),
                        },
                    ),
                    None => Err(BindError::InvalidColumn(column_name.clone())),
                },
            }
        }
    }

    /// Binds each expression of a list, in order.
    pub fn bind_exprs(&self, args: &Vec<Expr>) -> (r: Result<Vec<ScalarExpression>, BindError>)
        requires
            tables_wf(self.context),
        ensures
            r matches Ok(v) ==> v@.len() == args@.len(),
            r is Ok <==> bound_list(scope_of(self.context), args@) is Some,
            r matches Ok(v) ==> bound_list(scope_of(self.context), args@) == Some(exprs_view(v@)),
        decreases args,
    {
        let mut out: Vec<ScalarExpression> = Vec::new();
        let mut i: usize = 0;
        while i < args.len()
            invariant
                0 <= i <= args@.len(),
                out@.len() == i,
                tables_wf(self.context),
                bound_list(scope_of(self.context), args@.take(i as int)) == Some(exprs_view(out@)),
            decreases args@.len() - i,
        {
            proof {
                vstd::std_specs::vec::axiom_vec_index_decreases(*args, i as int);
                assert(args@.take(i as int + 1).drop_last() =~= args@.take(i as int));
            }
            let a = match self.bind_expr(&args[i]) {
                Ok(a) => a,
                Err(e) => {
                    proof {
                        lemma_bound_list_prefix(scope_of(self.context), args@, i as int + 1);
                    }
                    return Err(e);
                },
            };
            let ghost o0 = exprs_view(out@);
            out.push(a);
            assert(exprs_view(out@) =~= o0.push(a@));
            i = i + 1;
        }
        assert(args@.take(args@.len() as int) =~= args@);
        Ok(out)
    }

    /// Binds a parsed expression: names resolved, types attached.
    pub fn bind_expr(&self, expr: &Expr) -> (r: Result<ScalarExpression, BindError>)
        requires
            tables_wf(self.context),
        ensures
            *expr matches Expr::Value(v) ==> r matches Ok(e) && e@ == ExprV::Constant(literal_view(v)),
            *expr matches Expr::BinaryOp { op, .. } ==> (r matches Ok(e) ==> e@ matches ExprV::Binary {
                op: o,
                left,
                right,
                ty,
            } && o == op && ty == binary_type(op, expr_type(*left), expr_type(*right))),
            *expr matches Expr::Function { name, .. } ==> (agg_kind_of(name@) is None ==> r matches Err(
                BindError::Unsupported(_),
            )),
            *expr matches Expr::Function { name, .. } ==> (r matches Ok(e) ==> e@ matches ExprV::AggCall {
                kind,
                args,
                ty,
                ..
            } && agg_kind_of(name@) == Some(kind) && ty == agg_type(kind, args)),
            expr is Unsupported ==> r matches Err(BindError::Unsupported(_)),
            *expr matches Expr::UnaryOp { op, .. } ==> (r matches Ok(e) ==> e@ matches ExprV::Unary { op: o, expr: inner, ty }
                && o == op && ty == expr_type(*inner)),
            expr is IsNull ==> (r matches Ok(e) ==> e@ is IsNull && expr_type(e@) == LogicalType::Boolean),
            *expr matches Expr::Cast { data_type, .. } ==> (r matches Ok(e) ==> e@ matches ExprV::TypeCast { ty, .. } && ty
                == data_type),
            expr is Identifier || expr is CompoundIdentifier ==> (r matches Ok(e) ==> e is ColumnRef || e is Alias),
            r is Ok <==> bound(scope_of(self.context), *expr) is Some,
            r matches Ok(e) ==> bound(scope_of(self.context), *expr) == Some(e@),
        decreases expr,
    {
        match expr {
            Expr::Identifier(name) => {
                let mut idents: Vec<String> = Vec::new();
                idents.push(name.clone());
                self.bind_column_ref(&idents)
            },
            Expr::CompoundIdentifier(idents) => self.bind_column_ref(idents),
            Expr::Value(v) => {
                let value = match v {
                    AstValue::Number(n) => {
                        if i32::MIN as i64 <= *n && *n <= i32::MAX as i64 {
                            DataValue::Int32(Some(*n as i32))
                        } else {
                            DataValue::Int64(Some(*n))
                        }
                    },
                    AstValue::SingleQuotedString(s) => DataValue::Utf8(Some(s.clone())),
                    AstValue::Boolean(b) => DataValue::Boolean(Some(*b)),
                    AstValue::Null => DataValue::Null,
                };
                Ok(ScalarExpression::Constant(value))
            },
            Expr::BinaryOp { left, op, right } => {
                let l = self.bind_expr(left)?;
                let r = self.bind_expr(right)?;
                let ty = match op {
                    BinaryOperator::Plus | BinaryOperator::Minus | BinaryOperator::Multiply | BinaryOperator::Divide
                    | BinaryOperator::Modulo => LogicalType::max_logical_type(&l.return_type(), &r.return_type()),
                    _ => LogicalType::Boolean,
                };
                Ok(ScalarExpression::Binary { op: *op, left_expr: Box::new(l), right_expr: Box::new(r), ty })
            },
            Expr::UnaryOp { op, expr } => {
                let e = self.bind_expr(expr)?;
                let ty = e.return_type();
                Ok(ScalarExpression::Unary { op: *op, expr: Box::new(e), ty })
            },
            Expr::IsNull(e) => {
                let e = self.bind_expr(e)?;
                Ok(ScalarExpression::IsNull { expr: Box::new(e) })
            },
            Expr::Cast { expr, data_type } => {
                let e = self.bind_expr(expr)?;
                Ok(ScalarExpression::TypeCast { expr: Box::new(e), ty: *data_type })
            },
            Expr::Function { name, args, distinct } => {
                let kind = match agg_kind_from_name(name) {
                    Some(k) => k,
                    None => {
                        return Err(BindError::Unsupported(name.clone()));
                    },
                };
                let bound = self.bind_exprs(args)?;
                let ty = match kind {
                    AggKind::Count => LogicalType::Integer,
                    AggKind::Avg => LogicalType::Double,
                    _ => if bound.len() > 0 {
                        bound[0].return_type()
                    } else {
                        LogicalType::Integer
                    },
                };
                proof {
                    crate::expression::lemma_agg_args_view(bound, *distinct, kind, ty);
                }
                Ok(ScalarExpression::AggCall { distinct: *distinct, kind, args: bound, ty })
            },
            Expr::Nested(e) => self.bind_expr(e),
            Expr::Unsupported => Err(BindError::Unsupported(str_of("expression"))),
        }
    }
}

}
