use vstd::prelude::*;

verus! {

/// Identifier of a column, unique within one catalog generation.
pub type ColumnId = u32;

/// The logical type of a value or an expression.
#[derive(Clone, Copy, Debug, PartialEq, Eq, Structural, Hash)]
pub enum LogicalType {
    Invalid,
    SqlNull,
    Boolean,
    Tinyint,
    Smallint,
    Integer,
    Bigint,
    UTinyint,
    USmallint,
    UInteger,
    UBigint,
    Float,
    Double,
    Varchar,
    Date,
    DateTime,
    Decimal,
}

/// Width class of an integer type (1 to 4), 0 for every other type.
pub open spec fn int_width(t: LogicalType) -> nat {
    match t {
        LogicalType::Tinyint | LogicalType::UTinyint => 1,
        LogicalType::Smallint | LogicalType::USmallint => 2,
        LogicalType::Integer | LogicalType::UInteger => 3,
        LogicalType::Bigint | LogicalType::UBigint => 4,
        _ => 0,
    }
}

pub open spec fn is_signed_int(t: LogicalType) -> bool {
    t is Tinyint || t is Smallint || t is Integer || t is Bigint
}

pub open spec fn is_approx(t: LogicalType) -> bool {
    t is Float || t is Double || t is Decimal
}

pub open spec fn signed_of_width(w: nat) -> LogicalType {
    if w <= 1 {
        LogicalType::Tinyint
    } else if w == 2 {
        LogicalType::Smallint
    } else if w == 3 {
        LogicalType::Integer
    } else {
        LogicalType::Bigint
    }
}

pub open spec fn unsigned_of_width(w: nat) -> LogicalType {
    if w <= 1 {
        LogicalType::UTinyint
    } else if w == 2 {
        LogicalType::USmallint
    } else if w == 3 {
        LogicalType::UInteger
    } else {
        LogicalType::UBigint
    }
}

/// The widening lattice: the common type of two operand types.
pub open spec fn common_type(l: LogicalType, r: LogicalType) -> LogicalType {
    if l == r {
        l
    } else if l is SqlNull {
        r
    } else if r is SqlNull {
        l
    } else if int_width(l) > 0 && int_width(r) > 0 {
        let w = if int_width(l) >= int_width(r) { int_width(l) } else { int_width(r) };
        if is_signed_int(l) || is_signed_int(r) {
            signed_of_width(w)
        } else {
            unsigned_of_width(w)
        }
    } else if (int_width(l) > 0 || is_approx(l)) && (int_width(r) > 0 || is_approx(r)) {
        if l is Decimal || r is Decimal {
            LogicalType::Decimal
        } else if l is Double || r is Double {
            LogicalType::Double
        } else {
            LogicalType::Float
        }
    } else if (l is Date || l is DateTime) && (r is Date || r is DateTime) {
        LogicalType::DateTime
    } else if l is Varchar || r is Varchar {
        LogicalType::Varchar
    } else {
        LogicalType::Invalid
    }
}

impl LogicalType {
    fn width(&self) -> (r: u8)
        ensures
            r as nat == int_width(*self),
    {
        match self {
            LogicalType::Tinyint | LogicalType::UTinyint => 1,
            LogicalType::Smallint | LogicalType::USmallint => 2,
            LogicalType::Integer | LogicalType::UInteger => 3,
            LogicalType::Bigint | LogicalType::UBigint => 4,
            _ => 0,
        }
    }

    fn is_signed(&self) -> (r: bool)
        ensures
            r == is_signed_int(*self),
    {
        matches!(self, LogicalType::Tinyint | LogicalType::Smallint | LogicalType::Integer | LogicalType::Bigint)
    }

    fn is_approximate(&self) -> (r: bool)
        ensures
            r == is_approx(*self),
    {
        matches!(self, LogicalType::Float | LogicalType::Double | LogicalType::Decimal)
    }

    fn is_temporal(&self) -> (r: bool)
        ensures
            r == (*self is Date || *self is DateTime),
    {
        matches!(self, LogicalType::Date | LogicalType::DateTime)
    }

    /// The common type of two operand types under the widening lattice.
    pub fn max_logical_type(left: &LogicalType, right: &LogicalType) -> (r: LogicalType)
        ensures
            r == common_type(*left, *right),
    {
        let l = *left;
        let r = *right;
        if l == r {
            l
        } else if matches!(l, LogicalType::SqlNull) {
            r
        } else if matches!(r, LogicalType::SqlNull) {
            l
        } else if l.width() > 0 && r.width() > 0 {
            let w = if l.width() >= r.width() { l.width() } else { r.width() };
            if l.is_signed() || r.is_signed() {
                if w <= 1 {
                    LogicalType::Tinyint
                } else if w == 2 {
                    LogicalType::Smallint
                } else if w == 3 {
                    LogicalType::Integer
                } else {
                    LogicalType::Bigint
                }
            } else if w <= 1 {
                LogicalType::UTinyint
            } else if w == 2 {
                LogicalType::USmallint
            } else if w == 3 {
                LogicalType::UInteger
            } else {
                LogicalType::UBigint
            }
        } else if (l.width() > 0 || l.is_approximate()) && (r.width() > 0 || r.is_approximate()) {
            if matches!(l, LogicalType::Decimal) || matches!(r, LogicalType::Decimal) {
                LogicalType::Decimal
            } else if matches!(l, LogicalType::Double) || matches!(r, LogicalType::Double) {
                LogicalType::Double
            } else {
                LogicalType::Float
            }
        } else if l.is_temporal() && r.is_temporal() {
            LogicalType::DateTime
        } else if matches!(l, LogicalType::Varchar) || matches!(r, LogicalType::Varchar) {
            LogicalType::Varchar
        } else {
            LogicalType::Invalid
        }
    }
}

/// Hands out column ids in increasing order.
pub struct IdGenerator {
    pub next: ColumnId,
}

impl IdGenerator {
    pub fn new() -> (r: IdGenerator)
        ensures
            r.next == 0,
    {
        IdGenerator { next: 0 }
    }

    /// Returns a fresh id: the counter's value, which then moves on by one.
    pub fn build(&mut self) -> (id: ColumnId)
        requires
            old(self).next < u32::MAX,
        ensures
            id == old(self).next,
            final(self).next == old(self).next + 1,
    {
        let id = self.next;
        self.next = self.next + 1;
        id
    }
}

/// A scalar value; `None` in a payload is SQL NULL of that type.
#[derive(Debug)]
pub enum DataValue {
    Null,
    Boolean(Option<bool>),
    Int32(Option<i32>),
    Int64(Option<i64>),
    Utf8(Option<String>),
}

/// The mathematical model of a `DataValue`.
pub enum ValueV {
    Null,
    Boolean(Option<bool>),
    Int32(Option<i32>),
    Int64(Option<i64>),
    Utf8(Option<Seq<char>>),
}

impl View for DataValue {
    type V = ValueV;

    open spec fn view(&self) -> ValueV {
        match self {
            DataValue::Null => ValueV::Null,
            DataValue::Boolean(v) => ValueV::Boolean(*v),
            DataValue::Int32(v) => ValueV::Int32(*v),
            DataValue::Int64(v) => ValueV::Int64(*v),
            DataValue::Utf8(None) => ValueV::Utf8(None),
            DataValue::Utf8(Some(s)) => ValueV::Utf8(Some(s@)),
        }
    }
}

pub open spec fn value_type(v: ValueV) -> LogicalType {
    match v {
        ValueV::Null => LogicalType::SqlNull,
        ValueV::Boolean(_) => LogicalType::Boolean,
        ValueV::Int32(_) => LogicalType::Integer,
        ValueV::Int64(_) => LogicalType::Bigint,
        ValueV::Utf8(_) => LogicalType::Varchar,
    }
}

pub open spec fn value_is_null(v: ValueV) -> bool {
    match v {
        ValueV::Null => true,
        ValueV::Boolean(x) => x is None,
        ValueV::Int32(x) => x is None,
        ValueV::Int64(x) => x is None,
        ValueV::Utf8(x) => x is None,
    }
}

impl Clone for DataValue {
    fn clone(&self) -> (r: Self)
        ensures
            r@ == self@,
    {
        match self {
            DataValue::Null => DataValue::Null,
            DataValue::Boolean(v) => DataValue::Boolean(*v),
            DataValue::Int32(v) => DataValue::Int32(*v),
            DataValue::Int64(v) => DataValue::Int64(*v),
            DataValue::Utf8(None) => DataValue::Utf8(None),
            DataValue::Utf8(Some(s)) => DataValue::Utf8(Some(s.clone())),
        }
    }
}

impl DataValue {
    pub fn logical_type(&self) -> (r: LogicalType)
        ensures
            r == value_type(self@),
    {
        match self {
            DataValue::Null => LogicalType::SqlNull,
            DataValue::Boolean(_) => LogicalType::Boolean,
            DataValue::Int32(_) => LogicalType::Integer,
            DataValue::Int64(_) => LogicalType::Bigint,
            DataValue::Utf8(_) => LogicalType::Varchar,
        }
    }

    pub fn is_null(&self) -> (r: bool)
        ensures
            r == value_is_null(self@),
    {
        match self {
            DataValue::Null => true,
            DataValue::Boolean(x) => x.is_none(),
            DataValue::Int32(x) => x.is_none(),
            DataValue::Int64(x) => x.is_none(),
            DataValue::Utf8(x) => x.is_none(),
        }
    }

    /// A NULL of the given type, where the type has a payload variant.
    pub fn none(ty: &LogicalType) -> (r: DataValue)
        ensures
            value_is_null(r@),
            match *ty {
                LogicalType::Boolean => r@ == ValueV::Boolean(None),
                LogicalType::Integer => r@ == ValueV::Int32(None),
                LogicalType::Bigint => r@ == ValueV::Int64(None),
                LogicalType::Varchar => r@ == ValueV::Utf8(None),
                _ => r@ == ValueV::Null,
            },
    {
        match ty {
            LogicalType::Boolean => DataValue::Boolean(None),
            LogicalType::Integer => DataValue::Int32(None),
            LogicalType::Bigint => DataValue::Int64(None),
            LogicalType::Varchar => DataValue::Utf8(None),
            _ => DataValue::Null,
        }
    }

    pub fn equals(&self, other: &DataValue) -> (r: bool)
        ensures
            r == (self@ == other@),
    {
        match (self, other) {
            (DataValue::Null, DataValue::Null) => true,
            (DataValue::Boolean(a), DataValue::Boolean(b)) => match (a, b) {
                (None, None) => true,
                (Some(x), Some(y)) => *x == *y,
                _ => false,
            },
            (DataValue::Int32(a), DataValue::Int32(b)) => match (a, b) {
                (None, None) => true,
                (Some(x), Some(y)) => *x == *y,
                _ => false,
            },
            (DataValue::Int64(a), DataValue::Int64(b)) => match (a, b) {
                (None, None) => true,
                (Some(x), Some(y)) => *x == *y,
                _ => false,
            },
            (DataValue::Utf8(a), DataValue::Utf8(b)) => match (a, b) {
                (None, None) => true,
                (Some(x), Some(y)) => *x == *y,
                _ => false,
            },
            _ => false,
        }
    }
}

}
