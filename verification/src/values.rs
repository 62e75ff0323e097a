//! The values that the fields of a row hold.
use crate::schema::ColumnType;
use crate::text::same_text;
use vstd::prelude::*;

verus! {

/// An owned value of one field.
#[derive(Debug, Clone, PartialEq, Eq)]
pub enum Value {
    /// No value.
    Null,
    TinyInt(i8),
    SmallInt(i16),
    Int(i32),
    BigInt(i64),
    /// A value of a `text`, `ascii` or `varchar` column.
    Text(String),
    Boolean(bool),
    /// Nanoseconds since midnight.
    Time(i64),
    /// Milliseconds since the epoch.
    Timestamp(i64),
    /// The bits of a single-precision number.
    Float(u32),
    /// The bits of a double-precision number.
    Double(u64),
    Uuid(u128),
    Counter(i64),
}

/// A value of one field that borrows what it can from the caller.
#[derive(Debug, Clone, Copy, PartialEq, Eq)]
pub enum ValueRef<'a> {
    /// No value.
    Null,
    TinyInt(i8),
    SmallInt(i16),
    Int(i32),
    BigInt(i64),
    /// A value of a `text`, `ascii` or `varchar` column.
    Text(&'a str),
    Boolean(bool),
    /// Nanoseconds since midnight.
    Time(i64),
    /// Milliseconds since the epoch.
    Timestamp(i64),
    /// The bits of a single-precision number.
    Float(u32),
    /// The bits of a double-precision number.
    Double(u64),
    Uuid(u128),
    Counter(i64),
}

/// The mathematical value of a [`Value`] or a [`ValueRef`].
pub enum ValueView {
    Null,
    TinyInt(i8),
    SmallInt(i16),
    Int(i32),
    BigInt(i64),
    Text(Seq<char>),
    Boolean(bool),
    Time(i64),
    Timestamp(i64),
    Float(u32),
    Double(u64),
    Uuid(u128),
    Counter(i64),
}

impl ValueView {
    /// Whether the value may stand in a field of the given type: no value only where the
    /// field is nullable, a text in every textual column, any other value in the column
    /// type of its own name.
    pub open spec fn fits(self, column_type: ColumnType, nullable: bool) -> bool {
        match self {
            ValueView::Null => nullable,
            ValueView::TinyInt(_) => column_type == ColumnType::TinyInt,
            ValueView::SmallInt(_) => column_type == ColumnType::SmallInt,
            ValueView::Int(_) => column_type == ColumnType::Int,
            ValueView::BigInt(_) => column_type == ColumnType::BigInt,
            ValueView::Text(_) => column_type.is_textual(),
            ValueView::Boolean(_) => column_type == ColumnType::Boolean,
            ValueView::Time(_) => column_type == ColumnType::Time,
            ValueView::Timestamp(_) => column_type == ColumnType::Timestamp,
            ValueView::Float(_) => column_type == ColumnType::Float,
            ValueView::Double(_) => column_type == ColumnType::Double,
            ValueView::Uuid(_) => column_type == ColumnType::Uuid,
            ValueView::Counter(_) => column_type == ColumnType::Counter,
        }
    }
}

impl View for Value {
    type V = ValueView;

    open spec fn view(&self) -> ValueView {
        match *self {
            Value::Null => ValueView::Null,
            Value::TinyInt(v) => ValueView::TinyInt(v),
            Value::SmallInt(v) => ValueView::SmallInt(v),
            Value::Int(v) => ValueView::Int(v),
            Value::BigInt(v) => ValueView::BigInt(v),
            Value::Text(v) => ValueView::Text(v@),
            Value::Boolean(v) => ValueView::Boolean(v),
            Value::Time(v) => ValueView::Time(v),
            Value::Timestamp(v) => ValueView::Timestamp(v),
            Value::Float(v) => ValueView::Float(v),
            Value::Double(v) => ValueView::Double(v),
            Value::Uuid(v) => ValueView::Uuid(v),
            Value::Counter(v) => ValueView::Counter(v),
        }
    }
}

impl<'a> View for ValueRef<'a> {
    type V = ValueView;

    open spec fn view(&self) -> ValueView {
        match *self {
            ValueRef::Null => ValueView::Null,
            ValueRef::TinyInt(v) => ValueView::TinyInt(v),
            ValueRef::SmallInt(v) => ValueView::SmallInt(v),
            ValueRef::Int(v) => ValueView::Int(v),
            ValueRef::BigInt(v) => ValueView::BigInt(v),
            ValueRef::Text(v) => ValueView::Text(v@),
            ValueRef::Boolean(v) => ValueView::Boolean(v),
            ValueRef::Time(v) => ValueView::Time(v),
            ValueRef::Timestamp(v) => ValueView::Timestamp(v),
            ValueRef::Float(v) => ValueView::Float(v),
            ValueRef::Double(v) => ValueView::Double(v),
            ValueRef::Uuid(v) => ValueView::Uuid(v),
            ValueRef::Counter(v) => ValueView::Counter(v),
        }
    }
}

impl Value {
    /// The same value, borrowing from this one.
    pub fn to_ref(&self) -> (borrowed: ValueRef<'_>)
        ensures
            borrowed@ == self@,
    {
        match self {
            Value::Null => ValueRef::Null,
            Value::TinyInt(v) => ValueRef::TinyInt(*v),
            Value::SmallInt(v) => ValueRef::SmallInt(*v),
            Value::Int(v) => ValueRef::Int(*v),
            Value::BigInt(v) => ValueRef::BigInt(*v),
            Value::Text(v) => ValueRef::Text(v.as_str()),
            Value::Boolean(v) => ValueRef::Boolean(*v),
            Value::Time(v) => ValueRef::Time(*v),
            Value::Timestamp(v) => ValueRef::Timestamp(*v),
            Value::Float(v) => ValueRef::Float(*v),
            Value::Double(v) => ValueRef::Double(*v),
            Value::Uuid(v) => ValueRef::Uuid(*v),
            Value::Counter(v) => ValueRef::Counter(*v),
        }
    }
}

impl<'a> ValueRef<'a> {
    /// An owned copy of the value.
    pub fn to_owned(&self) -> (owned: Value)
        ensures
            owned@ == self@,
    {
        match *self {
            ValueRef::Null => Value::Null,
            ValueRef::TinyInt(v) => Value::TinyInt(v),
            ValueRef::SmallInt(v) => Value::SmallInt(v),
            ValueRef::Int(v) => Value::Int(v),
            ValueRef::BigInt(v) => Value::BigInt(v),
            ValueRef::Text(v) => Value::Text(v.to_owned()),
            ValueRef::Boolean(v) => Value::Boolean(v),
            ValueRef::Time(v) => Value::Time(v),
            ValueRef::Timestamp(v) => Value::Timestamp(v),
            ValueRef::Float(v) => Value::Float(v),
            ValueRef::Double(v) => Value::Double(v),
            ValueRef::Uuid(v) => Value::Uuid(v),
            ValueRef::Counter(v) => Value::Counter(v),
        }
    }

    /// Whether the value may stand in a field of the given type.
    pub fn fits(&self, column_type: ColumnType, nullable: bool) -> (fit: bool)
        ensures
            fit == self@.fits(column_type, nullable),
    {
        match *self {
            ValueRef::Null => nullable,
            ValueRef::TinyInt(_) => column_type == ColumnType::TinyInt,
            ValueRef::SmallInt(_) => column_type == ColumnType::SmallInt,
            ValueRef::Int(_) => column_type == ColumnType::Int,
            ValueRef::BigInt(_) => column_type == ColumnType::BigInt,
            ValueRef::Text(_) => column_type.textual(),
            ValueRef::Boolean(_) => column_type == ColumnType::Boolean,
            ValueRef::Time(_) => column_type == ColumnType::Time,
            ValueRef::Timestamp(_) => column_type == ColumnType::Timestamp,
            ValueRef::Float(_) => column_type == ColumnType::Float,
            ValueRef::Double(_) => column_type == ColumnType::Double,
            ValueRef::Uuid(_) => column_type == ColumnType::Uuid,
            ValueRef::Counter(_) => column_type == ColumnType::Counter,
        }
    }

    /// Whether two values are equal.
    pub fn same(&self, other: &ValueRef<'_>) -> (same: bool)
        ensures
            same == (self@ == other@),
    {
        match (*self, *other) {
            (ValueRef::Null, ValueRef::Null) => true,
            (ValueRef::TinyInt(a), ValueRef::TinyInt(b)) => a == b,
            (ValueRef::SmallInt(a), ValueRef::SmallInt(b)) => a == b,
            (ValueRef::Int(a), ValueRef::Int(b)) => a == b,
            (ValueRef::BigInt(a), ValueRef::BigInt(b)) => a == b,
            (ValueRef::Text(a), ValueRef::Text(b)) => same_text(a, b),
            (ValueRef::Boolean(a), ValueRef::Boolean(b)) => a == b,
            (ValueRef::Time(a), ValueRef::Time(b)) => a == b,
            (ValueRef::Timestamp(a), ValueRef::Timestamp(b)) => a == b,
            (ValueRef::Float(a), ValueRef::Float(b)) => a == b,
            (ValueRef::Double(a), ValueRef::Double(b)) => a == b,
            (ValueRef::Uuid(a), ValueRef::Uuid(b)) => a == b,
            (ValueRef::Counter(a), ValueRef::Counter(b)) => a == b,
            _ => false,
        }
    }
}

/// The views of a list of owned values, in order.
pub open spec fn row_view(values: Seq<Value>) -> Seq<ValueView> {
    values.map_values(|value: Value| value@)
}

/// The views of a list of borrowed values, in order.
pub open spec fn refs_view(values: Seq<ValueRef<'_>>) -> Seq<ValueView> {
    values.map_values(|value: ValueRef<'_>| value@)
}

/// Borrows every value of a list.
pub fn borrow_all(values: &Vec<Value>) -> (borrowed: Vec<ValueRef<'_>>)
    ensures
        refs_view(borrowed@) == row_view(values@),
{
    let mut borrowed: Vec<ValueRef<'_>> = Vec::new();
    let mut i: usize = 0;
    while i < values.len()
        invariant
            i <= values.len(),
            borrowed.len() == i,
            forall|j: int| 0 <= j < i ==> (#[trigger] borrowed[j])@ == values[j]@,
        decreases values.len() - i,
    {
        borrowed.push(values[i].to_ref());
        i += 1;
    }
    assert(refs_view(borrowed@) =~= row_view(values@));
    borrowed
}

/// Copies every value of a list into an owned one.
pub fn own_all(values: &Vec<ValueRef<'_>>) -> (owned: Vec<Value>)
    ensures
        row_view(owned@) == refs_view(values@),
{
    let mut owned: Vec<Value> = Vec::new();
    let mut i: usize = 0;
    while i < values.len()
        invariant
            i <= values.len(),
            owned.len() == i,
            forall|j: int| 0 <= j < i ==> (#[trigger] owned[j])@ == values[j]@,
        decreases values.len() - i,
    {
        owned.push(values[i].to_owned());
        i += 1;
    }
    assert(row_view(owned@) =~= refs_view(values@));
    owned
}

} // verus!
