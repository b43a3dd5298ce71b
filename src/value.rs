use vstd::prelude::*;

verus! {

/// The column types a declared field can have.
#[derive(Clone, Copy, Debug, PartialEq, Eq, Structural)]
pub enum FieldType {
    Bool,
    SmallInt,
    Int,
    BigInt,
    Text,
    /// Seconds and nanoseconds since the Unix epoch.
    Timestamp,
}

/// A column value, as read from a row or held by a record.
#[derive(Debug)]
pub enum Value {
    Null,
    Bool(bool),
    SmallInt(i16),
    Int(i32),
    BigInt(i64),
    Text(String),
    /// Seconds and nanoseconds since the Unix epoch.
    Timestamp(i64, i32),
}

/// One declared field of a model: its column name, type and whether it may hold `Null`.
#[derive(Debug)]
pub struct FieldDef {
    pub name: String,
    pub kind: FieldType,
    pub nullable: bool,
}

/// A column name paired with a value: a column of an insert, a `SET` clause,
/// or one equality of a lookup predicate.
#[derive(Debug)]
pub struct ColumnValue {
    pub column: String,
    pub value: Value,
}

/// Whether `v` may be stored in a field declared as `kind` (and nullable or not).
pub open spec fn fits(kind: FieldType, nullable: bool, v: Value) -> bool {
    match v {
        Value::Null => nullable,
        Value::Bool(_) => kind == FieldType::Bool,
        Value::SmallInt(_) => kind == FieldType::SmallInt,
        Value::Int(_) => kind == FieldType::Int,
        Value::BigInt(_) => kind == FieldType::BigInt,
        Value::Text(_) => kind == FieldType::Text,
        Value::Timestamp(_, _) => kind == FieldType::Timestamp,
    }
}

/// Whether `v` may be stored in the field `f`.
pub open spec fn accepts(f: FieldDef, v: Value) -> bool {
    fits(f.kind, f.nullable, v)
}

impl Value {
    /// A copy of this value.
    pub fn duplicate(&self) -> (r: Value)
        ensures
            r == *self,
    {
        match self {
            Value::Null => Value::Null,
            Value::Bool(b) => Value::Bool(*b),
            Value::SmallInt(i) => Value::SmallInt(*i),
            Value::Int(i) => Value::Int(*i),
            Value::BigInt(i) => Value::BigInt(*i),
            Value::Text(s) => Value::Text(s.clone()),
            Value::Timestamp(s, n) => Value::Timestamp(*s, *n),
        }
    }
}

impl FieldDef {
    /// Whether this field accepts `v`.
    pub fn accepts(&self, v: &Value) -> (r: bool)
        ensures
            r == accepts(*self, *v),
    {
        match v {
            Value::Null => self.nullable,
            Value::Bool(_) => self.kind == FieldType::Bool,
            Value::SmallInt(_) => self.kind == FieldType::SmallInt,
            Value::Int(_) => self.kind == FieldType::Int,
            Value::BigInt(_) => self.kind == FieldType::BigInt,
            Value::Text(_) => self.kind == FieldType::Text,
            Value::Timestamp(_, _) => self.kind == FieldType::Timestamp,
        }
    }
}

/// Whether two strings hold the same characters.
pub fn same_text(a: &str, b: &str) -> (r: bool)
    ensures
        r == (a@ == b@),
{
    let n = a.unicode_len();
    if n != b.unicode_len() {
        return false;
    }
    let mut i: usize = 0;
    while i < n
        invariant
            n == a@.len(),
            n == b@.len(),
            i <= n,
            a@.subrange(0, i as int) == b@.subrange(0, i as int),
        decreases n - i,
    {
        if a.get_char(i) != b.get_char(i) {
            return false;
        }
        assert(a@.subrange(0, i + 1) == a@.subrange(0, i as int).push(a@[i as int]));
        assert(b@.subrange(0, i + 1) == b@.subrange(0, i as int).push(b@[i as int]));
        i = i + 1;
    }
    assert(a@ == a@.subrange(0, n as int));
    assert(b@ == b@.subrange(0, n as int));
    true
}

} // verus!
