use vstd::prelude::*;
use crate::field_state::FieldState;
use crate::model::{ConversionError, ModelDef, Record, RecordError, any_dirty, names_distinct, read_of};
use crate::value::{ColumnValue, FieldDef, Value, accepts, same_text};

verus! {

/// Which fields a query asked for.
#[derive(Debug)]
pub enum SelectSpec {
    /// Every declared field.
    All,
    /// Only the fields with these names.
    Only(Vec<String>),
}

/// A raw row: column names with their values.
#[derive(Debug)]
pub struct Row {
    pub columns: Vec<ColumnValue>,
}

/// The value of the first column of `row` named `name`.
pub open spec fn column_of(row: Seq<ColumnValue>, name: Seq<char>) -> Option<Value>
    decreases row.len(),
{
    if row.len() == 0 {
        None
    } else if row[0].column@ == name {
        Some(row[0].value)
    } else {
        column_of(row.skip(1), name)
    }
}

/// What field `f` becomes when read from `raw`.
pub open spec fn convert(f: FieldDef, raw: Option<Value>) -> Result<Value, ConversionError> {
    match raw {
        None => Err(ConversionError::MissingColumn),
        Some(v) => if accepts(f, v) {
            Ok(v)
        } else {
            Err(ConversionError::WrongType)
        },
    }
}

/// Whether the selection asks for the field named `name`.
pub open spec fn requested(select: SelectSpec, name: Seq<char>) -> bool {
    match select {
        SelectSpec::All => true,
        SelectSpec::Only(names) => named_in(names@, name),
    }
}

/// Some entry of `names` is `name`.
pub open spec fn named_in(names: Seq<String>, name: Seq<char>) -> bool {
    exists|k: int| 0 <= k < names.len() && #[trigger] names[k]@ == name
}

/// The first `n` fields read under `All`: each must convert, else the first that does
/// not gives `TypeMismatch`.
pub open spec fn hydrate_all(fields: Seq<FieldDef>, row: Seq<ColumnValue>, n: nat) -> Result<Seq<FieldState<Value>>, RecordError>
    decreases n,
{
    if n == 0 {
        Ok(Seq::empty())
    } else {
        match hydrate_all(fields, row, (n - 1) as nat) {
            Err(e) => Err(e),
            Ok(s) => match convert(fields[n - 1], column_of(row, fields[n - 1].name@)) {
                Ok(v) => Ok(s.push(FieldState::Loaded(v))),
                Err(c) => Err(RecordError::TypeMismatch(fields[n - 1].name, c)),
            },
        }
    }
}

/// What field `f` becomes under `Only`: loaded when asked for and readable, else unloaded.
pub open spec fn hydrate_only_field(f: FieldDef, select: SelectSpec, row: Seq<ColumnValue>) -> FieldState<Value> {
    if requested(select, f.name@) {
        match convert(f, column_of(row, f.name@)) {
            Ok(v) => FieldState::Loaded(v),
            Err(_) => FieldState::Unloaded,
        }
    } else {
        FieldState::Unloaded
    }
}

/// The field states a row gives under a selection.
pub open spec fn hydrate(fields: Seq<FieldDef>, select: SelectSpec, row: Seq<ColumnValue>) -> Result<Seq<FieldState<Value>>, RecordError> {
    match select {
        SelectSpec::All => hydrate_all(fields, row, fields.len()),
        SelectSpec::Only(_) => Ok(fields.map_values(|f: FieldDef| hydrate_only_field(f, select, row))),
    }
}

/// The value of the first column of `row` named `name`.
fn find_column<'r>(row: &'r Vec<ColumnValue>, name: &str) -> (r: Option<&'r Value>)
    ensures
        match column_of(row@, name@) {
            Some(v) => r == Some(&v),
            None => r is None,
        },
{
    let mut j: usize = 0;
    assert(row@.skip(0) == row@);
    while j < row.len()
        invariant
            j <= row@.len(),
            column_of(row@, name@) == column_of(row@.skip(j as int), name@),
        decreases row@.len() - j,
    {
        assert(row@.skip(j as int).skip(1) == row@.skip(j + 1));
        if same_text(row[j].column.as_str(), name) {
            return Some(&row[j].value);
        }
        j = j + 1;
    }
    None
}

/// Reads field `f` from `row`.
fn convert_field(f: &FieldDef, row: &Vec<ColumnValue>) -> (r: Result<Value, ConversionError>)
    ensures
        r == convert(*f, column_of(row@, f.name@)),
{
    match find_column(row, f.name.as_str()) {
        None => Err(ConversionError::MissingColumn),
        Some(v) => if f.accepts(v) {
            Ok(v.duplicate())
        } else {
            Err(ConversionError::WrongType)
        },
    }
}

/// Whether `select` asks for the field named `name`.
fn is_requested(select: &SelectSpec, name: &str) -> (r: bool)
    ensures
        r == requested(*select, name@),
{
    match select {
        SelectSpec::All => true,
        SelectSpec::Only(names) => {
            let mut k: usize = 0;
            while k < names.len()
                invariant
                    *select == SelectSpec::Only(*names),
                    k <= names@.len(),
                    forall|q: int| 0 <= q < k ==> names@[q]@ != name@,
                decreases names@.len() - k,
            {
                if same_text(names[k].as_str(), name) {
                    assert(0 <= k < names@.len() && names@[k as int]@ == name@);
                    assert(named_in(names@, name@));
                    return true;
                }
                k = k + 1;
            }
            assert(!named_in(names@, name@));
            false
        },
    }
}

/// Builds a record of `model` from a raw row. Under `All` every declared field is
/// read and must convert, else `TypeMismatch` names the first that does not. Under
/// `Only` the named fields that convert are loaded and every other field is left
/// unloaded. No field of the result is dirty.
pub fn from_row<'a, H>(model: &'a ModelDef<H>, select: &SelectSpec, row: &Row) -> (r: Result<Record<'a, H>, RecordError>)
    ensures
        match hydrate(model@.fields, *select, row.columns@) {
            Ok(s) => r matches Ok(rec) && rec.model() == *model && rec@ == s,
            Err(e) => r matches Err(x) && x == e,
        },
        r matches Ok(rec) ==> !any_dirty(rec@),
{
    let fields = model.fields();
    let n = fields.len();
    let mut states: Vec<FieldState<Value>> = Vec::new();
    let mut i: usize = 0;
    match select {
        SelectSpec::All => {
            while i < n
                invariant
                    *select is All,
                    n == fields@.len(),
                    fields@ == model@.fields,
                    i <= n,
                    hydrate_all(fields@, row.columns@, i as nat) == Ok::<Seq<FieldState<Value>>, RecordError>(states@),
                decreases n - i,
            {
                match convert_field(&fields[i], &row.columns) {
                    Ok(v) => {
                        states.push(FieldState::Loaded(v));
                    },
                    Err(c) => {
                        proof {
                            assert(hydrate_all(fields@, row.columns@, (i + 1) as nat) == Err::<
                                Seq<FieldState<Value>>,
                                RecordError,
                            >(RecordError::TypeMismatch(fields@[i as int].name, c)));
                            lemma_hydrate_all_err_stays(fields@, row.columns@, (i + 1) as nat, n as nat);
                        }
                        return Err(RecordError::TypeMismatch(fields[i].name.clone(), c));
                    },
                }
                i = i + 1;
            }
            proof {
                lemma_hydrate_all_loaded(fields@, row.columns@, n as nat);
            }
        },
        SelectSpec::Only(_) => {
            while i < n
                invariant
                    n == fields@.len(),
                    fields@ == model@.fields,
                    i <= n,
                    states@.len() == i,
                    forall|q: int| 0 <= q < i ==> states@[q] == hydrate_only_field(fields@[q], *select, row.columns@),
                decreases n - i,
            {
                let mut st: FieldState<Value> = FieldState::Unloaded;
                if is_requested(select, fields[i].name.as_str()) {
                    match convert_field(&fields[i], &row.columns) {
                        Ok(v) => {
                            st = FieldState::Loaded(v);
                        },
                        Err(_) => {},
                    }
                }
                states.push(st);
                i = i + 1;
            }
            assert(states@ == fields@.map_values(|f: FieldDef| hydrate_only_field(f, *select, row.columns@)));
            assert(!any_dirty(states@));
        },
    }
    Ok(Record::from_states(model, states))
}

/// Once a read fails, reading more fields gives the same failure.
proof fn lemma_hydrate_all_err_stays(fields: Seq<FieldDef>, row: Seq<ColumnValue>, m: nat, n: nat)
    requires
        m <= n,
        hydrate_all(fields, row, m) is Err,
    ensures
        hydrate_all(fields, row, n) == hydrate_all(fields, row, m),
    decreases n - m,
{
    if m < n {
        lemma_hydrate_all_err_stays(fields, row, m, (n - 1) as nat);
    }
}

/// A successful read of the first `n` fields loads each of them.
proof fn lemma_hydrate_all_loaded(fields: Seq<FieldDef>, row: Seq<ColumnValue>, n: nat)
    ensures
        hydrate_all(fields, row, n) matches Ok(s) ==> s.len() == n && forall|i: int| 0 <= i < n ==> #[trigger] s[i] is Loaded,
    decreases n,
{
    if n > 0 {
        lemma_hydrate_all_loaded(fields, row, (n - 1) as nat);
    }
}

/// A record hydrated under `All` has every declared field loaded, so reading any field
/// succeeds.
pub proof fn lemma_all_loads_every_field(fields: Seq<FieldDef>, row: Seq<ColumnValue>)
    ensures
        hydrate(fields, SelectSpec::All, row) matches Ok(s) ==> {
            &&& s.len() == fields.len()
            &&& forall|i: int| 0 <= i < fields.len() ==> #[trigger] s[i] is Loaded && read_of(fields, s, i) is Ok
        },
{
    lemma_hydrate_all_loaded(fields, row, fields.len());
}

/// A record hydrated under `Only` with the single name `f` of a declared field whose
/// column converts has `f` loaded: reading it succeeds, and reading any other declared
/// field fails with `FieldNotLoaded`.
pub proof fn lemma_only_loads_the_named_field(fields: Seq<FieldDef>, names: Vec<String>, row: Seq<ColumnValue>, i: int)
    requires
        names_distinct(fields),
        0 <= i < fields.len(),
        names@.len() == 1,
        names@[0]@ == fields[i].name@,
        convert(fields[i], column_of(row, fields[i].name@)) is Ok,
    ensures
        hydrate(fields, SelectSpec::Only(names), row) matches Ok(s) && {
            &&& read_of(fields, s, i) is Ok
            &&& forall|j: int| 0 <= j < fields.len() && j != i ==> #[trigger] read_of(fields, s, j) == Err::<Value, RecordError>(
                RecordError::FieldNotLoaded(fields[j].name),
            )
        },
{
    let select = SelectSpec::Only(names);
    let s = fields.map_values(|f: FieldDef| hydrate_only_field(f, select, row));
    assert(named_in(names@, fields[i].name@));
    assert forall|j: int| 0 <= j < fields.len() && j != i implies #[trigger] read_of(fields, s, j) == Err::<Value, RecordError>(
        RecordError::FieldNotLoaded(fields[j].name),
    ) by {
        if named_in(names@, fields[j].name@) {
            let k = choose|k: int| 0 <= k < names@.len() && #[trigger] names@[k]@ == fields[j].name@;
            assert(k == 0);
        }
    }
}

} // verus!
