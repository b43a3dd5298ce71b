use vstd::prelude::*;
use crate::field_state::{FieldState, synced_states};
use crate::value::{ColumnValue, FieldDef, Value, accepts, same_text};

verus! {

/// A field that a hook sets: its position and the value.
#[derive(Debug)]
pub struct Assignment {
    pub field: usize,
    pub value: Value,
}

/// A mutator run on a record just before its insert or update statement is built. It
/// reads the record and names the fields to set; each is then `set`, which marks it
/// dirty like any other change. An assignment to a position that is not a declared
/// field, or of a value the field does not accept, is skipped.
pub trait RecordHook: Sized {
    fn call(&self, record: &Record<'_, Self>) -> Vec<Assignment>;
}

/// The hook type of a model that declares no hooks.
#[derive(Debug, Clone, Copy)]
pub struct NoHook;

impl RecordHook for NoHook {
    fn call(&self, record: &Record<'_, Self>) -> Vec<Assignment> {
        Vec::new()
    }
}

/// Why a model declaration was refused.
#[derive(Debug)]
pub enum DefinitionError {
    /// Two fields have this name.
    DuplicateField(String),
    /// The primary key names no field.
    NoPrimaryKey,
    /// A primary-key name that no field has.
    UnknownPrimaryKeyField(String),
}

/// Why a record operation failed.
#[derive(Debug)]
pub enum RecordError {
    /// The named field holds no value.
    FieldNotLoaded(String),
    /// A primary-key field holds no value.
    MissingPrimaryKey,
    /// The named field's column could not be read as the field's type.
    TypeMismatch(String, ConversionError),
}

/// Why a row's column could not become a field's value.
#[derive(Debug, Clone, Copy, PartialEq, Eq, Structural)]
pub enum ConversionError {
    /// The row has no such column.
    MissingColumn,
    /// The column's value is not of the field's type.
    WrongType,
}

/// The declaration of a record type: its table, its ordered fields, its primary key
/// (as field positions, in declaration order) and its hooks.
pub struct ModelDef<H> {
    table: String,
    fields: Vec<FieldDef>,
    primary_key: Vec<usize>,
    before_create: Vec<H>,
    before_save: Vec<H>,
}

/// What a model declaration holds.
pub ghost struct ModelView<H> {
    pub table: String,
    pub fields: Seq<FieldDef>,
    pub primary_key: Seq<usize>,
    pub before_create: Seq<H>,
    pub before_save: Seq<H>,
}

/// No two fields share a name.
pub open spec fn names_distinct(fields: Seq<FieldDef>) -> bool {
    forall|i: int, j: int|
        0 <= i < j < fields.len() ==> fields[i].name@ != fields[j].name@
}

/// Some field is named `name`.
pub open spec fn has_field(fields: Seq<FieldDef>, name: Seq<char>) -> bool {
    exists|i: int| 0 <= i < fields.len() && fields[i].name@ == name
}

impl<H> View for ModelDef<H> {
    type V = ModelView<H>;

    closed spec fn view(&self) -> ModelView<H> {
        ModelView {
            table: self.table,
            fields: self.fields@,
            primary_key: self.primary_key@,
            before_create: self.before_create@,
            before_save: self.before_save@,
        }
    }
}

impl<H> ModelDef<H> {
    #[verifier::type_invariant]
    spec fn well_formed(self) -> bool {
        &&& names_distinct(self.fields@)
        &&& self.primary_key@.len() > 0
        &&& forall|k: int| 0 <= k < self.primary_key@.len() ==> self.primary_key@[k] < self.fields@.len()
    }

    /// Declares a model. Fails when two fields share a name, when the primary key is
    /// empty, or when it names a field that is not declared (checked in that order).
    pub fn new(
        table: String,
        fields: Vec<FieldDef>,
        primary_key: &Vec<String>,
        before_create: Vec<H>,
        before_save: Vec<H>,
    ) -> (r: Result<ModelDef<H>, DefinitionError>)
        ensures
            !names_distinct(fields@) <==> r matches Err(DefinitionError::DuplicateField(_)),
            r matches Err(DefinitionError::DuplicateField(n)) ==> exists|i: int, j: int|
                0 <= i < j < fields@.len() && fields@[i].name == n && fields@[j].name@ == n@,
            (names_distinct(fields@) && primary_key@.len() == 0) <==> r matches Err(DefinitionError::NoPrimaryKey),
            (names_distinct(fields@) && primary_key@.len() > 0 && exists|k: int|
                0 <= k < primary_key@.len() && !has_field(fields@, primary_key@[k]@))
                <==> r matches Err(DefinitionError::UnknownPrimaryKeyField(_)),
            r matches Err(DefinitionError::UnknownPrimaryKeyField(n)) ==> exists|k: int|
                0 <= k < primary_key@.len() && primary_key@[k] == n && !has_field(fields@, n@),
            r matches Ok(m) ==> {
                &&& m@.table == table
                &&& m@.fields == fields@
                &&& m@.before_create == before_create@
                &&& m@.before_save == before_save@
                &&& m@.primary_key.len() == primary_key@.len()
                &&& forall|k: int| 0 <= k < primary_key@.len() ==> #[trigger] m@.primary_key[k] < fields@.len()
                &&& forall|k: int| 0 <= k < primary_key@.len()
                    ==> #[trigger] fields@[m@.primary_key[k] as int].name@ == primary_key@[k]@
            },
    {
        let n = fields.len();
        let mut i: usize = 0;
        while i < n
            invariant
                n == fields@.len(),
                i <= n,
                forall|a: int, b: int| 0 <= a < b < fields@.len() && a < i ==> fields@[a].name@ != fields@[b].name@,
            decreases n - i,
        {
            let mut j: usize = i + 1;
            while j < n
                invariant
                    n == fields@.len(),
                    i < n,
                    i < j <= n,
                    forall|a: int, b: int| 0 <= a < b < fields@.len() && a < i ==> fields@[a].name@ != fields@[b].name@,
                    forall|b: int| i < b < j ==> fields@[i as int].name@ != fields@[b].name@,
                decreases n - j,
            {
                if fields[i].name == fields[j].name {
                    return Err(DefinitionError::DuplicateField(fields[i].name.clone()));
                }
                j = j + 1;
            }
            i = i + 1;
        }
        if primary_key.len() == 0 {
            return Err(DefinitionError::NoPrimaryKey);
        }
        let mut pk: Vec<usize> = Vec::new();
        let mut k: usize = 0;
        while k < primary_key.len()
            invariant
                n == fields@.len(),
                names_distinct(fields@),
                k <= primary_key@.len(),
                pk@.len() == k,
                forall|q: int| 0 <= q < k ==> pk@[q] < n,
                forall|q: int| 0 <= q < k ==> #[trigger] fields@[pk@[q] as int].name@ == primary_key@[q]@,
                forall|q: int| 0 <= q < k ==> has_field(fields@, primary_key@[q]@),
            decreases primary_key@.len() - k,
        {
            let mut found: Option<usize> = None;
            let mut j: usize = 0;
            while j < n
                invariant
                    n == fields@.len(),
                    k < primary_key@.len(),
                    j <= n,
                    found is None ==> forall|b: int| 0 <= b < j ==> fields@[b].name@ != primary_key@[k as int]@,
                    found matches Some(x) ==> x < n && fields@[x as int].name@ == primary_key@[k as int]@,
                decreases n - j,
            {
                if found.is_none() && same_text(fields[j].name.as_str(), primary_key[k].as_str()) {
                    found = Some(j);
                }
                j = j + 1;
            }
            match found {
                Some(x) => {
                    pk.push(x);
                },
                None => {
                    return Err(DefinitionError::UnknownPrimaryKeyField(primary_key[k].clone()));
                },
            }
            k = k + 1;
        }
        Ok(ModelDef { table, fields, primary_key: pk, before_create, before_save })
    }

    /// The table name.
    pub fn table(&self) -> (r: &String)
        ensures
            *r == self@.table,
    {
        &self.table
    }

    /// The primary key as field positions, in declaration order. It is never empty,
    /// each position is a declared field, and no two fields share a name.
    pub fn primary_key(&self) -> (r: &Vec<usize>)
        ensures
            r@ == self@.primary_key,
            r@.len() > 0,
            forall|k: int| 0 <= k < r@.len() ==> #[trigger] r@[k] < self@.fields.len(),
            names_distinct(self@.fields),
    {
        proof { use_type_invariant(self); }
        &self.primary_key
    }

    /// The declared fields, in order.
    pub fn fields(&self) -> (r: &Vec<FieldDef>)
        ensures
            r@ == self@.fields,
    {
        &self.fields
    }

    /// The position of the field named `name`, if one is declared.
    pub fn field_index(&self, name: &str) -> (r: Option<usize>)
        ensures
            match r {
                Some(i) => i < self@.fields.len() && self@.fields[i as int].name@ == name@,
                None => !has_field(self@.fields, name@),
            },
    {
        let mut j: usize = 0;
        while j < self.fields.len()
            invariant
                j <= self.fields@.len(),
                forall|b: int| 0 <= b < j ==> self.fields@[b].name@ != name@,
            decreases self.fields@.len() - j,
        {
            if same_text(self.fields[j].name.as_str(), name) {
                return Some(j);
            }
            j = j + 1;
        }
        None
    }
}

/// A row statement that inserts the given columns; the others take their defaults.
#[derive(Debug)]
pub struct InsertStatement {
    pub table: String,
    pub columns: Vec<ColumnValue>,
}

/// A row statement that sets `assignments` on the row matched by `filter`
/// (a conjunction of equalities).
#[derive(Debug)]
pub struct UpdateStatement {
    pub table: String,
    pub assignments: Vec<ColumnValue>,
    pub filter: Vec<ColumnValue>,
}

/// A row statement that deletes the row matched by `filter` (a conjunction of equalities).
#[derive(Debug)]
pub struct DeleteStatement {
    pub table: String,
    pub filter: Vec<ColumnValue>,
}

/// The dirty fields among the first `n`, in field order, as columns with their values.
pub open spec fn dirty_prefix(fields: Seq<FieldDef>, states: Seq<FieldState<Value>>, n: nat) -> Seq<ColumnValue>
    decreases n,
{
    if n == 0 {
        Seq::empty()
    } else {
        let rest = dirty_prefix(fields, states, (n - 1) as nat);
        match states[n - 1] {
            FieldState::Dirty(v) => rest.push(ColumnValue { column: fields[n - 1].name, value: v }),
            _ => rest,
        }
    }
}

/// The dirty fields, in field order, as columns with their values: what an insert
/// carries and what an update sets.
pub open spec fn dirty_columns(fields: Seq<FieldDef>, states: Seq<FieldState<Value>>) -> Seq<ColumnValue> {
    dirty_prefix(fields, states, states.len())
}

/// Some primary-key field holds no value.
pub open spec fn key_missing(pk: Seq<usize>, states: Seq<FieldState<Value>>) -> bool {
    exists|k: int| 0 <= k < pk.len() && states[pk[k] as int] is Unloaded
}

/// The lookup predicate: for each primary-key field in declaration order, its column
/// equal to its current value; `MissingPrimaryKey` when one of them holds no value.
pub open spec fn lookup_of(fields: Seq<FieldDef>, pk: Seq<usize>, states: Seq<FieldState<Value>>) -> Result<
    Seq<ColumnValue>,
    RecordError,
> {
    if key_missing(pk, states) {
        Err(RecordError::MissingPrimaryKey)
    } else {
        Ok(pk.map_values(|i: usize| ColumnValue { column: fields[i as int].name, value: states[i as int].known().unwrap() }))
    }
}

/// What reading field `i` gives.
pub open spec fn read_of(fields: Seq<FieldDef>, states: Seq<FieldState<Value>>, i: int) -> Result<Value, RecordError> {
    match states[i].known() {
        Some(v) => Ok(v),
        None => Err(RecordError::FieldNotLoaded(fields[i].name)),
    }
}

/// Some field is dirty.
pub open spec fn any_dirty(states: Seq<FieldState<Value>>) -> bool {
    exists|i: int| 0 <= i < states.len() && states[i] is Dirty
}

/// A materialized row of a model: one field state per declared field.
pub struct Record<'a, H> {
    model: &'a ModelDef<H>,
    states: Vec<FieldState<Value>>,
}

impl<'a, H> View for Record<'a, H> {
    type V = Seq<FieldState<Value>>;

    closed spec fn view(&self) -> Seq<FieldState<Value>> {
        self.states@
    }
}

impl<'a, H> Record<'a, H> {
    #[verifier::type_invariant]
    spec fn well_formed(self) -> bool {
        self.states@.len() == self.model@.fields.len()
    }

    /// The declaration this record belongs to.
    pub closed spec fn model(self) -> ModelDef<H> {
        *self.model
    }

    /// A record with every field unloaded.
    pub fn empty(model: &'a ModelDef<H>) -> (r: Record<'a, H>)
        ensures
            r.model() == *model,
            r@.len() == model@.fields.len(),
            forall|i: int| 0 <= i < r@.len() ==> r@[i] is Unloaded,
    {
        let mut states: Vec<FieldState<Value>> = Vec::new();
        let mut i: usize = 0;
        while i < model.fields.len()
            invariant
                i <= model@.fields.len(),
                states@.len() == i,
                forall|q: int| 0 <= q < i ==> states@[q] is Unloaded,
            decreases model@.fields.len() - i,
        {
            states.push(FieldState::Unloaded);
            i = i + 1;
        }
        Record { model, states }
    }

    /// A record with the given states, one per declared field.
    pub(crate) fn from_states(model: &'a ModelDef<H>, states: Vec<FieldState<Value>>) -> (r: Record<'a, H>)
        requires
            states@.len() == model@.fields.len(),
        ensures
            r.model() == *model,
            r@ == states@,
    {
        Record { model, states }
    }

    /// The declaration this record belongs to.
    pub fn model_def(&self) -> (r: &'a ModelDef<H>)
        ensures
            *r == self.model(),
    {
        self.model
    }

    /// The state of field `i`.
    pub fn state(&self, i: usize) -> (r: &FieldState<Value>)
        requires
            i < self@.len(),
        ensures
            *r == self@[i as int],
    {
        &self.states[i]
    }

    /// The value of field `i`; `FieldNotLoaded` when it holds none.
    pub fn get(&self, i: usize) -> (r: Result<&Value, RecordError>)
        requires
            i < self@.len(),
        ensures
            match r {
                Ok(v) => read_of(self.model()@.fields, self@, i as int) == Ok::<Value, RecordError>(*v),
                Err(e) => read_of(self.model()@.fields, self@, i as int) == Err::<Value, RecordError>(e),
            },
    {
        proof { use_type_invariant(self); }
        match &self.states[i] {
            FieldState::Unloaded => Err(RecordError::FieldNotLoaded(self.model.fields[i].name.clone())),
            FieldState::Loaded(v) => Ok(v),
            FieldState::Dirty(v) => Ok(v),
        }
    }

    /// Stores `value` in field `i` and marks it dirty.
    pub fn set(&mut self, i: usize, value: Value)
        requires
            i < old(self)@.len(),
            accepts(old(self).model()@.fields[i as int], value),
        ensures
            final(self).model() == old(self).model(),
            final(self)@ == old(self)@.update(i as int, FieldState::Dirty(value)),
    {
        proof { use_type_invariant(&*self); }
        self.states[i] = FieldState::Dirty(value);
    }

    /// Whether some field was set since the last sync point.
    pub fn changed(&self) -> (r: bool)
        ensures
            r == any_dirty(self@),
    {
        let mut i: usize = 0;
        while i < self.states.len()
            invariant
                i <= self.states@.len(),
                forall|q: int| 0 <= q < i ==> !(self.states@[q] is Dirty),
            decreases self.states@.len() - i,
        {
            if self.states[i].is_dirty() {
                return true;
            }
            i = i + 1;
        }
        false
    }
}

/// A synced prefix holds no dirty field.
proof fn lemma_synced_prefix_clean(fields: Seq<FieldDef>, states: Seq<FieldState<Value>>, n: nat)
    requires
        n <= states.len(),
    ensures
        dirty_prefix(fields, synced_states(states), n) == Seq::<ColumnValue>::empty(),
    decreases n,
{
    if n > 0 {
        lemma_synced_prefix_clean(fields, states, (n - 1) as nat);
    }
}

/// After an insert every field is synced, so an update built right after it (with no
/// before-save hooks) sets no column.
pub proof fn lemma_update_after_insert_sets_nothing(fields: Seq<FieldDef>, states: Seq<FieldState<Value>>)
    ensures
        dirty_columns(fields, synced_states(states)) == Seq::<ColumnValue>::empty(),
{
    lemma_synced_prefix_clean(fields, states, states.len());
}

/// The dirty columns of a prefix after setting field `i` of a record with no dirty field.
proof fn lemma_set_prefix(fields: Seq<FieldDef>, states: Seq<FieldState<Value>>, i: int, v: Value, n: nat)
    requires
        0 <= i < states.len(),
        n <= states.len(),
        forall|j: int| 0 <= j < states.len() ==> !(#[trigger] states[j] is Dirty),
    ensures
        dirty_prefix(fields, states.update(i, FieldState::Dirty(v)), n) == (if n > i {
            seq![ColumnValue { column: fields[i].name, value: v }]
        } else {
            Seq::<ColumnValue>::empty()
        }),
    decreases n,
{
    if n > 0 {
        lemma_set_prefix(fields, states, i, v, (n - 1) as nat);
    }
}

/// Setting one field of a record with no dirty field, then building an insert (with no
/// hooks), gives exactly that field's column with the value set: fields never set are
/// left out, whatever their defaults.
pub proof fn lemma_insert_after_set(fields: Seq<FieldDef>, states: Seq<FieldState<Value>>, i: int, v: Value)
    requires
        0 <= i < states.len(),
        forall|j: int| 0 <= j < states.len() ==> !(#[trigger] states[j] is Dirty),
    ensures
        dirty_columns(fields, states.update(i, FieldState::Dirty(v))) == seq![ColumnValue { column: fields[i].name, value: v }],
{
    lemma_set_prefix(fields, states, i, v, states.len());
}

/// `after` differs from `before` only by fields set to values they accept.
pub open spec fn only_sets(fields: Seq<FieldDef>, before: Seq<FieldState<Value>>, after: Seq<FieldState<Value>>) -> bool {
    &&& after.len() == before.len()
    &&& forall|i: int| 0 <= i < before.len() ==> #[trigger] after[i] == before[i] || (after[i] matches FieldState::Dirty(v)
        && accepts(fields[i], v))
}

/// Some column of `cols` is named `name`.
pub open spec fn has_column(cols: Seq<ColumnValue>, name: Seq<char>) -> bool {
    exists|q: int| 0 <= q < cols.len() && #[trigger] cols[q].column@ == name
}

/// With distinct names, field `i`'s column is among the dirty columns of the first `n`
/// fields exactly when `i` is one of them and dirty.
proof fn lemma_dirty_prefix_names(fields: Seq<FieldDef>, states: Seq<FieldState<Value>>, i: int, n: nat)
    requires
        names_distinct(fields),
        states.len() == fields.len(),
        0 <= i < fields.len(),
        n <= states.len(),
    ensures
        has_column(dirty_prefix(fields, states, n), fields[i].name@) <==> (i < n && states[i] is Dirty),
    decreases n,
{
    if n > 0 {
        lemma_dirty_prefix_names(fields, states, i, (n - 1) as nat);
        let rest = dirty_prefix(fields, states, (n - 1) as nat);
        let name = fields[i].name@;
        if let FieldState::Dirty(v) = states[n - 1] {
            let c = ColumnValue { column: fields[n - 1].name, value: v };
            let all = rest.push(c);
            if has_column(all, name) {
                let q = choose|q: int| 0 <= q < all.len() && #[trigger] all[q].column@ == name;
                if q < rest.len() {
                    assert(rest[q].column@ == name);
                } else if i != n - 1 {
                    if i < n - 1 {
                        assert(fields[i].name@ != fields[n - 1].name@);
                    } else {
                        assert(fields[n - 1].name@ != fields[i].name@);
                    }
                }
            }
            if has_column(rest, name) {
                let q = choose|q: int| 0 <= q < rest.len() && #[trigger] rest[q].column@ == name;
                assert(all[q].column@ == name);
            }
            if i == n - 1 {
                assert(all[rest.len() as int].column@ == name);
            }
        }
    }
}

/// Hooks only set fields, so an insert (or update) built after them carries every field
/// that was dirty before, and leaves out every field that was not dirty and that no hook
/// set, whatever its declared default.
pub proof fn lemma_hooks_keep_set_fields(
    fields: Seq<FieldDef>,
    before: Seq<FieldState<Value>>,
    mid: Seq<FieldState<Value>>,
    i: int,
)
    requires
        names_distinct(fields),
        before.len() == fields.len(),
        only_sets(fields, before, mid),
        0 <= i < fields.len(),
    ensures
        before[i] is Dirty ==> has_column(dirty_columns(fields, mid), fields[i].name@),
        mid[i] == before[i] && !(before[i] is Dirty) ==> !has_column(dirty_columns(fields, mid), fields[i].name@),
{
    lemma_dirty_prefix_names(fields, mid, i, mid.len());
    assert(mid[i] == before[i] || mid[i] is Dirty);
}

/// After an insert no field is dirty, so an update built right after it sets only
/// fields that its before-save hooks set: a field they leave as it was has no column.
pub proof fn lemma_update_after_insert_sets_only_hook_fields(
    fields: Seq<FieldDef>,
    states: Seq<FieldState<Value>>,
    mid: Seq<FieldState<Value>>,
    i: int,
)
    requires
        names_distinct(fields),
        states.len() == fields.len(),
        only_sets(fields, synced_states(states), mid),
        0 <= i < fields.len(),
    ensures
        mid[i] == synced_states(states)[i] ==> !has_column(dirty_columns(fields, mid), fields[i].name@),
{
    lemma_hooks_keep_set_fields(fields, synced_states(states), mid, i);
}

/// The declaration has no hooks run before an insert.
pub open spec fn no_create_hooks<H>(m: ModelDef<H>) -> bool {
    m@.before_create.len() == 0 && m@.before_save.len() == 0
}

/// The declaration has no hooks run before an update.
pub open spec fn no_save_hooks<H>(m: ModelDef<H>) -> bool {
    m@.before_save.len() == 0
}

impl<'a, H: RecordHook> Record<'a, H> {
    /// Runs `hooks` on this record, in order, setting the fields each one names.
    fn run_hooks(&mut self, hooks: &Vec<H>)
        ensures
            final(self).model() == old(self).model(),
            only_sets(old(self).model()@.fields, old(self)@, final(self)@),
            hooks@.len() == 0 ==> *final(self) == *old(self),
    {
        proof { use_type_invariant(&*self); }
        let mut i: usize = 0;
        while i < hooks.len()
            invariant
                i <= hooks@.len(),
                self.model() == old(self).model(),
                self@.len() == self.model()@.fields.len(),
                only_sets(old(self).model()@.fields, old(self)@, self@),
                hooks@.len() == 0 ==> *self == *old(self),
            decreases hooks@.len() - i,
        {
            let outs = hooks[i].call(self);
            let mut j: usize = 0;
            while j < outs.len()
                invariant
                    j <= outs@.len(),
                    self.model() == old(self).model(),
                    self@.len() == self.model()@.fields.len(),
                    only_sets(old(self).model()@.fields, old(self)@, self@),
                decreases outs@.len() - j,
            {
                let f = outs[j].field;
                if f < self.states.len() && self.model.fields[f].accepts(&outs[j].value) {
                    self.set(f, outs[j].value.duplicate());
                }
                j = j + 1;
            }
            i = i + 1;
        }
    }

    /// Collects the dirty fields as columns, in field order, and marks them loaded.
    fn take_dirty(&mut self) -> (r: Vec<ColumnValue>)
        ensures
            final(self).model() == old(self).model(),
            r@ == dirty_columns(old(self).model()@.fields, old(self)@),
            final(self)@ == synced_states(old(self)@),
    {
        proof { use_type_invariant(&*self); }
        let mut out: Vec<ColumnValue> = Vec::new();
        let n = self.states.len();
        let mut i: usize = 0;
        while i < n
            invariant
                n == old(self)@.len(),
                n == self.states@.len(),
                self.model == old(self).model,
                self.states@.len() == self.model@.fields.len(),
                i <= n,
                forall|q: int| 0 <= q < i ==> self.states@[q] == old(self)@[q].synced(),
                forall|q: int| i <= q < n ==> self.states@[q] == old(self)@[q],
                out@ == dirty_prefix(old(self).model()@.fields, old(self)@, i as nat),
            decreases n - i,
        {
            let picked: Option<Value> = match &self.states[i] {
                FieldState::Dirty(v) => Some(v.duplicate()),
                _ => None,
            };
            match picked {
                Some(v) => {
                    out.push(ColumnValue { column: self.model.fields[i].name.clone(), value: v.duplicate() });
                    self.states[i] = FieldState::Loaded(v);
                },
                None => {},
            }
            i = i + 1;
        }
        assert(self.states@ == synced_states(old(self)@));
        out
    }

    /// The lookup predicate: each primary-key column equal to its current value, in
    /// declaration order. Fails with `MissingPrimaryKey` when a key field holds no value.
    pub fn lookup_predicate(&self) -> (r: Result<Vec<ColumnValue>, RecordError>)
        ensures
            match r {
                Ok(f) => lookup_of(self.model()@.fields, self.model()@.primary_key, self@) == Ok::<
                    Seq<ColumnValue>,
                    RecordError,
                >(f@),
                Err(e) => lookup_of(self.model()@.fields, self.model()@.primary_key, self@) == Err::<
                    Seq<ColumnValue>,
                    RecordError,
                >(e),
            },
    {
        proof {
            use_type_invariant(self);
            use_type_invariant(self.model);
        }
        let pk = &self.model.primary_key;
        let ghost fields = self.model@.fields;
        let mut out: Vec<ColumnValue> = Vec::new();
        let mut k: usize = 0;
        while k < pk.len()
            invariant
                k <= pk@.len(),
                pk@ == self.model()@.primary_key,
                fields == self.model()@.fields,
                self.states@.len() == fields.len(),
                forall|q: int| 0 <= q < pk@.len() ==> pk@[q] < fields.len(),
                out@.len() == k,
                forall|q: int| 0 <= q < k ==> !(self.states@[pk@[q] as int] is Unloaded),
                forall|q: int| 0 <= q < k ==> out@[q] == (ColumnValue {
                    column: fields[pk@[q] as int].name,
                    value: self.states@[pk@[q] as int].known().unwrap(),
                }),
            decreases pk@.len() - k,
        {
            let i = pk[k];
            match self.states[i].value() {
                Some(v) => {
                    out.push(ColumnValue { column: self.model.fields[i].name.clone(), value: v.duplicate() });
                },
                None => {
                    return Err(RecordError::MissingPrimaryKey);
                },
            }
            k = k + 1;
        }
        assert(!key_missing(pk@, self@));
        assert(out@ == pk@.map_values(|i: usize| ColumnValue { column: fields[i as int].name, value: self@[i as int].known().unwrap() }));
        Ok(out)
    }

    /// Runs the before-create hooks, then the before-save hooks, then builds an insert
    /// of every dirty field; those fields become loaded. Unloaded and unchanged fields are
    /// left out, so that the table's defaults apply.
    pub fn build_insert(&mut self) -> (r: InsertStatement)
        ensures
            no_create_hooks(old(self).model()) ==> {
                &&& final(self).model() == old(self).model()
                &&& r.columns@ == dirty_columns(old(self).model()@.fields, old(self)@)
                &&& final(self)@ == synced_states(old(self)@)
            },
            final(self).model() == old(self).model(),
            r.table == old(self).model()@.table,
            exists|mid: Seq<FieldState<Value>>| {
                &&& only_sets(old(self).model()@.fields, old(self)@, mid)
                &&& r.columns@ == dirty_columns(old(self).model()@.fields, mid)
                &&& final(self)@ == #[trigger] synced_states(mid)
            },
    {
        let model = self.model;
        self.run_hooks(&model.before_create);
        self.run_hooks(&model.before_save);
        let ghost mid = self@;
        let columns = self.take_dirty();
        assert(only_sets(old(self).model()@.fields, old(self)@, mid));
        assert(columns@ == dirty_columns(self.model()@.fields, mid) && self@ == synced_states(mid));
        InsertStatement { table: self.model.table.clone(), columns }
    }

    /// Runs the before-save hooks, then builds an update that sets every dirty field on
    /// the row matched by the lookup predicate; those fields become loaded. Fails with
    /// `MissingPrimaryKey`, changing nothing, when a primary-key field holds no value.
    pub fn build_update(&mut self) -> (r: Result<UpdateStatement, RecordError>)
        ensures
            key_missing(old(self).model()@.primary_key, old(self)@) ==> {
                &&& r matches Err(RecordError::MissingPrimaryKey)
                &&& *final(self) == *old(self)
            },
            !key_missing(old(self).model()@.primary_key, old(self)@) && no_save_hooks(old(self).model()) ==> {
                &&& r matches Ok(u)
                &&& final(self).model() == old(self).model()
                &&& u.table == old(self).model()@.table
                &&& u.assignments@ == dirty_columns(old(self).model()@.fields, old(self)@)
                &&& lookup_of(old(self).model()@.fields, old(self).model()@.primary_key, old(self)@) == Ok::<
                    Seq<ColumnValue>,
                    RecordError,
                >(u.filter@)
                &&& final(self)@ == synced_states(old(self)@)
            },
            r is Err <==> key_missing(old(self).model()@.primary_key, old(self)@),
            final(self).model() == old(self).model(),
            r matches Ok(u) ==> {
                &&& u.table == old(self).model()@.table
                &&& exists|mid: Seq<FieldState<Value>>| {
                    &&& only_sets(old(self).model()@.fields, old(self)@, mid)
                    &&& u.assignments@ == dirty_columns(old(self).model()@.fields, mid)
                    &&& lookup_of(old(self).model()@.fields, old(self).model()@.primary_key, mid) == Ok::<
                        Seq<ColumnValue>,
                        RecordError,
                    >(u.filter@)
                    &&& final(self)@ == #[trigger] synced_states(mid)
                }
            },
    {
        match self.lookup_predicate() {
            Err(e) => {
                return Err(e);
            },
            Ok(_) => {},
        }
        let model = self.model;
        let ghost before = self@;
        self.run_hooks(&model.before_save);
        proof {
            use_type_invariant(&*self);
            use_type_invariant(self.model);
            assert(before == old(self)@);
            assert(!key_missing(self.model()@.primary_key, self@)) by {
                if key_missing(self.model()@.primary_key, self@) {
                    let k = choose|k: int| 0 <= k < self.model()@.primary_key.len()
                        && self@[self.model()@.primary_key[k] as int] is Unloaded;
                    let i = self.model()@.primary_key[k] as int;
                    assert(0 <= i < before.len());
                    assert(self@[i] == before[i] || self@[i] is Dirty);
                    assert(!key_missing(self.model()@.primary_key, before));
                    assert(!(before[i] is Unloaded));
                }
            }
        }
        let filter = match self.lookup_predicate() {
            Err(e) => {
                return Err(e);
            },
            Ok(f) => f,
        };
        let ghost mid = self@;
        let assignments = self.take_dirty();
        assert(assignments@ == dirty_columns(self.model()@.fields, mid) && self@ == synced_states(mid));
        Ok(UpdateStatement { table: self.model.table.clone(), assignments, filter })
    }

    /// Builds a delete of the row matched by the lookup predicate. Fails with
    /// `MissingPrimaryKey` when a primary-key field holds no value.
    pub fn build_delete(&self) -> (r: Result<DeleteStatement, RecordError>)
        ensures
            match lookup_of(self.model()@.fields, self.model()@.primary_key, self@) {
                Ok(f) => r matches Ok(d) && d.table == self.model()@.table && d.filter@ == f,
                Err(e) => r matches Err(x) && x == e,
            },
    {
        match self.lookup_predicate() {
            Err(e) => Err(e),
            Ok(filter) => Ok(DeleteStatement { table: self.model.table.clone(), filter }),
        }
    }
}

} // verus!
