use vstd::prelude::*;

verus! {

/// The load state of one field of a record.
pub enum FieldState<T> {
    /// No value is known.
    Unloaded,
    /// The value is known and unchanged since the last sync point.
    Loaded(T),
    /// The value is known and was set since the last sync point.
    Dirty(T),
}

impl<T> FieldState<T> {
    /// The state after the field was persisted: a set value becomes loaded.
    pub open spec fn synced(self) -> FieldState<T> {
        match self {
            FieldState::Dirty(v) => FieldState::Loaded(v),
            other => other,
        }
    }

    /// The value held, if any.
    pub open spec fn known(self) -> Option<T> {
        match self {
            FieldState::Unloaded => None,
            FieldState::Loaded(v) => Some(v),
            FieldState::Dirty(v) => Some(v),
        }
    }

    /// Whether a value is known.
    pub fn is_known(&self) -> (r: bool)
        ensures
            r == self.known().is_some(),
    {
        match self {
            FieldState::Unloaded => false,
            _ => true,
        }
    }

    /// Whether the field was set since the last sync point.
    pub fn is_dirty(&self) -> (r: bool)
        ensures
            r == (self is Dirty),
    {
        match self {
            FieldState::Dirty(_) => true,
            _ => false,
        }
    }

    /// The value held, if any.
    pub fn value(&self) -> (r: Option<&T>)
        ensures
            match self.known() {
                Some(v) => r == Some(&v),
                None => r is None,
            },
    {
        match self {
            FieldState::Unloaded => None,
            FieldState::Loaded(v) => Some(v),
            FieldState::Dirty(v) => Some(v),
        }
    }
}

/// Every state after persistence: no field is left dirty.
pub open spec fn synced_states<T>(s: Seq<FieldState<T>>) -> Seq<FieldState<T>> {
    s.map_values(|f: FieldState<T>| f.synced())
}

} // verus!
