use vstd::prelude::*;

verus! {

/// The forward and backward schema change of one migration, run against a connection.
pub trait RawMigration<Conn> {
    fn up(&self, cn: &mut Conn) -> Result<(), String>;

    fn down(&self, cn: &mut Conn) -> Result<(), String>;
}

/// Why discovering, planning or running migrations failed.
#[derive(Debug)]
pub enum MigrationError {
    /// Two migrations have this version.
    DuplicateMigrationVersion(u64),
    /// The store records this version, which no known migration has.
    OrphanedMigrationVersion(i64),
    /// Applying or reverting this version failed with this message.
    MigrationExecutionFailed(u64, String),
}

/// A version that the store's signed 64-bit column can hold.
pub open spec fn storable(version: u64) -> bool {
    version <= i64::MAX
}

/// One versioned unit of schema change: its version, its symbolic name and its actions.
pub struct Migration<R> {
    version: u64,
    name: String,
    raw: R,
}

/// What a migration holds.
pub ghost struct MigrationView<R> {
    pub version: u64,
    pub name: Seq<char>,
    pub raw: R,
}

impl<R> View for Migration<R> {
    type V = MigrationView<R>;

    closed spec fn view(&self) -> MigrationView<R> {
        MigrationView { version: self.version, name: self.name@, raw: self.raw }
    }
}

impl<R> Migration<R> {
    #[verifier::type_invariant]
    spec fn well_formed(self) -> bool {
        storable(self.version)
    }

    /// A migration with the given version, name and actions.
    pub fn new(version: u64, name: &str, raw: R) -> (r: Migration<R>)
        requires
            storable(version),
        ensures
            r@ == (MigrationView { version, name: name@, raw }),
    {
        Migration { version, name: name.to_string(), raw }
    }

    /// The version.
    pub fn version(&self) -> (r: &u64)
        ensures
            *r == self@.version,
            storable(*r),
    {
        proof { use_type_invariant(self); }
        &self.version
    }

    /// The symbolic name.
    pub fn name(&self) -> (r: &str)
        ensures
            r@ == self@.name,
    {
        self.name.as_str()
    }

    /// The actions.
    pub fn raw(&self) -> (r: &R)
        ensures
            *r == self@.raw,
    {
        &self.raw
    }
}

} // verus!
