use vstd::prelude::*;
use crate::migration::{Migration, MigrationError, MigrationView, storable};

verus! {

/// The known migrations, held in ascending version order, no two with one version.
pub struct MigrationRegistry<R> {
    migrations: Vec<Migration<R>>,
    /// Positions into `migrations`, in ascending version order.
    order: Vec<usize>,
}

/// Some entry of `order` is `j`.
spec fn lists(order: Seq<usize>, j: int) -> bool {
    exists|k: int| 0 <= k < order.len() && order[k] == j
}

/// Versions rise strictly along `s`.
pub open spec fn strictly_ascending<R>(s: Seq<MigrationView<R>>) -> bool {
    forall|a: int, b: int| 0 <= a < b < s.len() ==> s[a].version < s[b].version
}

/// The versions of `ms`, in order.
pub open spec fn versions_of<R>(ms: Seq<Migration<R>>) -> Seq<u64> {
    ms.map_values(|m: Migration<R>| m@.version)
}

/// What each of `ms` holds, in order.
pub open spec fn views_of<R>(ms: Seq<Migration<R>>) -> Seq<MigrationView<R>> {
    ms.map_values(|m: Migration<R>| m@)
}

/// The versions along `s`, in order.
pub open spec fn view_versions<R>(s: Seq<MigrationView<R>>) -> Seq<u64> {
    s.map_values(|m: MigrationView<R>| m.version)
}

impl<R> View for MigrationRegistry<R> {
    type V = Seq<MigrationView<R>>;

    /// The migrations in ascending version order.
    closed spec fn view(&self) -> Seq<MigrationView<R>> {
        self.order@.map_values(|k: usize| self.migrations@[k as int]@)
    }
}

impl<R> MigrationRegistry<R> {
    #[verifier::type_invariant]
    spec fn well_formed(self) -> bool {
        &&& self.order@.len() == self.migrations@.len()
        &&& forall|k: int| 0 <= k < self.order@.len() ==> self.order@[k] < self.migrations@.len()
        &&& forall|a: int, b: int| 0 <= a < b < self.order@.len()
            ==> self.migrations@[self.order@[a] as int]@.version < self.migrations@[self.order@[b] as int]@.version
        &&& forall|j: int| 0 <= j < self.migrations@.len() ==> storable(#[trigger] self.migrations@[j]@.version)
    }

    /// The number of migrations. Their versions rise strictly and fit the store's column.
    pub fn len(&self) -> (r: usize)
        ensures
            r == self@.len(),
            strictly_ascending(self@),
            forall|k: int| 0 <= k < self@.len() ==> storable(#[trigger] self@[k].version),
    {
        proof { use_type_invariant(self); }
        self.order.len()
    }

    /// Orders `migrations` by ascending version. Fails with `DuplicateMigrationVersion`
    /// when two of them share a version.
    pub fn new(migrations: Vec<Migration<R>>) -> (r: Result<MigrationRegistry<R>, MigrationError>)
        ensures
            (exists|i: int, j: int| 0 <= i < j < migrations@.len() && migrations@[i]@.version == migrations@[j]@.version)
                <==> r is Err,
            r matches Err(e) ==> e matches MigrationError::DuplicateMigrationVersion(v) && exists|i: int, j: int|
                0 <= i < j < migrations@.len() && migrations@[i]@.version == v && migrations@[j]@.version == v,
            r matches Ok(reg) ==> reg@.len() == migrations@.len(),
            r matches Ok(reg) ==> strictly_ascending(reg@),
            r matches Ok(reg) ==> forall|j: int| 0 <= j < migrations@.len() ==> reg@.contains(#[trigger] migrations@[j]@),
            r matches Ok(reg) ==> forall|k: int| 0 <= k < reg@.len() ==> views_of(migrations@).contains(#[trigger] reg@[k]),
    {
        let n = migrations.len();
        let mut order: Vec<usize> = Vec::new();
        let mut i: usize = 0;
        while i < n
            invariant
                n == migrations@.len(),
                i <= n,
                order@.len() == i,
                forall|k: int| 0 <= k < order@.len() ==> order@[k] < i,
                forall|a: int, b: int| 0 <= a < b < order@.len()
                    ==> migrations@[order@[a] as int]@.version < migrations@[order@[b] as int]@.version,
                forall|j: int| 0 <= j < i ==> #[trigger] lists(order@, j),
                forall|j: int| 0 <= j < i ==> storable(#[trigger] migrations@[j]@.version),
                forall|a: int, b: int| 0 <= a < b < i ==> migrations@[a]@.version != migrations@[b]@.version,
            decreases n - i,
        {
            let v = *migrations[i].version();
            let mut p: usize = 0;
            while p < order.len() && *migrations[order[p]].version() < v
                invariant
                    n == migrations@.len(),
                    i < n,
                    v == migrations@[i as int]@.version,
                    p <= order@.len(),
                    forall|k: int| 0 <= k < order@.len() ==> order@[k] < i,
                    forall|k: int| 0 <= k < p ==> migrations@[order@[k] as int]@.version < v,
                decreases order@.len() - p,
            {
                p = p + 1;
            }
            if p < order.len() && *migrations[order[p]].version() == v {
                assert(0 <= order@[p as int] < i < migrations@.len()
                    && migrations@[order@[p as int] as int]@.version == migrations@[i as int]@.version);
                return Err(MigrationError::DuplicateMigrationVersion(v));
            }
            let ghost old_order = order@;
            assert forall|b: int| 0 <= b < i implies migrations@[b]@.version != migrations@[i as int]@.version by {
                assert(lists(old_order, b));
                let k = choose|k: int| 0 <= k < old_order.len() && old_order[k] == b;
                if k < p {
                } else {
                    assert(k >= p);
                    if k > p {
                        assert(migrations@[old_order[p as int] as int]@.version < migrations@[old_order[k] as int]@.version);
                    }
                }
            }
            order.insert(p, i);
            assert forall|j: int| 0 <= j < i + 1 implies #[trigger] lists(order@, j) by {
                if j == i {
                    assert(order@[p as int] == j);
                    assert(lists(order@, j));
                } else {
                    assert(lists(old_order, j));
                    let k = choose|k: int| 0 <= k < old_order.len() && old_order[k] == j;
                    if k < p {
                        assert(order@[k] == j);
                    } else {
                        assert(order@[k + 1] == j);
                    }
                    assert(lists(order@, j));
                }
            }
            i = i + 1;
        }
        let ghost input = migrations@;
        let reg = MigrationRegistry { migrations, order };
        proof {
            let view = reg@;
            assert(reg.migrations@ == input);
            assert(view.len() == n);
            assert forall|a: int, b: int| 0 <= a < b < view.len() implies view[a].version < view[b].version by {
                assert(view[a] == reg.migrations@[reg.order@[a] as int]@);
                assert(view[b] == reg.migrations@[reg.order@[b] as int]@);
            }
            assert forall|j: int| 0 <= j < n implies view.contains(#[trigger] input[j]@) by {
                assert(lists(reg.order@, j));
                let k = choose|k: int| 0 <= k < reg.order@.len() && reg.order@[k] == j;
                assert(view[k] == reg.migrations@[j]@);
            }
            assert forall|k: int| 0 <= k < view.len() implies views_of(input).contains(#[trigger] view[k]) by {
                let j = reg.order@[k] as int;
                assert(view[k] == input[j]@);
                assert(views_of(input)[j] == input[j]@);
            }
        }
        Ok(reg)
    }

    /// The migration at position `k` in ascending version order.
    pub fn get(&self, k: usize) -> (r: &Migration<R>)
        requires
            k < self@.len(),
        ensures
            r@ == self@[k as int],
    {
        proof { use_type_invariant(self); }
        &self.migrations[self.order[k]]
    }

    /// The migration with the given version, if there is one.
    pub fn lookup(&self, version: u64) -> (r: Option<&Migration<R>>)
        ensures
            match r {
                Some(m) => m@.version == version && exists|k: int| 0 <= k < self@.len() && self@[k] == m@,
                None => forall|k: int| 0 <= k < self@.len() ==> self@[k].version != version,
            },
    {
        proof { use_type_invariant(self); }
        let mut k: usize = 0;
        while k < self.order.len()
            invariant
                k <= self@.len(),
                self.order@.len() == self@.len(),
                forall|q: int| 0 <= q < self.order@.len() ==> self.order@[q] < self.migrations@.len(),
                forall|q: int| 0 <= q < k ==> self@[q].version != version,
            decreases self.order@.len() - k,
        {
            let m = &self.migrations[self.order[k]];
            if *m.version() == version {
                assert(self@[k as int] == m@);
                return Some(m);
            }
            k = k + 1;
        }
        None
    }

    /// The versions in ascending order.
    pub fn ascending_versions(&self) -> (r: Vec<u64>)
        ensures
            r@ == view_versions(self@),
    {
        proof { use_type_invariant(self); }
        let mut out: Vec<u64> = Vec::new();
        let mut k: usize = 0;
        while k < self.order.len()
            invariant
                k <= self@.len(),
                self.order@.len() == self@.len(),
                forall|q: int| 0 <= q < self.order@.len() ==> self.order@[q] < self.migrations@.len(),
                out@ == view_versions(self@).take(k as int),
            decreases self.order@.len() - k,
        {
            out.push(*self.migrations[self.order[k]].version());
            assert(view_versions(self@).take(k + 1) == view_versions(self@).take(k as int).push(self@[k as int].version));
            k = k + 1;
        }
        assert(view_versions(self@).take(k as int) == view_versions(self@));
        out
    }

    /// The versions in descending order.
    pub fn descending_versions(&self) -> (r: Vec<u64>)
        ensures
            r@ == view_versions(self@).reverse(),
    {
        let asc = self.ascending_versions();
        let mut out: Vec<u64> = Vec::new();
        let mut k: usize = asc.len();
        while k > 0
            invariant
                k <= asc@.len(),
                out@.len() == asc@.len() - k,
                forall|q: int| 0 <= q < out@.len() ==> out@[q] == asc@[asc@.len() - 1 - q],
            decreases k,
        {
            k = k - 1;
            out.push(asc[k]);
        }
        assert(out@ == asc@.reverse());
        out
    }
}

} // verus!
