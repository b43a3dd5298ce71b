use vstd::prelude::*;
use crate::migration::{MigrationError, storable};
use crate::registry::{MigrationRegistry, view_versions};
use crate::store::{applied_newest_first, get_versions_as_hash, get_versions_as_vec};

verus! {

/// Which way a run goes.
#[derive(Debug, Clone, Copy, PartialEq, Eq, Structural)]
pub enum Direction {
    /// Apply pending migrations, oldest first.
    Up,
    /// Revert applied migrations, newest first.
    Down,
}

/// What the caller is to do next.
#[derive(Debug, Clone, Copy, PartialEq, Eq, Structural)]
pub enum Action {
    /// Run the `up` of the migration with this version.
    Apply(u64),
    /// Run the `down` of the migration with this version.
    Revert(u64),
    /// Execute `insert_version` for this version.
    RecordVersion(i64),
    /// Execute `delete_version` for this version.
    RemoveVersion(i64),
    /// Every step succeeded; nothing is left.
    Finished,
    /// A step failed; the run stopped (see `failure`).
    Halted,
}

/// How the caller's last action went.
#[derive(Debug)]
pub enum Event {
    Succeeded,
    Failed(String),
}

/// The migrations of `known` (ascending) that `rows` does not record, in ascending order.
pub open spec fn pending(known: Seq<u64>, rows: Seq<i64>) -> Seq<u64> {
    known.filter(unrecorded(rows))
}

/// Whether a version is absent from the stored `rows`.
pub open spec fn unrecorded(rows: Seq<i64>) -> spec_fn(u64) -> bool {
    |v: u64| !rows.contains(v as i64)
}

/// `s` without any entry equal to `v`.
pub open spec fn without(s: Seq<i64>, v: i64) -> Seq<i64> {
    s.filter(other_than(v))
}

/// Whether an entry differs from `v`.
pub open spec fn other_than(v: i64) -> spec_fn(i64) -> bool {
    |x: i64| x != v
}

/// Versions as the store's column holds them.
pub open spec fn as_stored(plan: Seq<u64>) -> Seq<i64> {
    plan.map_values(|v: u64| v as i64)
}

/// What a rollback goes through: the versions to revert, newest first, and the orphaned
/// version that stops it after them, if one comes up.
pub ghost struct RollbackPlan {
    pub versions: Seq<u64>,
    pub orphan: Option<i64>,
}

/// The walk over the first `n` of the newest-first versions `desc`: each known version
/// joins the plan, until the first one that no known migration has, which ends the walk.
pub open spec fn rollback_prefix(known: Seq<u64>, desc: Seq<i64>, n: nat) -> RollbackPlan
    decreases n,
{
    if n == 0 {
        RollbackPlan { versions: Seq::empty(), orphan: None }
    } else {
        let p = rollback_prefix(known, desc, (n - 1) as nat);
        if p.orphan is Some {
            p
        } else {
            let v = desc[n - 1];
            if v >= 0 && known.contains(v as u64) {
                RollbackPlan { versions: p.versions.push(v as u64), orphan: None }
            } else {
                RollbackPlan { versions: p.versions, orphan: Some(v) }
            }
        }
    }
}

/// The walk of a rollback of `steps` from the stored `rows`.
pub open spec fn rollback_plan(known: Seq<u64>, rows: Seq<i64>, steps: nat) -> RollbackPlan {
    rollback_prefix(known, applied_newest_first(rows), steps)
}

/// The failure a run meets once `done` of its `len` units completed: the orphaned
/// version that ends its plan, if any, when every unit is done.
pub open spec fn halt_after(len: nat, done: nat, orphan: Option<i64>) -> Option<MigrationError> {
    if done >= len && orphan is Some {
        Some(MigrationError::OrphanedMigrationVersion(orphan.unwrap()))
    } else {
        None
    }
}

/// The stored versions after the first `n` units of `plan` completed, starting from `rows`:
/// each applied version is added, each reverted version removed.
pub open spec fn store_after(direction: Direction, rows: Seq<i64>, plan: Seq<u64>, n: nat) -> Seq<i64>
    decreases n,
{
    if n == 0 {
        rows
    } else {
        let s = store_after(direction, rows, plan, (n - 1) as nat);
        let v = plan[n - 1] as i64;
        match direction {
            Direction::Up => s.push(v),
            Direction::Down => without(s, v),
        }
    }
}

/// A run in progress: the plan, how far it got, and the stored versions as they now stand.
pub struct MigrationRunner {
    direction: Direction,
    plan: Vec<u64>,
    done: usize,
    writing: bool,
    failure: Option<MigrationError>,
    orphan: Option<i64>,
    store: Vec<i64>,
    initial: Ghost<Seq<i64>>,
}

/// What a run holds: its direction, its plan, the units completed, whether the current
/// unit's store write is next, the failure that stopped it, the orphaned version met
/// after the plan (for a rollback), the stored versions now and at the start.
pub ghost struct RunnerView {
    pub direction: Direction,
    pub plan: Seq<u64>,
    pub done: nat,
    pub writing: bool,
    pub failure: Option<MigrationError>,
    pub orphan: Option<i64>,
    pub store: Seq<i64>,
    pub initial: Seq<i64>,
}

impl View for MigrationRunner {
    type V = RunnerView;

    closed spec fn view(&self) -> RunnerView {
        RunnerView {
            direction: self.direction,
            plan: self.plan@,
            done: self.done as nat,
            writing: self.writing,
            failure: self.failure,
            orphan: self.orphan,
            store: self.store@,
            initial: self.initial@,
        }
    }
}

/// What a run in state `r` asks for next.
pub open spec fn next_of(r: RunnerView) -> Action {
    if r.failure is Some {
        Action::Halted
    } else if r.done >= r.plan.len() {
        Action::Finished
    } else if !r.writing {
        match r.direction {
            Direction::Up => Action::Apply(r.plan[r.done as int]),
            Direction::Down => Action::Revert(r.plan[r.done as int]),
        }
    } else {
        match r.direction {
            Direction::Up => Action::RecordVersion(r.plan[r.done as int] as i64),
            Direction::Down => Action::RemoveVersion(r.plan[r.done as int] as i64),
        }
    }
}

/// The run is over: it finished or halted.
pub open spec fn is_over(r: RunnerView) -> bool {
    next_of(r) is Finished || next_of(r) is Halted
}

impl MigrationRunner {
    /// The run's state is consistent: its store is the start's store changed by the
    /// completed units.
    pub closed spec fn wf(self) -> bool {
        &&& self.done <= self.plan@.len()
        &&& self.writing ==> self.done < self.plan@.len()
        &&& self.failure is Some ==> !self.writing
        &&& self.failure is None && self.done >= self.plan@.len() ==> self.orphan is None
        &&& forall|k: int| 0 <= k < self.plan@.len() ==> storable(#[trigger] self.plan@[k])
        &&& self.store@ == store_after(self.direction, self.initial@, self.plan@, self.done as nat)
    }

    /// A run that starts from the stored `rows`, follows `plan`, then halts on `orphan`
    /// if there is one.
    fn start(direction: Direction, plan: Vec<u64>, orphan: Option<i64>, rows: &Vec<i64>) -> (r: MigrationRunner)
        requires
            forall|k: int| 0 <= k < plan@.len() ==> storable(#[trigger] plan@[k]),
        ensures
            r.wf(),
            r@ == (RunnerView {
                direction,
                plan: plan@,
                done: 0,
                writing: false,
                failure: halt_after(plan@.len(), 0, orphan),
                orphan,
                store: rows@,
                initial: rows@,
            }),
    {
        let mut store: Vec<i64> = Vec::new();
        let mut i: usize = 0;
        while i < rows.len()
            invariant
                i <= rows@.len(),
                store@ == rows@.take(i as int),
            decreases rows@.len() - i,
        {
            store.push(rows[i]);
            assert(rows@.take(i + 1) == rows@.take(i as int).push(rows@[i as int]));
            i = i + 1;
        }
        assert(rows@.take(i as int) == rows@);
        let failure = match orphan {
            Some(v) => if plan.len() == 0 {
                Some(MigrationError::OrphanedMigrationVersion(v))
            } else {
                None
            },
            None => None,
        };
        MigrationRunner {
            direction,
            plan,
            done: 0,
            writing: false,
            failure,
            orphan,
            store,
            initial: Ghost(rows@),
        }
    }

    /// What to do next.
    pub fn next_action(&self) -> (r: Action)
        requires
            self.wf(),
        ensures
            r == next_of(self@),
    {
        if self.failure.is_some() {
            Action::Halted
        } else if self.done >= self.plan.len() {
            Action::Finished
        } else {
            let v = self.plan[self.done];
            match (self.direction, self.writing) {
                (Direction::Up, false) => Action::Apply(v),
                (Direction::Down, false) => Action::Revert(v),
                (Direction::Up, true) => Action::RecordVersion(v as i64),
                (Direction::Down, true) => Action::RemoveVersion(v as i64),
            }
        }
    }

    /// Takes in how the action that `next_action` asked for went. A failure stops the
    /// run and keeps the store as it was; a migration that ran is followed by its store
    /// write; a store write completes the unit, and completing the last unit before an
    /// orphaned version stops the run with `OrphanedMigrationVersion`.
    pub fn on_event(&mut self, event: Event)
        requires
            old(self).wf(),
            !is_over(old(self)@),
        ensures
            final(self).wf(),
            final(self)@.direction == old(self)@.direction,
            final(self)@.plan == old(self)@.plan,
            final(self)@.initial == old(self)@.initial,
            final(self)@.orphan == old(self)@.orphan,
            match event {
                Event::Failed(msg) => {
                    &&& final(self)@.failure == Some(
                        MigrationError::MigrationExecutionFailed(old(self)@.plan[old(self)@.done as int], msg),
                    )
                    &&& final(self)@.done == old(self)@.done
                    &&& !final(self)@.writing
                    &&& final(self)@.store == old(self)@.store
                },
                Event::Succeeded => {
                    &&& final(self)@.failure == halt_after(old(self)@.plan.len(), final(self)@.done, old(self)@.orphan)
                    &&& !old(self)@.writing ==> {
                        &&& final(self)@.writing
                        &&& final(self)@.done == old(self)@.done
                        &&& final(self)@.store == old(self)@.store
                    }
                    &&& old(self)@.writing ==> {
                        &&& !final(self)@.writing
                        &&& final(self)@.done == old(self)@.done + 1
                        &&& final(self)@.store == match old(self)@.direction {
                            Direction::Up => old(self)@.store.push(old(self)@.plan[old(self)@.done as int] as i64),
                            Direction::Down => without(old(self)@.store, old(self)@.plan[old(self)@.done as int] as i64),
                        }
                    }
                },
            },
    {
        let v = self.plan[self.done];
        match event {
            Event::Failed(msg) => {
                self.writing = false;
                self.failure = Some(MigrationError::MigrationExecutionFailed(v, msg));
            },
            Event::Succeeded => {
                if !self.writing {
                    self.writing = true;
                } else {
                    let plan_len = self.plan.len();
                    assert(self.done < plan_len);
                    let next_done = self.done + 1;
                    let w = v as i64;
                    let mut next: Vec<i64> = Vec::new();
                    match self.direction {
                        Direction::Up => {
                            let mut i: usize = 0;
                            while i < self.store.len()
                                invariant
                                    i <= self.store@.len(),
                                    next@ == self.store@.take(i as int),
                                decreases self.store@.len() - i,
                            {
                                next.push(self.store[i]);
                                assert(self.store@.take(i + 1) == self.store@.take(i as int).push(self.store@[i as int]));
                                i = i + 1;
                            }
                            assert(self.store@.take(i as int) == self.store@);
                            next.push(w);
                        },
                        Direction::Down => {
                            let mut i: usize = 0;
                            while i < self.store.len()
                                invariant
                                    i <= self.store@.len(),
                                    next@ == without(self.store@.take(i as int), w),
                                decreases self.store@.len() - i,
                            {
                                let ghost t1 = self.store@.take(i + 1);
                                assert(t1.drop_last() == self.store@.take(i as int));
                                assert(t1.last() == self.store@[i as int]);
                                proof { reveal(Seq::filter); }
                                assert(without(t1, w) == if t1.last() != w {
                                    without(self.store@.take(i as int), w).push(t1.last())
                                } else {
                                    without(self.store@.take(i as int), w)
                                });
                                if self.store[i] != w {
                                    next.push(self.store[i]);
                                }
                                i = i + 1;
                            }
                            assert(self.store@.take(i as int) == self.store@);
                        },
                    }
                    self.writing = false;
                    self.done = next_done;
                    self.store = next;
                    if next_done == plan_len {
                        match self.orphan {
                            Some(o) => {
                                self.failure = Some(MigrationError::OrphanedMigrationVersion(o));
                            },
                            None => {},
                        }
                    }
                }
            },
        }
    }

    /// The failure that stopped the run, if any.
    pub fn failure(&self) -> (r: &Option<MigrationError>)
        ensures
            *r == self@.failure,
    {
        &self.failure
    }

    /// The stored versions as they now stand.
    pub fn store(&self) -> (r: &Vec<i64>)
        ensures
            r@ == self@.store,
    {
        &self.store
    }

    /// The versions this run goes through, in order.
    pub fn plan(&self) -> (r: &Vec<u64>)
        ensures
            r@ == self@.plan,
    {
        &self.plan
    }

    /// How many units completed.
    pub fn completed(&self) -> (r: usize)
        ensures
            r == self@.done,
    {
        self.done
    }
}

/// Plans applying every migration of `registry` that the stored `rows` do not record,
/// in ascending version order.
pub fn run<R>(registry: &MigrationRegistry<R>, rows: &Vec<i64>) -> (r: MigrationRunner)
    ensures
        r.wf(),
        r@ == (RunnerView {
            direction: Direction::Up,
            plan: pending(view_versions(registry@), rows@),
            done: 0,
            writing: false,
            failure: None,
            orphan: None,
            store: rows@,
            initial: rows@,
        }),
{
    let applied = get_versions_as_hash(rows);
    let known = registry.ascending_versions();
    let n = registry.len();
    let mut plan: Vec<u64> = Vec::new();
    let mut k: usize = 0;
    while k < n
        invariant
            n == known@.len(),
            known@ == view_versions(registry@),
            forall|q: int| 0 <= q < n ==> storable(#[trigger] registry@[q].version),
            k <= n,
            plan@ == pending(known@.take(k as int), rows@),
            forall|q: int| 0 <= q < plan@.len() ==> storable(#[trigger] plan@[q]),
            forall|v: i64| #[trigger] applied@.contains_key(v) <==> rows@.contains(v),
        decreases n - k,
    {
        let v = known[k];
        let ghost t1 = known@.take(k + 1);
        assert(t1.drop_last() == known@.take(k as int));
        assert(t1.last() == v);
        proof { reveal(Seq::filter); }
        assert(pending(t1, rows@) == if !rows@.contains(v as i64) {
            pending(known@.take(k as int), rows@).push(v)
        } else {
            pending(known@.take(k as int), rows@)
        });
        assert(storable(registry@[k as int].version));
        if !applied.contains_key(&(v as i64)) {
            plan.push(v);
        }
        k = k + 1;
    }
    assert(known@.take(n as int) == known@);
    MigrationRunner::start(Direction::Up, plan, None, rows)
}

/// Plans reverting the `steps` most recently applied versions among the stored `rows`,
/// newest first. The walk stops at the first of them that is the version of no migration
/// of `registry`: the newer ones are reverted, then the run halts with
/// `OrphanedMigrationVersion` for it.
pub fn rollback<R>(steps: usize, registry: &MigrationRegistry<R>, rows: &Vec<i64>) -> (r: MigrationRunner)
    requires
        steps <= rows@.len(),
    ensures
        r.wf(),
        r@ == (RunnerView {
            direction: Direction::Down,
            plan: rollback_plan(view_versions(registry@), rows@, steps as nat).versions,
            done: 0,
            writing: false,
            failure: halt_after(
                rollback_plan(view_versions(registry@), rows@, steps as nat).versions.len(),
                0,
                rollback_plan(view_versions(registry@), rows@, steps as nat).orphan,
            ),
            orphan: rollback_plan(view_versions(registry@), rows@, steps as nat).orphan,
            store: rows@,
            initial: rows@,
        }),
{
    let desc = get_versions_as_vec(rows);
    let n = registry.len();
    let known = registry.ascending_versions();
    proof {
        crate::store::lemma_newest_first_total();
        rows@.lemma_sort_by_ensures(crate::store::newest_first());
        vstd::seq_lib::to_multiset_len(rows@);
        vstd::seq_lib::to_multiset_len(desc@);
    }
    let mut plan: Vec<u64> = Vec::new();
    let mut orphan: Option<i64> = None;
    let mut k: usize = 0;
    while k < steps && orphan.is_none()
        invariant
            steps <= desc@.len(),
            desc@ == applied_newest_first(rows@),
            known@ == view_versions(registry@),
            n == known@.len(),
            forall|q: int| 0 <= q < n ==> storable(#[trigger] registry@[q].version),
            k <= steps,
            orphan is None ==> rollback_prefix(known@, desc@, k as nat) == (RollbackPlan { versions: plan@, orphan: None }),
            orphan is Some ==> rollback_prefix(known@, desc@, steps as nat) == (RollbackPlan { versions: plan@, orphan }),
            forall|q: int| 0 <= q < plan@.len() ==> storable(#[trigger] plan@[q]),
        decreases steps - k + (if orphan is None { 1int } else { 0int }),
    {
        let v = desc[k];
        let found = v >= 0 && registry.lookup(v as u64).is_some();
        if !found {
            assert(!(v >= 0 && known@.contains(v as u64))) by {
                if v >= 0 && known@.contains(v as u64) {
                    let q = choose|q: int| 0 <= q < known@.len() && known@[q] == v as u64;
                    assert(registry@[q].version == v as u64);
                }
            }
            proof {
                lemma_rollback_orphan_stays(known@, desc@, (k + 1) as nat, steps as nat);
            }
            orphan = Some(v);
        } else {
            proof {
            let q = choose|q: int| 0 <= q < registry@.len() && registry@[q].version == v as u64;
            assert(known@[q] == v as u64);
            assert(known@.contains(v as u64));
                assert(storable(registry@[q].version));
            }
            plan.push(v as u64);
            k = k + 1;
        }
    }
    MigrationRunner::start(Direction::Down, plan, orphan, rows)
}

/// After the first `n` units of a run, the store holds the start's rows followed by the
/// versions those units applied.
proof fn lemma_store_after_up(rows: Seq<i64>, plan: Seq<u64>, n: nat)
    requires
        n <= plan.len(),
    ensures
        store_after(Direction::Up, rows, plan, n) == rows + as_stored(plan.take(n as int)),
    decreases n,
{
    if n > 0 {
        lemma_store_after_up(rows, plan, (n - 1) as nat);
        assert(as_stored(plan.take(n as int)) == as_stored(plan.take(n - 1)).push(plan[n - 1] as i64));
    } else {
        assert(as_stored(plan.take(0)) == Seq::<i64>::empty());
    }
}

/// A run that completed every unit leaves nothing pending: running the same registry
/// again against the store it left applies nothing and so leaves that store unchanged.
pub proof fn lemma_run_is_idempotent(known: Seq<u64>, rows: Seq<i64>)
    ensures
        pending(known, store_after(Direction::Up, rows, pending(known, rows), pending(known, rows).len()))
            == Seq::<u64>::empty(),
{
    let p = pending(known, rows);
    let after = store_after(Direction::Up, rows, p, p.len());
    lemma_store_after_up(rows, p, p.len());
    assert(p.take(p.len() as int) == p);
    assert forall|i: int| 0 <= i < known.len() implies after.contains(#[trigger] known[i] as i64) by {
        if rows.contains(known[i] as i64) {
            let k = choose|k: int| 0 <= k < rows.len() && rows[k] == known[i] as i64;
            assert(after[k] == rows[k]);
        } else {
            known.lemma_filter_contains(unrecorded(rows), i);
            let j = choose|j: int| 0 <= j < p.len() && p[j] == known[i];
            assert(after[rows.len() + j] == as_stored(p)[j]);
        }
    }
    let q = pending(known, after);
    if q.len() > 0 {
        known.lemma_filter_pred(unrecorded(after), 0);
        assert(q.contains(q[0]));
        known.lemma_filter_contains_rev(unrecorded(after), q[0]);
        let i = choose|i: int| 0 <= i < known.len() && known[i] == q[0];
        assert(after.contains(known[i] as i64));
    }
}

/// The walk over the first `n` newest-first versions `desc` reverts a prefix of them,
/// in that order: all `n` when none is orphaned, else those before the first orphaned
/// version, which the walk reports.
pub proof fn lemma_rollback_walk(known: Seq<u64>, desc: Seq<i64>, n: nat)
    requires
        n <= desc.len(),
    ensures
        rollback_prefix(known, desc, n).versions.len() <= n,
        forall|k: int| 0 <= k < rollback_prefix(known, desc, n).versions.len()
            ==> #[trigger] rollback_prefix(known, desc, n).versions[k] == desc[k] as u64 && desc[k] >= 0,
        rollback_prefix(known, desc, n).orphan is None ==> rollback_prefix(known, desc, n).versions.len() == n,
        rollback_prefix(known, desc, n).orphan matches Some(v) ==> {
            &&& rollback_prefix(known, desc, n).versions.len() < n
            &&& v == desc[rollback_prefix(known, desc, n).versions.len() as int]
            &&& !(v >= 0 && known.contains(v as u64))
        },
    decreases n,
{
    if n > 0 {
        lemma_rollback_walk(known, desc, (n - 1) as nat);
        let prev = rollback_prefix(known, desc, (n - 1) as nat);
        let p = rollback_prefix(known, desc, n);
        if prev.orphan is None && p.orphan is None {
            assert(p.versions == prev.versions.push(desc[n - 1] as u64));
            assert forall|k: int| 0 <= k < p.versions.len() implies #[trigger] p.versions[k] == desc[k] as u64 && desc[k] >= 0 by {
                if k < n - 1 {
                    assert(p.versions[k] == prev.versions[k]);
                }
            }
        }
    }
}

/// Which entries stay after the first `n` units of a rollback: those of the start that
/// none of the reverted versions equals.
proof fn lemma_store_after_down(rows: Seq<i64>, plan: Seq<u64>, n: nat, x: i64)
    requires
        n <= plan.len(),
    ensures
        store_after(Direction::Down, rows, plan, n).contains(x) <==> rows.contains(x) && !as_stored(plan.take(n as int)).contains(x),
    decreases n,
{
    if n > 0 {
        lemma_store_after_down(rows, plan, (n - 1) as nat, x);
        let s = store_after(Direction::Down, rows, plan, (n - 1) as nat);
        let v = plan[n - 1] as i64;
        assert(as_stored(plan.take(n as int)) == as_stored(plan.take(n - 1)).push(v));
        if without(s, v).contains(x) {
            s.lemma_filter_contains_rev(other_than(v), x);
            let k = choose|k: int| 0 <= k < without(s, v).len() && without(s, v)[k] == x;
            s.lemma_filter_pred(other_than(v), k);
        }
        if s.contains(x) && x != v {
            let k = choose|k: int| 0 <= k < s.len() && s[k] == x;
            s.lemma_filter_contains(other_than(v), k);
        }
        assert(as_stored(plan.take(n as int)).contains(x) <==> (as_stored(plan.take(n - 1)).contains(x) || x == v)) by {
            let a = as_stored(plan.take(n - 1));
            if a.push(v).contains(x) {
                let k = choose|k: int| 0 <= k < a.push(v).len() && a.push(v)[k] == x;
                if k < a.len() {
                    assert(a[k] == x);
                }
            }
            if a.contains(x) {
                let k = choose|k: int| 0 <= k < a.len() && a[k] == x;
                assert(a.push(v)[k] == x);
            }
            if x == v {
                assert(a.push(v)[a.len() as int] == x);
            }
        }
    } else {
        assert(as_stored(plan.take(0)) == Seq::<i64>::empty());
    }
}

/// A rollback of `steps` from a store that records each version once, none of the
/// reverted ones unknown, reverts exactly the `steps` newest versions, in strictly
/// descending order, and removes each of them, and nothing else, from the store.
pub proof fn lemma_rollback_reverts_newest(known: Seq<u64>, rows: Seq<i64>, steps: nat)
    requires
        steps <= rows.len(),
        rows.no_duplicates(),
        rollback_plan(known, rows, steps).orphan is None,
    ensures
        ({
            let plan = rollback_plan(known, rows, steps).versions;
            &&& plan.len() == steps
            &&& forall|a: int, b: int| 0 <= a < b < plan.len() ==> plan[a] > plan[b]
            &&& forall|a: int| 0 <= a < plan.len() ==> rows.contains(#[trigger] plan[a] as i64)
            &&& forall|x: i64, a: int| #[trigger] rows.contains(x) && !as_stored(plan).contains(x) && 0 <= a < plan.len()
                ==> x < #[trigger] plan[a] as i64
            &&& forall|x: i64| #[trigger] store_after(Direction::Down, rows, plan, steps).contains(x)
                <==> rows.contains(x) && !as_stored(plan).contains(x)
        }),
{
    let desc = applied_newest_first(rows);
    crate::store::lemma_newest_first_total();
    rows.lemma_sort_by_ensures(crate::store::newest_first());
    vstd::seq_lib::to_multiset_len(rows);
    vstd::seq_lib::to_multiset_len(desc);
    rows.lemma_multiset_has_no_duplicates();
    desc.lemma_multiset_has_no_duplicates_conv();
    lemma_rollback_walk(known, desc, steps);
    let plan = rollback_plan(known, rows, steps).versions;
    assert(plan.take(steps as int) == plan);
    assert forall|a: int, b: int| 0 <= a < b < plan.len() implies plan[a] > plan[b] by {
        assert(crate::store::newest_first()(desc[a], desc[b]));
    }
    assert forall|a: int| 0 <= a < plan.len() implies rows.contains(#[trigger] plan[a] as i64) by {
        assert(plan[a] as i64 == desc[a]);
        vstd::seq_lib::to_multiset_contains(desc, desc[a]);
        vstd::seq_lib::to_multiset_contains(rows, desc[a]);
    }
    assert forall|x: i64, a: int| #[trigger] rows.contains(x) && !as_stored(plan).contains(x) && 0 <= a < plan.len()
        implies x < #[trigger] plan[a] as i64 by {
        vstd::seq_lib::to_multiset_contains(desc, x);
        vstd::seq_lib::to_multiset_contains(rows, x);
        let k = choose|k: int| 0 <= k < desc.len() && desc[k] == x;
        if k < steps {
            assert(as_stored(plan)[k] == x);
        } else {
            assert(crate::store::newest_first()(desc[a], desc[k]));
            assert(desc[a] != desc[k]);
            assert(plan[a] as i64 == desc[a]);
        }
    }
    assert forall|x: i64| #[trigger] store_after(Direction::Down, rows, plan, steps).contains(x)
        <==> rows.contains(x) && !as_stored(plan).contains(x) by {
        lemma_store_after_down(rows, plan, steps, x);
    }
}

/// Once the walk of a rollback meets an orphaned version, walking further changes nothing.
proof fn lemma_rollback_orphan_stays(known: Seq<u64>, desc: Seq<i64>, m: nat, n: nat)
    requires
        m <= n,
        rollback_prefix(known, desc, m).orphan is Some,
    ensures
        rollback_prefix(known, desc, n) == rollback_prefix(known, desc, m),
    decreases n - m,
{
    if m < n {
        lemma_rollback_orphan_stays(known, desc, m, (n - 1) as nat);
    }
}

} // verus!
