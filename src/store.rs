use vstd::prelude::*;
use vstd::relations::{sorted_by, total_ordering};
use std::collections::HashMap;

verus! {

broadcast use vstd::std_specs::hash::group_hash_axioms;

/// A statement for the version store, with its integer parameters.
#[derive(Debug)]
pub struct Statement {
    pub sql: String,
    pub params: Vec<i64>,
}

/// Newest first: the order of versions from the most recently applied.
pub open spec fn newest_first() -> spec_fn(i64, i64) -> bool {
    |x: i64, y: i64| x >= y
}

/// The stored versions, newest first.
pub open spec fn applied_newest_first(rows: Seq<i64>) -> Seq<i64> {
    rows.sort_by(newest_first())
}

/// Newest-first is a total order.
pub proof fn lemma_newest_first_total()
    ensures
        total_ordering(newest_first()),
{
}

/// Creates the version table unless it exists.
pub fn ensure_schema_migrations() -> (r: Statement)
    ensures
        r.sql@ == "CREATE TABLE IF NOT EXISTS schema_migrations (version BIGINT NOT NULL);"@,
        r.params@ == Seq::<i64>::empty(),
{
    Statement {
        sql: String::from_str("CREATE TABLE IF NOT EXISTS schema_migrations (version BIGINT NOT NULL);"),
        params: Vec::new(),
    }
}

/// Reads every stored version, newest first.
pub fn select_versions() -> (r: Statement)
    ensures
        r.sql@ == "SELECT version FROM schema_migrations ORDER BY version DESC;"@,
        r.params@ == Seq::<i64>::empty(),
{
    Statement {
        sql: String::from_str("SELECT version FROM schema_migrations ORDER BY version DESC;"),
        params: Vec::new(),
    }
}

/// Records `version` as applied.
pub fn insert_version(version: &i64) -> (r: Statement)
    ensures
        r.sql@ == "INSERT INTO schema_migrations VALUES ($1);"@,
        r.params@ == seq![*version],
{
    let mut params: Vec<i64> = Vec::new();
    params.push(*version);
    Statement { sql: String::from_str("INSERT INTO schema_migrations VALUES ($1);"), params }
}

/// Removes every record of `version`.
pub fn delete_version(version: &i64) -> (r: Statement)
    ensures
        r.sql@ == "DELETE FROM schema_migrations WHERE version = $1;"@,
        r.params@ == seq![*version],
{
    let mut params: Vec<i64> = Vec::new();
    params.push(*version);
    Statement { sql: String::from_str("DELETE FROM schema_migrations WHERE version = $1;"), params }
}

/// The stored versions as a set: each maps to `true`.
pub fn get_versions_as_hash(rows: &Vec<i64>) -> (r: HashMap<i64, bool>)
    ensures
        forall|v: i64| #[trigger] r@.contains_key(v) <==> rows@.contains(v),
        forall|v: i64| r@.contains_key(v) ==> r@[v],
{
    let mut m: HashMap<i64, bool> = HashMap::new();
    let mut i: usize = 0;
    while i < rows.len()
        invariant
            i <= rows@.len(),
            forall|v: i64| #[trigger] m@.contains_key(v) <==> rows@.take(i as int).contains(v),
            forall|v: i64| m@.contains_key(v) ==> m@[v],
        decreases rows@.len() - i,
    {
        m.insert(rows[i], true);
        assert(rows@.take(i + 1) == rows@.take(i as int).push(rows@[i as int]));
        let ghost t1 = rows@.take(i + 1);
        let ghost t0 = rows@.take(i as int);
        assert forall|v: i64| t1.contains(v) <==> (t0.contains(v) || v == rows@[i as int]) by {
            if t1.contains(v) {
                let k = choose|k: int| 0 <= k < t1.len() && t1[k] == v;
                if k < i {
                    assert(t0[k] == v);
                }
            }
            if t0.contains(v) {
                let k = choose|k: int| 0 <= k < t0.len() && t0[k] == v;
                assert(t1[k] == v);
            }
            if v == rows@[i as int] {
                assert(t1[i as int] == v);
            }
        }
        i = i + 1;
    }
    assert(rows@.take(i as int) == rows@);
    m
}

/// The stored versions, newest first.
pub fn get_versions_as_vec(rows: &Vec<i64>) -> (r: Vec<i64>)
    ensures
        r@ == applied_newest_first(rows@),
{
    let mut out: Vec<i64> = Vec::new();
    let mut i: usize = 0;
    proof {
        assert(rows@.take(0) == out@);
    }
    while i < rows.len()
        invariant
            i <= rows@.len(),
            sorted_by(out@, newest_first()),
            out@.to_multiset() == rows@.take(i as int).to_multiset(),
        decreases rows@.len() - i,
    {
        let x = rows[i];
        let mut p: usize = 0;
        while p < out.len() && out[p] >= x
            invariant
                p <= out@.len(),
                forall|k: int| 0 <= k < p ==> out@[k] >= x,
            decreases out@.len() - p,
        {
            p = p + 1;
        }
        let ghost before = out@;
        out.insert(p, x);
        assert forall|a: int, b: int| 0 <= a < b < out@.len() implies #[trigger] newest_first()(out@[a], out@[b]) by {
            if b < p {
                assert(newest_first()(before[a], before[b]));
            } else if b == p {
                assert(out@[a] == before[a]);
            } else if a < p {
                assert(out@[a] == before[a]);
                assert(out@[b] == before[b - 1]);
                if b - 1 > a {
                    assert(newest_first()(before[a], before[b - 1]));
                }
            } else if a == p {
                assert(out@[b] == before[b - 1]);
                assert(p < before.len());
                assert(before[p as int] < x);
                if b - 1 > p {
                    assert(newest_first()(before[p as int], before[b - 1]));
                }
            } else {
                assert(newest_first()(before[a - 1], before[b - 1]));
            }
        }
        proof {
            vstd::seq_lib::to_multiset_insert(before, p as int, x);
            vstd::seq_lib::to_multiset_build(rows@.take(i as int), x);
        }
        assert(rows@.take(i + 1) == rows@.take(i as int).push(x));
        i = i + 1;
    }
    assert(rows@.take(i as int) == rows@);
    proof {
        lemma_newest_first_total();
        rows@.lemma_sort_by_ensures(newest_first());
        vstd::seq_lib::lemma_sorted_unique(out@, rows@.sort_by(newest_first()), newest_first());
    }
    out
}

} // verus!
