use vstd::prelude::*;

verus! {

/// Helpers for handing statements and their parameters to a PostgreSQL connection.
#[derive(Debug, Clone, Copy)]
pub struct PostgresAdapter;

impl PostgresAdapter {
    /// The parameters of a statement: the caller's own, then those the query builder held.
    pub fn prepare_params<T: Copy>(ext_params: &[T], ctx_params: &[T]) -> (r: Vec<T>)
        ensures
            r@ == ext_params@ + ctx_params@,
    {
        let mut out: Vec<T> = Vec::new();
        let mut i: usize = 0;
        while i < ext_params.len()
            invariant
                i <= ext_params@.len(),
                out@ == ext_params@.take(i as int),
            decreases ext_params@.len() - i,
        {
            out.push(ext_params[i]);
            assert(ext_params@.take(i + 1) == ext_params@.take(i as int).push(ext_params@[i as int]));
            i = i + 1;
        }
        let mut j: usize = 0;
        while j < ctx_params.len()
            invariant
                i == ext_params@.len(),
                j <= ctx_params@.len(),
                out@ == ext_params@ + ctx_params@.take(j as int),
            decreases ctx_params@.len() - j,
        {
            out.push(ctx_params[j]);
            assert(ctx_params@.take(j + 1) == ctx_params@.take(j as int).push(ctx_params@[j as int]));
            j = j + 1;
        }
        assert(ext_params@.take(i as int) == ext_params@);
        assert(ctx_params@.take(j as int) == ctx_params@);
        out
    }
}

} // verus!
