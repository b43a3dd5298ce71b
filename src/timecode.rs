use vstd::prelude::*;
use crate::discovery::{is_digit, is_migration_stem, stem_symbol, symbol_of};

verus! {

/// The file stem of a new migration: an underscore, the time code, an underscore, the name.
pub open spec fn full_name_of(timecode: Seq<char>, name: Seq<char>) -> Seq<char> {
    seq!['_'] + timecode + seq!['_'] + name
}

/// Twelve ASCII digits.
pub open spec fn is_timecode(t: Seq<char>) -> bool {
    t.len() == 12 && forall|i: int| 0 <= i < 12 ==> is_digit(#[trigger] t[i])
}

/// Relies on time 0.1's `now_utc` and `Tm::strftime`: the current UTC time, written as
/// year, month, day, hour, minute and second, each zero-padded to two digits. The format
/// is valid, so `strftime` returns `Ok`.
#[verifier::external_body]
pub fn gen_timecode() -> (r: String)
    ensures
        is_timecode(r@),
{
    time::now_utc().strftime("%y%m%d%H%M%S").unwrap().to_string()
}

/// The file stem of a new migration named `name` with the given time code.
pub fn full_migration_name(timecode: &str, name: &str) -> (r: String)
    ensures
        r@ == full_name_of(timecode@, name@),
{
    proof {
        reveal_strlit("_");
    }
    let mut out = String::from_str("_");
    out.append(timecode);
    out.append("_");
    out.append(name);
    out
}

/// The file stem of a new migration named `name`, stamped with the current time. It
/// names a migration, whose symbol comes from `_` followed by `name`.
pub fn gen_full_name(name: &str) -> (r: String)
    ensures
        exists|t: Seq<char>| is_timecode(t) && r@ == full_name_of(t, name@),
        is_migration_stem(r@),
        stem_symbol(r@) == symbol_of(seq!['_'] + name@),
{
    let code = gen_timecode();
    let r = full_migration_name(code.as_str(), name);
    assert(r@ == full_name_of(code@, name@));
    assert forall|i: int| 1 <= i < 13 implies is_digit(#[trigger] r@[i]) by {
        assert(r@[i] == code@[i - 1]);
    }
    assert(r@.skip(13) == seq!['_'] + name@);
    r
}

} // verus!
