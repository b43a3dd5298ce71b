use vstd::prelude::*;
use crate::migration::MigrationError;

verus! {

/// An ASCII decimal digit.
pub open spec fn is_digit(c: char) -> bool {
    '0' <= c && c <= '9'
}

/// An ASCII lower-case letter.
pub open spec fn is_lower(c: char) -> bool {
    'a' <= c && c <= 'z'
}

/// `c` with an ASCII lower-case letter made upper-case.
pub open spec fn upper_of(c: char) -> char {
    if is_lower(c) {
        ((c as u32) - 32) as u32 as char
    } else {
        c
    }
}

/// Ten to the power `n`.
pub open spec fn pow10(n: nat) -> nat
    decreases n,
{
    if n == 0 {
        1
    } else {
        10 * pow10((n - 1) as nat)
    }
}

/// The number that a sequence of decimal digits writes.
pub open spec fn digits_value(s: Seq<char>) -> nat
    decreases s.len(),
{
    if s.len() == 0 {
        0
    } else {
        digits_value(s.drop_last()) * 10 + ((s.last() as u32) - ('0' as u32)) as nat
    }
}

/// The symbol made of a file name's free text: each underscore followed by a lower-case
/// letter becomes that letter upper-cased; every other character stays.
pub open spec fn symbol_of(s: Seq<char>) -> Seq<char>
    decreases s.len(),
{
    if s.len() == 0 {
        Seq::empty()
    } else if s.len() >= 2 && s[0] == '_' && is_lower(s[1]) {
        seq![upper_of(s[1])] + symbol_of(s.skip(2))
    } else {
        seq![s[0]] + symbol_of(s.skip(1))
    }
}

/// A file stem names a migration: an underscore, twelve digits, then free text.
pub open spec fn is_migration_stem(s: Seq<char>) -> bool {
    &&& s.len() >= 13
    &&& s[0] == '_'
    &&& forall|i: int| 1 <= i < 13 ==> is_digit(#[trigger] s[i])
}

/// The version a migration stem encodes: its twelve digits.
pub open spec fn stem_version(s: Seq<char>) -> nat {
    digits_value(s.subrange(1, 13))
}

/// The symbolic name a migration stem gives: its free text as a symbol.
pub open spec fn stem_symbol(s: Seq<char>) -> Seq<char> {
    symbol_of(s.skip(13))
}

/// `c`, upper-cased when it is an ASCII lower-case letter.
pub fn to_upper(c: char) -> (r: char)
    ensures
        r == upper_of(c),
{
    if 'a' <= c && c <= 'z' {
        let b: u8 = c as u8;
        assert(b as u32 == c as u32);
        (b - 32) as char
    } else {
        c
    }
}

/// Relies on `String::push`: appends one character.
#[verifier::external_body]
fn push_char(s: &mut String, c: char)
    ensures
        final(s)@ == old(s)@.push(c),
{
    s.push(c);
}

/// The symbol of a file name's free text.
pub fn symbol_name(text: &str) -> (r: String)
    ensures
        r@ == symbol_of(text@),
{
    let n = text.unicode_len();
    let mut out = String::new();
    let mut i: usize = 0;
    assert(text@.skip(0) == text@);
    while i < n
        invariant
            n == text@.len(),
            i <= n,
            symbol_of(text@) == out@ + symbol_of(text@.skip(i as int)),
        decreases n - i,
    {
        let c = text.get_char(i);
        let ghost rest = text@.skip(i as int);
        assert(rest[0] == c);
        if c == '_' && i + 1 < n && 'a' <= text.get_char(i + 1) && text.get_char(i + 1) <= 'z' {
            let u = to_upper(text.get_char(i + 1));
            assert(rest.skip(2) == text@.skip(i + 2));
            assert(rest[1] == text@[i + 1]);
            push_char(&mut out, u);
            i = i + 2;
        } else {
            assert(rest.skip(1) == text@.skip(i + 1));
            push_char(&mut out, c);
            i = i + 1;
        }
    }
    assert(text@.skip(n as int) == Seq::<char>::empty());
    assert(out@ + Seq::<char>::empty() == out@);
    out
}

/// The version and symbolic name of a migration file stem; `None` when the stem is
/// not an underscore followed by twelve ASCII digits.
pub fn parse_stem(stem: &str) -> (r: Option<(u64, String)>)
    ensures
        is_migration_stem(stem@) <==> r is Some,
        r matches Some((v, name)) ==> v == stem_version(stem@) && name@ == stem_symbol(stem@),
{
    let n = stem.unicode_len();
    if n < 13 || stem.get_char(0) != '_' {
        return None;
    }
    let mut v: u64 = 0;
    let mut i: usize = 1;
    assert(stem@.subrange(1, 1) == Seq::<char>::empty());
    while i < 13
        invariant
            n == stem@.len(),
            n >= 13,
            stem@[0] == '_',
            1 <= i <= 13,
            forall|q: int| 1 <= q < i ==> is_digit(#[trigger] stem@[q]),
            v == digits_value(stem@.subrange(1, i as int)),
            v < pow10((i - 1) as nat),
            i < 13 ==> pow10((i - 1) as nat) <= 100_000_000_000,
        decreases 13 - i,
    {
        let c = stem.get_char(i);
        if !('0' <= c && c <= '9') {
            return None;
        }
        let d: u8 = (c as u8) - ('0' as u8);
        assert(d as u32 == (c as u32) - ('0' as u32));
        let ghost t = stem@.subrange(1, i + 1);
        assert(t.drop_last() == stem@.subrange(1, i as int));
        assert(t.last() == c);
        assert(v * 10 + d < 10 * pow10((i - 1) as nat)) by (nonlinear_arith)
            requires
                v < pow10((i - 1) as nat),
                d <= 9,
        ;
        v = v * 10 + d as u64;
        i = i + 1;
        if i < 13 {
            assert(pow10((i - 1) as nat) == 10 * pow10((i - 2) as nat));
            assert(pow10((i - 2) as nat) <= 10_000_000_000) by {
                lemma_pow10_small((i - 2) as nat);
            }
        }
    }
    let name = symbol_name(stem.substring_char(13, n));
    Some((v, name))
}

/// A migration found among file stems: the stem, its version and its symbolic name.
#[derive(Debug)]
pub struct MigrationEntry {
    pub stem: String,
    pub version: u64,
    pub name: String,
}

/// Where migrations are discovered: a directory, whose file stems are handed to `generate`.
#[derive(Debug)]
pub struct MigrationState {
    pub path: String,
}

/// The positions, among the first `n` stems, of those that name migrations, in order.
pub open spec fn migration_positions(stems: Seq<String>, n: nat) -> Seq<int>
    decreases n,
{
    if n == 0 {
        Seq::empty()
    } else {
        let p = migration_positions(stems, (n - 1) as nat);
        if is_migration_stem(stems[n - 1]@) {
            p.push(n - 1)
        } else {
            p
        }
    }
}

/// The versions of the migrations that the stems name, in order.
pub open spec fn discovered_versions(stems: Seq<String>) -> Seq<u64> {
    migration_positions(stems, stems.len()).map_values(|p: int| stem_version(stems[p]@) as u64)
}

/// `e` describes the migration that `stem` names.
pub open spec fn entry_of(e: MigrationEntry, stem: String) -> bool {
    &&& e.stem == stem
    &&& e.version == stem_version(stem@)
    &&& e.name@ == stem_symbol(stem@)
}

/// Two entries of `vs` are equal.
pub open spec fn has_duplicate(vs: Seq<u64>) -> bool {
    exists|i: int, j: int| 0 <= i < j < vs.len() && vs[i] == vs[j]
}

/// A version that occurs twice in `vs`, if any.
pub fn find_duplicate(vs: &Vec<u64>) -> (r: Option<u64>)
    ensures
        r is Some <==> has_duplicate(vs@),
        r matches Some(v) ==> exists|i: int, j: int| 0 <= i < j < vs@.len() && vs@[i] == v && vs@[j] == v,
{
    let n = vs.len();
    let mut i: usize = 0;
    while i < n
        invariant
            n == vs@.len(),
            i <= n,
            forall|a: int, b: int| 0 <= a < b < n && a < i ==> vs@[a] != vs@[b],
        decreases n - i,
    {
        let mut j: usize = i + 1;
        while j < n
            invariant
                n == vs@.len(),
                i < n,
                i < j <= n,
                forall|a: int, b: int| 0 <= a < b < n && a < i ==> vs@[a] != vs@[b],
                forall|b: int| i < b < j ==> vs@[i as int] != vs@[b],
            decreases n - j,
        {
            if vs[i] == vs[j] {
                assert(0 <= i < j < vs@.len() && vs@[i as int] == vs@[j as int]);
                return Some(vs[i]);
            }
            j = j + 1;
        }
        i = i + 1;
    }
    None
}

/// Some entry of `order` is `j`.
spec fn lists(order: Seq<usize>, j: int) -> bool {
    exists|k: int| 0 <= k < order.len() && order[k] == j
}

/// The positions of `vs`, ordered by ascending value; the values are distinct.
fn ascending_order(vs: &Vec<u64>) -> (order: Vec<usize>)
    requires
        !has_duplicate(vs@),
    ensures
        order@.len() == vs@.len(),
        forall|k: int| 0 <= k < order@.len() ==> order@[k] < vs@.len(),
        forall|a: int, b: int| 0 <= a < b < order@.len() ==> vs@[order@[a] as int] < vs@[order@[b] as int],
        forall|j: int| 0 <= j < vs@.len() ==> #[trigger] lists(order@, j),
{
    let n = vs.len();
    let mut order: Vec<usize> = Vec::new();
    let mut i: usize = 0;
    while i < n
        invariant
            n == vs@.len(),
            !has_duplicate(vs@),
            i <= n,
            order@.len() == i,
            forall|k: int| 0 <= k < order@.len() ==> order@[k] < i,
            forall|a: int, b: int| 0 <= a < b < order@.len() ==> vs@[order@[a] as int] < vs@[order@[b] as int],
            forall|j: int| 0 <= j < i ==> #[trigger] lists(order@, j),
        decreases n - i,
    {
        let v = vs[i];
        let mut p: usize = 0;
        while p < order.len() && vs[order[p]] < v
            invariant
                n == vs@.len(),
                i < n,
                v == vs@[i as int],
                p <= order@.len(),
                forall|k: int| 0 <= k < order@.len() ==> order@[k] < i,
                forall|k: int| 0 <= k < p ==> vs@[order@[k] as int] < v,
            decreases order@.len() - p,
        {
            p = p + 1;
        }
        if p < order.len() {
            assert(vs@[order@[p as int] as int] != v) by {
                assert(0 <= order@[p as int] < i);
            }
        }
        let ghost old_order = order@;
        order.insert(p, i);
        assert forall|j: int| 0 <= j < i + 1 implies #[trigger] lists(order@, j) by {
            if j == i {
                assert(order@[p as int] == j);
            } else {
                assert(lists(old_order, j));
                let k = choose|k: int| 0 <= k < old_order.len() && old_order[k] == j;
                if k < p {
                    assert(order@[k] == j);
                } else {
                    assert(order@[k + 1] == j);
                }
            }
        }
        i = i + 1;
    }
    order
}

/// `e` describes the migration named by one of the matching `stems`.
pub open spec fn found_in(e: MigrationEntry, stems: Seq<String>) -> bool {
    exists|p: int|
        0 <= p < migration_positions(stems, stems.len()).len() && #[trigger] entry_of(
            e,
            stems[migration_positions(stems, stems.len())[p]],
        )
}

/// Some entry of `es` describes the migration that `stem` names.
pub open spec fn listed(es: Seq<MigrationEntry>, stem: String) -> bool {
    exists|q: int| 0 <= q < es.len() && #[trigger] entry_of(es[q], stem)
}

impl MigrationState {
    /// The migrations that the given file stems of this directory name, in ascending
    /// version order. A stem that is not an underscore followed by twelve digits is
    /// skipped. Fails with `DuplicateMigrationVersion` when two stems give the same version.
    pub fn generate(&self, stems: &Vec<String>) -> (r: Result<Vec<MigrationEntry>, MigrationError>)
        ensures
            has_duplicate(discovered_versions(stems@)) <==> r is Err,
            r matches Err(e) ==> e matches MigrationError::DuplicateMigrationVersion(v) && exists|i: int, j: int|
                0 <= i < j < discovered_versions(stems@).len() && discovered_versions(stems@)[i] == v
                    && discovered_versions(stems@)[j] == v,
            r matches Ok(es) ==> {
                &&& es@.len() == migration_positions(stems@, stems@.len()).len()
                &&& forall|a: int, b: int| 0 <= a < b < es@.len() ==> es@[a].version < es@[b].version
                &&& forall|q: int| 0 <= q < es@.len() ==> found_in(#[trigger] es@[q], stems@)
                &&& forall|p: int| 0 <= p < migration_positions(stems@, stems@.len()).len()
                    ==> listed(es@, stems@[#[trigger] migration_positions(stems@, stems@.len())[p]])
            },
    {
        let n = stems.len();
        let mut entries: Vec<MigrationEntry> = Vec::new();
        let mut versions: Vec<u64> = Vec::new();
        let mut i: usize = 0;
        while i < n
            invariant
                n == stems@.len(),
                i <= n,
                entries@.len() == migration_positions(stems@, i as nat).len(),
                versions@ == migration_positions(stems@, i as nat).map_values(|p: int| stem_version(stems@[p]@) as u64),
                forall|p: int| 0 <= p < migration_positions(stems@, i as nat).len()
                    ==> 0 <= #[trigger] migration_positions(stems@, i as nat)[p] < i,
                forall|q: int| 0 <= q < entries@.len()
                    ==> #[trigger] entry_of(entries@[q], stems@[migration_positions(stems@, i as nat)[q]]),
                versions@.len() == entries@.len(),
                forall|q: int| 0 <= q < entries@.len() ==> entries@[q].version == #[trigger] versions@[q],
            decreases n - i,
        {
            match parse_stem(stems[i].as_str()) {
                Some((v, name)) => {
                    entries.push(MigrationEntry { stem: stems[i].clone(), version: v, name });
                    versions.push(v);
                },
                None => {},
            }
            i = i + 1;
        }
        assert(versions@ == discovered_versions(stems@));
        match find_duplicate(&versions) {
            Some(v) => Err(MigrationError::DuplicateMigrationVersion(v)),
            None => {
                let order = ascending_order(&versions);
                let ghost pos = migration_positions(stems@, stems@.len());
                let mut out: Vec<MigrationEntry> = Vec::new();
                let mut k: usize = 0;
                while k < order.len()
                    invariant
                        order@.len() == entries@.len(),
                        entries@.len() == pos.len(),
                        versions@.len() == entries@.len(),
                        forall|q: int| 0 <= q < entries@.len() ==> entries@[q].version == #[trigger] versions@[q],
                        forall|q: int| 0 <= q < order@.len() ==> order@[q] < entries@.len(),
                        k <= order@.len(),
                        out@.len() == k,
                        forall|q: int| 0 <= q < k ==> #[trigger] out@[q] == entries@[order@[q] as int],
                    decreases order@.len() - k,
                {
                    let e = &entries[order[k]];
                    out.push(MigrationEntry { stem: e.stem.clone(), version: e.version, name: e.name.clone() });
                    k = k + 1;
                }
                proof {
                    assert forall|q: int| 0 <= q < out@.len() implies found_in(#[trigger] out@[q], stems@) by {
                        let p = order@[q] as int;
                        assert(entry_of(entries@[p], stems@[pos[p]]));
                    }
                    assert forall|p: int| 0 <= p < pos.len() implies listed(out@, stems@[#[trigger] pos[p]]) by {
                        assert(lists(order@, p));
                        let q = choose|q: int| 0 <= q < order@.len() && order@[q] == p;
                        assert(entry_of(out@[q], stems@[pos[p]]));
                    }
                    assert forall|a: int, b: int| 0 <= a < b < out@.len() implies out@[a].version < out@[b].version by {
                        assert(versions@[order@[a] as int] < versions@[order@[b] as int]);
                    }
                }
                Ok(out)
            },
        }
    }
}

/// Ten to a power below eleven is at most ten to the tenth.
proof fn lemma_pow10_small(n: nat)
    requires
        n <= 10,
    ensures
        pow10(n) <= 10_000_000_000,
    decreases n,
{
    reveal_with_fuel(pow10, 11);
    if n < 10 {
        lemma_pow10_mono(n, 10);
    }
}

/// Powers of ten grow with the exponent.
proof fn lemma_pow10_mono(a: nat, b: nat)
    requires
        a <= b,
    ensures
        pow10(a) <= pow10(b),
    decreases b - a,
{
    if a < b {
        lemma_pow10_mono(a, (b - 1) as nat);
    }
}

} // verus!
