use vstd::prelude::*;
use crate::engine::ascending;

verus! {

/// Whether `s` ends with `.log`.
pub open spec fn has_log_suffix(s: Seq<char>) -> bool {
    s.len() >= 4 && s.subrange(s.len() - 4, s.len() as int) == seq!['.', 'l', 'o', 'g']
}

/// Whether `c` is an ASCII decimal digit.
pub open spec fn is_digit(c: char) -> bool {
    '0' <= c && c <= '9'
}

/// The number written by the decimal digits `s`.
pub open spec fn decimal_value(s: Seq<char>) -> nat
    decreases s.len(),
{
    if s.len() == 0 {
        0
    } else {
        decimal_value(s.drop_last()) * 10 + (s.last() as nat - '0' as nat) as nat
    }
}

/// What `u64` parsing gives for `s`: an optional `+`, then one or more decimal digits,
/// whose value fits in 64 bits.
pub open spec fn u64_of(s: Seq<char>) -> Option<u64> {
    let d = if s.len() > 0 && s[0] == '+' { s.drop_first() } else { s };
    if d.len() > 0 && (forall|i: int| 0 <= i < d.len() ==> is_digit(#[trigger] d[i]))
        && decimal_value(d) <= u64::MAX {
        Some(decimal_value(d) as u64)
    } else {
        None
    }
}

/// The generation that a directory entry named `name` holds: `<gen>.log`, else none.
pub open spec fn gen_of_name(name: Seq<char>) -> Option<u64> {
    if has_log_suffix(name) {
        u64_of(name.subrange(0, name.len() - 4))
    } else {
        None
    }
}

/// Relies on `str::strip_suffix`: the part before a trailing `.log`, if there is one.
#[verifier::external_body]
fn strip_log_suffix(name: &str) -> (r: Option<&str>)
    ensures
        match r {
            Some(p) => has_log_suffix(name@) && p@ == name@.subrange(0, name@.len() - 4),
            None => !has_log_suffix(name@),
        },
{
    name.strip_suffix(".log")
}

/// Relies on `<u64 as FromStr>::from_str`: an optional `+` and decimal digits, in range.
#[verifier::external_body]
fn parse_u64(s: &str) -> (r: Option<u64>)
    ensures
        r == u64_of(s@),
{
    s.parse::<u64>().ok()
}

/// The generation named by the directory entry `name`, if it is a log file name.
pub fn gen_from_file_name(name: &String) -> (r: Option<u64>)
    ensures
        r == gen_of_name(name@),
{
    match strip_log_suffix(name.as_str()) {
        Some(prefix) => parse_u64(prefix),
        None => None,
    }
}

/// Adds `g` to the ascending `gens`, unless it is there.
fn insert_ascending(gens: &mut Vec<u64>, g: u64)
    requires
        ascending(old(gens)@),
    ensures
        ascending(final(gens)@),
        forall|x: u64| #[trigger] final(gens)@.contains(x) <==> (old(gens)@.contains(x) || x == g),
{
    let mut i: usize = 0;
    while i < gens.len() && gens[i] < g
        invariant
            0 <= i <= gens@.len(),
            forall|j: int| 0 <= j < i ==> gens@[j] < g,
        decreases gens@.len() - i,
    {
        i = i + 1;
    }
    if i < gens.len() && gens[i] == g {
        return;
    }
    let ghost before = gens@;
    gens.insert(i, g);
    proof {
        assert forall|a: int, b: int| 0 <= a < b < gens@.len() implies gens@[a] < gens@[b] by {
            if b < i {
            } else if b == i {
            } else if a < i {
                assert(before[a] < before[b - 1] || a == b - 1);
                assert(before[b - 1] > g) by {
                    assert(before[i as int] >= g);
                    if (b - 1) > i { assert(before[i as int] < before[b - 1]); }
                }
            } else if a == i {
                assert(before[i as int] >= g && before[i as int] != g);
                if b - 1 > i { assert(before[i as int] < before[b - 1]); }
            } else {
                assert(before[a - 1] < before[b - 1]);
            }
        }
        assert forall|x: u64| #[trigger] gens@.contains(x) <==> (before.contains(x) || x == g) by {
            if before.contains(x) {
                let j = choose|j: int| 0 <= j < before.len() && before[j] == x;
                if j < i { assert(gens@[j] == x); } else { assert(gens@[j + 1] == x); }
            }
            if x == g { assert(gens@[i as int] == g); }
            if gens@.contains(x) {
                let j = choose|j: int| 0 <= j < gens@.len() && gens@[j] == x;
                if j < i { assert(before[j] == x); } else if j > i { assert(before[j - 1] == x); }
            }
        }
    }
}

/// The generations named by the directory entries `names`, ascending and each once;
/// other names are ignored.
pub fn sorted_gen_list(names: &Vec<String>) -> (r: Vec<u64>)
    ensures
        ascending(r@),
        forall|g: u64| #[trigger] r@.contains(g) <==> exists|i: int|
            0 <= i < names@.len() && gen_of_name(#[trigger] names@[i]@) == Some(g),
{
    let mut gens: Vec<u64> = Vec::new();
    let mut i: usize = 0;
    while i < names.len()
        invariant
            0 <= i <= names@.len(),
            ascending(gens@),
            forall|g: u64| #[trigger] gens@.contains(g) <==> exists|j: int|
                0 <= j < i && gen_of_name(#[trigger] names@[j]@) == Some(g),
        decreases names@.len() - i,
    {
        let parsed = gen_from_file_name(&names[i]);
        let ghost before = gens@;
        if let Some(g) = parsed {
            insert_ascending(&mut gens, g);
        }
        proof {
            assert forall|x: u64| #[trigger] gens@.contains(x) <==> exists|j: int|
                0 <= j < i + 1 && gen_of_name(#[trigger] names@[j]@) == Some(x) by {
                if gen_of_name(names@[i as int]@) == Some(x) {
                    assert(gens@.contains(x));
                }
                if gens@.contains(x) && !before.contains(x) {
                    assert(gen_of_name(names@[i as int]@) == Some(x));
                }
                if exists|j: int| 0 <= j < i + 1 && gen_of_name(#[trigger] names@[j]@) == Some(x) {
                    let j = choose|j: int| 0 <= j < i + 1 && gen_of_name(#[trigger] names@[j]@) == Some(x);
                    if j < i { assert(before.contains(x)); }
                }
            }
        }
        i = i + 1;
    }
    gens
}

} // verus!
