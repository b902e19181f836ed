//! Named text fields of one record, looked up the way a map filled in
//! order answers: the last value stored under a name wins.
use vstd::prelude::*;
use vstd::string::*;

use crate::text::{
    ascii_lower, ascii_lower_chars, chars_eq, chars_of, non_blank, non_blank_string, opt_chars,
    owned, trim, trim_chars,
};

verus! {

/// The names and values of a record, as character sequences.
pub open spec fn pairs_view(f: Seq<(String, String)>) -> Seq<(Seq<char>, Seq<char>)> {
    f.map_values(|p: (String, String)| (p.0@, p.1@))
}

/// The value last stored under `key`.
pub open spec fn lookup(f: Seq<(Seq<char>, Seq<char>)>, key: Seq<char>) -> Option<Seq<char>>
    decreases f.len(),
{
    if f.len() == 0 {
        None
    } else if f.last().0 == key {
        Some(f.last().1)
    } else {
        lookup(f.drop_last(), key)
    }
}

/// The trimmed value under `key`, when there is one and it is not blank.
pub open spec fn field(f: Seq<(Seq<char>, Seq<char>)>, key: Seq<char>) -> Option<Seq<char>> {
    match lookup(f, key) {
        Some(v) => non_blank(v),
        None => None,
    }
}

/// The value last stored under `key`.
pub fn lookup_value(f: &Vec<(String, String)>, key: &str) -> (r: Option<String>)
    ensures
        opt_chars(r) == lookup(pairs_view(f@), key@),
{
    let k = chars_of(key);
    let mut i: usize = f.len();
    assert(f@.subrange(0, f.len() as int) =~= f@);
    while i > 0
        invariant
            i <= f.len(),
            k@ == key@,
            lookup(pairs_view(f@), key@) == lookup(pairs_view(f@.subrange(0, i as int)), key@),
        decreases i,
    {
        let name = chars_of(f[i - 1].0.as_str());
        assert(pairs_view(f@.subrange(0, i as int)).drop_last() =~= pairs_view(
            f@.subrange(0, i - 1),
        ));
        if chars_eq(&name, &k) {
            return Some(f[i - 1].1.clone());
        }
        i -= 1;
    }
    assert(pairs_view(f@.subrange(0, 0)) =~= Seq::<(Seq<char>, Seq<char>)>::empty());
    None
}

/// The trimmed, non-blank value under `key`.
pub fn field_value(f: &Vec<(String, String)>, key: &str) -> (r: Option<String>)
    ensures
        opt_chars(r) == field(pairs_view(f@), key@),
{
    match lookup_value(f, key) {
        Some(v) => non_blank_string(v.as_str()),
        None => None,
    }
}

/// Stores `value` under `key` unless a non-blank value is stored there
/// already; a blank value counts as none.
pub fn insert_if_blank(f: &mut Vec<(String, String)>, key: &str, value: &str)
    ensures
        field(pairs_view(old(f)@), key@) is Some ==> final(f)@ == old(f)@,
        field(pairs_view(old(f)@), key@) is None ==> pairs_view(final(f)@) == pairs_view(
            old(f)@,
        ).push((key@, value@)),
{
    if field_value(f, key).is_none() {
        let k = owned(key);
        let v = owned(value);
        f.push((k, v));
        assert(pairs_view(f@) =~= pairs_view(old(f)@).push((key@, value@)));
    }
}

/// Stores `value` under `key` unless a value is stored there already
/// (`HashMap::entry(..).or_insert_with(..)`).
pub fn insert_if_absent(f: &mut Vec<(String, String)>, key: &str, value: &str)
    ensures
        lookup(pairs_view(old(f)@), key@) is Some ==> final(f)@ == old(f)@,
        lookup(pairs_view(old(f)@), key@) is None ==> pairs_view(final(f)@) == pairs_view(
            old(f)@,
        ).push((key@, value@)),
{
    if lookup_value(f, key).is_none() {
        let k = owned(key);
        let v = owned(value);
        f.push((k, v));
        assert(pairs_view(f@) =~= pairs_view(old(f)@).push((key@, value@)));
    }
}

/// A value is truthy when, trimmed and lower-cased, it reads `true`, `1`,
/// `yes` or `y`.
pub open spec fn is_truthy(v: Seq<char>) -> bool {
    let l = ascii_lower(trim(v));
    l == "true"@ || l == "1"@ || l == "yes"@ || l == "y"@
}

/// Whether a flag value is truthy.
pub fn parse_bool(value: &str) -> (r: bool)
    ensures
        r == is_truthy(value@),
{
    let t = chars_of(value);
    let t = trim_chars(&t);
    let l = ascii_lower_chars(&t);
    chars_eq(&l, &chars_of("true")) || chars_eq(&l, &chars_of("1")) || chars_eq(
        &l,
        &chars_of("yes"),
    ) || chars_eq(&l, &chars_of("y"))
}


/// A copy of a record.
pub fn clone_pairs(v: &Vec<(String, String)>) -> (r: Vec<(String, String)>)
    ensures
        pairs_view(r@) == pairs_view(v@),
{
    let mut r: Vec<(String, String)> = Vec::new();
    let mut i: usize = 0;
    while i < v.len()
        invariant
            i <= v@.len(),
            pairs_view(r@) =~= pairs_view(v@).take(i as int),
        decreases v.len() - i,
    {
        let ghost before = pairs_view(r@);
        r.push((v[i].0.clone(), v[i].1.clone()));
        assert(pairs_view(r@) =~= before.push((v@[i as int].0@, v@[i as int].1@)));
        i += 1;
    }
    r
}

} // verus!
