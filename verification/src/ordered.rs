//! Insertion-ordered maps with text keys.
//!
//! The maps are `indexmap::IndexMap`. What one holds is described as the
//! sequence of its entries, in the order of iteration; the wrappers below
//! say what each method that the library calls does to that sequence.

use crate::loader::profile::AwsProfile;
use indexmap::IndexMap;
use vstd::prelude::*;

verus! {

/// Trusted: makes `indexmap::IndexMap` known as a type of which nothing is
/// seen but what the wrappers of this module say.
#[verifier::external_type_specification]
#[verifier::external_body]
#[verifier::reject_recursive_types(K)]
#[verifier::reject_recursive_types(V)]
#[verifier::reject_recursive_types(S)]
pub struct ExIndexMap<K, V, S>(IndexMap<K, V, S>);

/// The position of the first entry of `es` under `key`, or -1 where there is
/// none.
pub open spec fn position<V>(es: Seq<(Seq<char>, V)>, key: Seq<char>) -> int
    decreases es.len(),
{
    if es.len() == 0 {
        -1
    } else if position(es.drop_last(), key) >= 0 {
        position(es.drop_last(), key)
    } else if es.last().0 == key {
        es.len() - 1
    } else {
        -1
    }
}

/// `es` after an insertion of `value` under `key`: an entry under that key
/// keeps its place and takes the new value; without one, the new entry comes
/// last.
pub open spec fn upsert<V>(es: Seq<(Seq<char>, V)>, key: Seq<char>, value: V) -> Seq<
    (Seq<char>, V),
> {
    if position(es, key) >= 0 {
        es.update(position(es, key), (key, value))
    } else {
        es.push((key, value))
    }
}

/// What `position` finds is an entry under the key, and the first one.
pub proof fn lemma_position<V>(es: Seq<(Seq<char>, V)>, key: Seq<char>)
    ensures
        -1 <= position(es, key) < es.len(),
        position(es, key) >= 0 ==> es[position(es, key)].0 == key,
        forall|j: int| 0 <= j < es.len() && es[j].0 == key ==> 0 <= position(es, key) <= j,
    decreases es.len(),
{
    if es.len() > 0 {
        let front = es.drop_last();
        lemma_position(front, key);
        assert forall|j: int| 0 <= j < es.len() && es[j].0 == key implies 0 <= position(es, key)
            <= j by {
            if j < front.len() {
                assert(front[j] == es[j]);
            }
        }
    }
}

/// The position of a key depends on the keys alone.
pub proof fn lemma_position_by_keys<V, W>(
    a: Seq<(Seq<char>, V)>,
    b: Seq<(Seq<char>, W)>,
    key: Seq<char>,
)
    requires
        a.len() == b.len(),
        forall|i: int| 0 <= i < a.len() ==> a[i].0 == b[i].0,
    ensures
        position(a, key) == position(b, key),
    decreases a.len(),
{
    if a.len() > 0 {
        lemma_position_by_keys(a.drop_last(), b.drop_last(), key);
    }
}

/// After an insertion the key leads to the value inserted, and every other
/// key leads to what it led to before.
pub proof fn lemma_upsert<V>(es: Seq<(Seq<char>, V)>, key: Seq<char>, value: V, other: Seq<char>)
    ensures
        position(upsert(es, key, value), key) >= 0,
        upsert(es, key, value)[position(upsert(es, key, value), key)].1 == value,
        other != key ==> position(upsert(es, key, value), other) == position(es, other),
        other != key && position(es, other) >= 0 ==> upsert(es, key, value)[position(es, other)].1
            == es[position(es, other)].1,
{
    let after = upsert(es, key, value);
    lemma_position(es, key);
    lemma_position(es, other);
    if position(es, key) >= 0 {
        lemma_position_by_keys(after, es, key);
        lemma_position_by_keys(after, es, other);
    } else {
        assert(after.drop_last() =~= es);
    }
}

/// The entries of a map from profile names to profiles, in order.
pub uninterp spec fn profile_entries(m: IndexMap<String, AwsProfile>) -> Seq<
    (Seq<char>, AwsProfile),
>;

/// An empty map of profiles.
///
/// Trusted: calls `IndexMap::with_capacity`, which makes a map without
/// entries.
#[verifier::external_body]
pub(crate) fn profiles_with_capacity(n: usize) -> (m: IndexMap<String, AwsProfile>)
    ensures
        profile_entries(m) == Seq::<(Seq<char>, AwsProfile)>::empty(),
{
    IndexMap::with_capacity(n)
}

/// Puts `value` into the map under `key`.
///
/// Trusted: calls `IndexMap::insert`. Where an equal key is present, the
/// entry keeps its place and its value is replaced; otherwise the new entry
/// is appended.
#[verifier::external_body]
pub(crate) fn profiles_insert(m: &mut IndexMap<String, AwsProfile>, key: String, value: AwsProfile)
    ensures
        profile_entries(*final(m)) == upsert(profile_entries(*old(m)), key@, value),
{
    m.insert(key, value);
}

/// The profile under `key`.
///
/// Trusted: calls `IndexMap::get`, which returns the value of the entry with
/// an equal key, if there is one.
#[verifier::external_body]
pub(crate) fn profiles_get<'a>(m: &'a IndexMap<String, AwsProfile>, key: &str) -> (r: Option<
    &'a AwsProfile,
>)
    ensures
        match r {
            Some(p) => position(profile_entries(*m), key@) >= 0 && *p == profile_entries(
                *m,
            )[position(profile_entries(*m), key@)].1,
            None => position(profile_entries(*m), key@) < 0,
        },
{
    m.get(key)
}

/// The number of profiles in the map.
///
/// Trusted: calls `IndexMap::len`.
#[verifier::external_body]
pub(crate) fn profiles_len(m: &IndexMap<String, AwsProfile>) -> (n: usize)
    ensures
        n == profile_entries(*m).len(),
{
    m.len()
}

/// The profiles of the map, in order.
///
/// Trusted: calls `IndexMap::values`, which walks the values in the order of
/// the entries.
#[verifier::external_body]
pub(crate) fn profiles_values<'a>(m: &'a IndexMap<String, AwsProfile>) -> (r: Vec<&'a AwsProfile>)
    ensures
        r@.len() == profile_entries(*m).len(),
        forall|i: int| 0 <= i < r@.len() ==> *r@[i] == profile_entries(*m)[i].1,
{
    m.values().collect()
}

/// The names under which the map holds its profiles, in order.
///
/// Trusted: calls `IndexMap::keys`, which walks the keys in the order of
/// the entries.
#[verifier::external_body]
pub(crate) fn profiles_keys<'a>(m: &'a IndexMap<String, AwsProfile>) -> (r: Vec<&'a String>)
    ensures
        r@.len() == profile_entries(*m).len(),
        forall|i: int| 0 <= i < r@.len() ==> r@[i]@ == profile_entries(*m)[i].0,
{
    m.keys().collect()
}

/// The entries of a map from borrowed profile names to borrowed profiles,
/// in order.
pub uninterp spec fn alias_entries(m: IndexMap<&String, &AwsProfile>) -> Seq<
    (Seq<char>, AwsProfile),
>;

/// An empty map of borrowed profiles.
///
/// Trusted: calls `IndexMap::with_capacity`, which makes a map without
/// entries.
#[verifier::external_body]
pub(crate) fn aliases_with_capacity<'a>(n: usize) -> (m: IndexMap<&'a String, &'a AwsProfile>)
    ensures
        alias_entries(m) == Seq::<(Seq<char>, AwsProfile)>::empty(),
{
    IndexMap::with_capacity(n)
}

/// Puts `value` into the map under `key`.
///
/// Trusted: calls `IndexMap::insert`. Where an equal key is present, the
/// entry keeps its place and its value is replaced; otherwise the new entry
/// is appended.
#[verifier::external_body]
pub(crate) fn aliases_insert<'a>(
    m: &mut IndexMap<&'a String, &'a AwsProfile>,
    key: &'a String,
    value: &'a AwsProfile,
)
    ensures
        alias_entries(*final(m)) == upsert(alias_entries(*old(m)), key@, *value),
{
    m.insert(key, value);
}

/// The profiles of the map, in order.
///
/// Trusted: calls `IndexMap::values`, which walks the values in the order of
/// the entries.
#[verifier::external_body]
pub(crate) fn aliases_values<'a>(m: &IndexMap<&'a String, &'a AwsProfile>) -> (r: Vec<
    &'a AwsProfile,
>)
    ensures
        r@.len() == alias_entries(*m).len(),
        forall|i: int| 0 <= i < r@.len() ==> *r@[i] == alias_entries(*m)[i].1,
{
    m.values().copied().collect()
}

/// The view of an optional borrowed text.
pub open spec fn str_view(o: Option<&str>) -> Option<Seq<char>> {
    match o {
        Some(s) => Some(s@),
        None => None,
    }
}

/// The entries of one section of an INI text: keys with their values, a key
/// without a value with none.
pub uninterp spec fn section_entries(m: IndexMap<&str, Option<&str>>) -> Seq<
    (Seq<char>, Option<Seq<char>>),
>;

/// An empty section.
///
/// Trusted: calls `IndexMap::with_capacity`, which makes a map without
/// entries.
#[verifier::external_body]
pub(crate) fn section_with_capacity<'a>(n: usize) -> (m: IndexMap<&'a str, Option<&'a str>>)
    ensures
        section_entries(m) == Seq::<(Seq<char>, Option<Seq<char>>)>::empty(),
{
    IndexMap::with_capacity(n)
}

/// Puts `value` into the section under `key`.
///
/// Trusted: calls `IndexMap::insert`. Where an equal key is present, the
/// entry keeps its place and its value is replaced; otherwise the new entry
/// is appended.
#[verifier::external_body]
pub(crate) fn section_insert<'a>(
    m: &mut IndexMap<&'a str, Option<&'a str>>,
    key: &'a str,
    value: Option<&'a str>,
)
    ensures
        section_entries(*final(m)) == upsert(section_entries(*old(m)), key@, str_view(value)),
{
    m.insert(key, value);
}

/// The value under `key` in the section.
///
/// Trusted: calls `IndexMap::get`, which returns the value of the entry with
/// an equal key, if there is one.
#[verifier::external_body]
pub(crate) fn section_get<'a>(m: &IndexMap<&'a str, Option<&'a str>>, key: &str) -> (r: Option<
    Option<&'a str>,
>)
    ensures
        match r {
            Some(v) => position(section_entries(*m), key@) >= 0 && str_view(v) == section_entries(
                *m,
            )[position(section_entries(*m), key@)].1,
            None => position(section_entries(*m), key@) < 0,
        },
{
    m.get(key).copied()
}

/// The sections of an INI text under their names, each as its entries.
pub uninterp spec fn ini_entries(m: IndexMap<&str, IndexMap<&str, Option<&str>>>) -> Seq<
    (Seq<char>, Seq<(Seq<char>, Option<Seq<char>>)>),
>;

/// An INI text without sections.
///
/// Trusted: calls `IndexMap::with_capacity`, which makes a map without
/// entries.
#[verifier::external_body]
pub(crate) fn ini_with_capacity<'a>(n: usize) -> (m: IndexMap<
    &'a str,
    IndexMap<&'a str, Option<&'a str>>,
>)
    ensures
        ini_entries(m) == Seq::<(Seq<char>, Seq<(Seq<char>, Option<Seq<char>>)>)>::empty(),
{
    IndexMap::with_capacity(n)
}

/// Puts `section` into the map under `name`.
///
/// Trusted: calls `IndexMap::insert`. Where an equal name is present, the
/// entry keeps its place and its section is replaced; otherwise the new
/// entry is appended.
#[verifier::external_body]
pub(crate) fn ini_insert<'a>(
    m: &mut IndexMap<&'a str, IndexMap<&'a str, Option<&'a str>>>,
    name: &'a str,
    section: IndexMap<&'a str, Option<&'a str>>,
)
    ensures
        ini_entries(*final(m)) == upsert(ini_entries(*old(m)), name@, section_entries(section)),
{
    m.insert(name, section);
}

/// The sections of the map with their names, in order.
///
/// Trusted: calls `IndexMap::iter`, which walks the entries in order.
#[verifier::external_body]
pub(crate) fn ini_sections<'a, 'b>(
    m: &'b IndexMap<&'a str, IndexMap<&'a str, Option<&'a str>>>,
) -> (r: Vec<(&'a str, &'b IndexMap<&'a str, Option<&'a str>>)>)
    ensures
        r@.len() == ini_entries(*m).len(),
        forall|i: int|
            0 <= i < r@.len() ==> r@[i].0@ == ini_entries(*m)[i].0 && section_entries(*r@[i].1)
                == ini_entries(*m)[i].1,
{
    m.iter().map(|(k, v)| (*k, v)).collect()
}

} // verus!
