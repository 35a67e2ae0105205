//! A session token line changes the session token and nothing else.
//!
//! Take any sequence of INI items in which the section `s` makes a profile
//! without a session token, and add one line `aws_session_token = w` inside
//! `s`. Then the profiles read are the same as before, under the same names
//! and in the same order, but for the profile of `s`, which now has the
//! token `w`.

use crate::ini::{
    fits, gather, ini_items, lemma_gather_push, sections_of, step, Gathered, IniView, ItemView,
    SectionView,
};
use crate::loader::credentials_file::{
    lemma_tags_differ, profile_of, profiles_in, spec_read_profiles, value_in,
    INI_ACCESS_KEY_ID_TAG, INI_SECRET_ACCESS_KEY_TAG, INI_SESSION_TOKEN_TAG,
};
use crate::loader::profile::ProfileView;
use crate::loader::SourceView;
use crate::ordered::{lemma_position, lemma_position_by_keys, lemma_upsert, position, upsert};
use vstd::prelude::*;

verus! {

/// The key that an item sets, if it sets one.
pub open spec fn key_of(item: ItemView) -> Option<Seq<char>> {
    match item {
        ItemView::Property(key, _) => Some(key),
        ItemView::Action(key) => Some(key),
        _ => None,
    }
}

/// The entries of the section `name`; none where there is no such section.
pub open spec fn section_of(sections: IniView, name: Seq<char>) -> SectionView {
    if position(sections, name) >= 0 {
        sections[position(sections, name)].1
    } else {
        Seq::empty()
    }
}

/// The line that gives the session token `w`.
pub open spec fn token_line(w: Seq<char>) -> ItemView {
    ItemView::Property(INI_SESSION_TOKEN_TAG@, w)
}

/// A profile with the session token `w` in place of its own.
pub open spec fn with_token(p: ProfileView, w: Seq<char>) -> ProfileView {
    ProfileView {
        name: p.name,
        access_key_id: p.access_key_id,
        secret_access_key: p.secret_access_key,
        session_token: Some(w),
        file: p.file,
    }
}

/// Whether position `j` of `items` lies inside the section `s`, in a place
/// where a token line decides the token of `s`: `s` is the section open at
/// `j`, its header does not come again from `j` on, and no item of `s` from
/// `j` on sets the token.
pub open spec fn inside_section(items: Seq<ItemView>, j: int, s: Seq<char>) -> bool {
    &&& 0 <= j <= items.len()
    &&& gather(items.take(j)).open == Some(s)
    &&& forall|k: int| j <= k < items.len() ==> #[trigger] items[k] != ItemView::Section(s)
    &&& forall|k: int|
        j <= k < items.len() && gather(items.take(k)).open == Some(s) ==> key_of(
            #[trigger] items[k],
        ) != Some(INI_SESSION_TOKEN_TAG@)
}

/// Whether the section `s` of `sections` makes a profile without a session
/// token.
pub open spec fn makes_profile_without_token(sections: IniView, s: Seq<char>) -> bool {
    &&& value_in(section_of(sections, s), INI_ACCESS_KEY_ID_TAG@) is Some
    &&& value_in(section_of(sections, s), INI_SECRET_ACCESS_KEY_TAG@) is Some
    &&& value_in(section_of(sections, s), INI_SESSION_TOKEN_TAG@) is None
}

/// No two sections have the same name.
pub open spec fn names_differ(sections: IniView) -> bool {
    forall|a: int, b: int|
        0 <= a < sections.len() && 0 <= b < sections.len() && a != b ==> (
        #[trigger] sections[a]).0 != (#[trigger] sections[b]).0
}

/// What was gathered is sound: no two sections have the same name, and the
/// section that is open is among them.
pub open spec fn sound(g: Gathered) -> bool {
    &&& names_differ(g.sections)
    &&& g.open is Some ==> position(g.sections, g.open.unwrap()) >= 0
}

/// One more item leaves what was gathered sound.
proof fn lemma_step_sound(g: Gathered, item: ItemView)
    requires
        sound(g),
    ensures
        sound(step(g, item)),
{
    let before = g.sections;
    let after = step(g, item).sections;
    match item {
        ItemView::Section(name) => {
            lemma_position(before, name);
            lemma_upsert(before, name, Seq::<(Seq<char>, Option<Seq<char>>)>::empty(), name);
            assert forall|a: int, b: int|
                0 <= a < after.len() && 0 <= b < after.len() && a != b implies (
            #[trigger] after[a]).0 != (#[trigger] after[b]).0 by {
                if a < before.len() && b < before.len() {
                    assert(before[a].0 != before[b].0);
                }
            }
        },
        _ => {
            if g.open is Some && key_of(item) is Some {
                let name = g.open.unwrap();
                lemma_position(before, name);
                lemma_position_by_keys(after, before, name);
                assert forall|a: int, b: int|
                    0 <= a < after.len() && 0 <= b < after.len() && a != b implies (
                #[trigger] after[a]).0 != (#[trigger] after[b]).0 by {
                    assert(before[a].0 != before[b].0);
                }
            }
        },
    }
}

/// Whatever the items: no two sections gathered have the same name, and
/// the open section is among them.
pub proof fn lemma_gather_sound(items: Seq<ItemView>)
    ensures
        sound(gather(items)),
    decreases items.len(),
{
    if items.len() > 0 {
        lemma_gather_sound(items.drop_last());
        lemma_step_sound(gather(items.drop_last()), items.last());
    }
}

/// Whether `later` holds what `earlier` holds, but for the token, which is
/// `w`.
pub open spec fn differs_by_token(earlier: SectionView, later: SectionView, w: Seq<char>) -> bool {
    forall|q: Seq<char>|
        #[trigger] value_in(later, q) == if q == INI_SESSION_TOKEN_TAG@ {
            Some(w)
        } else {
            value_in(earlier, q)
        }
}

/// Whether `later` has the sections of `earlier` under the same names, all
/// the same but for the section `s`, which differs by the token `w`.
pub open spec fn sections_differ_by_token(
    earlier: IniView,
    later: IniView,
    s: Seq<char>,
    w: Seq<char>,
) -> bool {
    &&& later.len() == earlier.len()
    &&& position(earlier, s) >= 0
    &&& forall|i: int| 0 <= i < earlier.len() ==> (#[trigger] later[i]).0 == earlier[i].0
    &&& forall|i: int|
        0 <= i < earlier.len() && i != position(earlier, s) ==> (#[trigger] later[i]).1
            == earlier[i].1
    &&& differs_by_token(earlier[position(earlier, s)].1, later[position(earlier, s)].1, w)
}

/// The value under a key after an insertion: the value inserted under the
/// key of the insertion, the value from before under any other.
proof fn lemma_upsert_value<V>(es: Seq<(Seq<char>, Option<V>)>, key: Seq<char>, value: Option<V>, q: Seq<char>)
    ensures
        (if position(upsert(es, key, value), q) >= 0 {
            upsert(es, key, value)[position(upsert(es, key, value), q)].1
        } else {
            None
        }) == (if q == key {
            value
        } else if position(es, q) >= 0 {
            es[position(es, q)].1
        } else {
            None
        }),
{
    lemma_upsert(es, key, value, q);
}

/// A key other than the token, put into both sections, leaves them
/// differing by the token.
proof fn lemma_put_keeps_difference(
    earlier: SectionView,
    later: SectionView,
    w: Seq<char>,
    key: Seq<char>,
    value: Option<Seq<char>>,
)
    requires
        differs_by_token(earlier, later, w),
        key != INI_SESSION_TOKEN_TAG@,
    ensures
        differs_by_token(upsert(earlier, key, value), upsert(later, key, value), w),
{
    assert forall|q: Seq<char>| #[trigger]
        value_in(upsert(later, key, value), q) == if q == INI_SESSION_TOKEN_TAG@ {
            Some(w)
        } else {
            value_in(upsert(earlier, key, value), q)
        } by {
        lemma_upsert_value(earlier, key, value, q);
        lemma_upsert_value(later, key, value, q);
        assert(value_in(later, q) == if q == INI_SESSION_TOKEN_TAG@ {
            Some(w)
        } else {
            value_in(earlier, q)
        });
    }
}

/// One more item, which neither opens `s` again nor sets the token in `s`,
/// leaves the sections differing by the token of `s`.
proof fn lemma_step_keeps_difference(
    g: Gathered,
    g2: Gathered,
    item: ItemView,
    s: Seq<char>,
    w: Seq<char>,
)
    requires
        g2.open == g.open,
        sections_differ_by_token(g.sections, g2.sections, s, w),
        item != ItemView::Section(s),
        g.open == Some(s) ==> key_of(item) != Some(INI_SESSION_TOKEN_TAG@),
    ensures
        step(g2, item).open == step(g, item).open,
        sections_differ_by_token(step(g, item).sections, step(g2, item).sections, s, w),
{
    let a = g.sections;
    let b = g2.sections;
    let at = position(a, s);
    let a2 = step(g, item).sections;
    let b2 = step(g2, item).sections;
    lemma_position(a, s);
    match item {
        ItemView::Section(name) => {
            let empty = Seq::<(Seq<char>, Option<Seq<char>>)>::empty();
            lemma_position(a, name);
            lemma_position_by_keys(b, a, name);
            lemma_upsert(a, name, empty, s);
            assert(a2[at] == a[at]);
            assert(b2[at] == b[at]);
            assert forall|i: int| 0 <= i < a2.len() implies (#[trigger] b2[i]).0 == a2[i].0 by {
                if i < a.len() {
                    assert(b[i].0 == a[i].0);
                }
            }
            assert forall|i: int| 0 <= i < a2.len() && i != at implies (#[trigger] b2[i]).1
                == a2[i].1 by {
                if i < a.len() && i != position(a, name) {
                    assert(b[i].1 == a[i].1);
                }
            }
        },
        _ => {
            if g.open is Some && key_of(item) is Some {
                let name = g.open.unwrap();
                let key = key_of(item).unwrap();
                let value = match item {
                    ItemView::Property(_, v) => Some(v),
                    _ => None,
                };
                let to = position(a, name);
                lemma_position(a, name);
                lemma_position_by_keys(b, a, name);
                if to >= 0 {
                    lemma_position_by_keys(a2, a, s);
                    assert(b[to].0 == a[to].0);
                    if to == at {
                        lemma_put_keeps_difference(a[at].1, b[at].1, w, key, value);
                    } else {
                        assert(b[to].1 == a[to].1);
                    }
                    assert forall|i: int| 0 <= i < a2.len() implies (#[trigger] b2[i]).0
                        == a2[i].0 by {
                        assert(b[i].0 == a[i].0);
                    }
                    assert forall|i: int| 0 <= i < a2.len() && i != at implies (
                    #[trigger] b2[i]).1 == a2[i].1 by {
                        assert(b[i].1 == a[i].1);
                    }
                }
            }
        },
    }
}

/// From the token line on, what is gathered with the line differs from what
/// is gathered without it by the token of `s`.
proof fn lemma_line_keeps_difference(
    items: Seq<ItemView>,
    j: int,
    s: Seq<char>,
    w: Seq<char>,
    n: int,
)
    requires
        inside_section(items, j, s),
        j <= n <= items.len(),
    ensures
        gather(items.insert(j, token_line(w)).take(n + 1)).open == gather(items.take(n)).open,
        sections_differ_by_token(
            gather(items.take(n)).sections,
            gather(items.insert(j, token_line(w)).take(n + 1)).sections,
            s,
            w,
        ),
    decreases n - j,
{
    let more = items.insert(j, token_line(w));
    if n == j {
        let g = gather(items.take(j));
        let sections = g.sections;
        let at = position(sections, s);
        assert(more.take(j + 1) =~= items.take(j).push(token_line(w)));
        lemma_gather_push(items.take(j), token_line(w));
        lemma_gather_sound(items.take(j));
        lemma_position(sections, s);
        let after = step(g, token_line(w)).sections;
        assert forall|q: Seq<char>| #[trigger]
            value_in(after[at].1, q) == if q == INI_SESSION_TOKEN_TAG@ {
                Some(w)
            } else {
                value_in(sections[at].1, q)
            } by {
            lemma_upsert_value(sections[at].1, INI_SESSION_TOKEN_TAG@, Some(w), q);
        }
    } else {
        lemma_line_keeps_difference(items, j, s, w, n - 1);
        let item = items[n - 1];
        assert(items.take(n) =~= items.take(n - 1).push(item));
        assert(more.take(n + 1) =~= more.take(n).push(item));
        lemma_gather_push(items.take(n - 1), item);
        lemma_gather_push(more.take(n), item);
        lemma_step_keeps_difference(
            gather(items.take(n - 1)),
            gather(more.take(n)),
            item,
            s,
            w,
        );
    }
}

/// Whether one of the first `n` sections has the name `q`.
pub open spec fn named(sections: IniView, n: int, q: Seq<char>) -> bool {
    exists|i: int| 0 <= i < n && (#[trigger] sections[i]).0 == q
}

/// Sections that differ by the token of `s` make profiles that differ by
/// the token of the profile `s`, prefix by prefix.
proof fn lemma_profiles_differ_by_token(
    earlier: IniView,
    later: IniView,
    s: Seq<char>,
    w: Seq<char>,
    source: SourceView,
    n: int,
)
    requires
        names_differ(earlier),
        sections_differ_by_token(earlier, later, s, w),
        makes_profile_without_token(earlier, s),
        0 <= n <= earlier.len(),
    ensures
        forall|q: Seq<char>| #[trigger]
            position(profiles_in(earlier.take(n), source), q) >= 0 ==> named(earlier, n, q),
        n <= position(earlier, s) ==> profiles_in(later.take(n), source) == profiles_in(
            earlier.take(n),
            source,
        ),
        n > position(earlier, s) ==> {
            let m = profiles_in(earlier.take(n), source);
            &&& position(m, s) >= 0
            &&& m[position(m, s)].1.session_token is None
            &&& profiles_in(later.take(n), source) == m.update(
                position(m, s),
                (s, with_token(m[position(m, s)].1, w)),
            )
        },
    decreases n,
{
    if n > 0 {
        lemma_profiles_differ_by_token(earlier, later, s, w, source, n - 1);
        lemma_tags_differ();
        let at = position(earlier, s);
        lemma_position(earlier, s);
        let name = earlier[n - 1].0;
        let before = profiles_in(earlier.take(n - 1), source);
        let before2 = profiles_in(later.take(n - 1), source);
        let m = profiles_in(earlier.take(n), source);
        let m2 = profiles_in(later.take(n), source);
        assert(earlier.take(n).drop_last() =~= earlier.take(n - 1));
        assert(later.take(n).drop_last() =~= later.take(n - 1));
        assert(earlier.take(n).last() == earlier[n - 1]);
        assert(later.take(n).last() == later[n - 1]);
        assert(later[n - 1].0 == name);
        // the name is new among the profiles so far
        assert(position(before, name) < 0) by {
            if position(before, name) >= 0 {
                assert(named(earlier, n - 1, name));
                let i = choose|i: int| 0 <= i < n - 1 && (#[trigger] earlier[i]).0 == name;
                assert(earlier[i].0 != earlier[n - 1].0);
            }
        }
        lemma_position(before, s);
        lemma_position(before, name);
        lemma_position_by_keys(before2, before, name);
        let p = profile_of(name, earlier[n - 1].1, source);
        let p2 = profile_of(name, later[n - 1].1, source);
        if n - 1 == at {
            let sec = earlier[at].1;
            let sec2 = later[at].1;
            assert(value_in(sec2, INI_ACCESS_KEY_ID_TAG@) == value_in(sec, INI_ACCESS_KEY_ID_TAG@));
            assert(value_in(sec2, INI_SECRET_ACCESS_KEY_TAG@) == value_in(
                sec,
                INI_SECRET_ACCESS_KEY_TAG@,
            ));
            assert(value_in(sec2, INI_SESSION_TOKEN_TAG@) == Some(w));
            assert(p2 == Some(with_token(p.unwrap(), w)));
            assert(m2 =~= m.update(before.len() as int, (s, with_token(p.unwrap(), w))));
            assert(m.drop_last() =~= before);
        } else {
            assert(later[n - 1].1 == earlier[n - 1].1);
            assert(name != s) by {
                assert(earlier[n - 1].0 != earlier[at].0);
            }
            if p is Some {
                assert(m.drop_last() =~= before);
                if n - 1 > at {
                    let ps = position(before, s);
                    assert(m2 =~= m.update(ps, (s, with_token(m[ps].1, w))));
                }
            }
        }
        assert forall|q: Seq<char>| #[trigger] position(m, q) >= 0 implies named(
            earlier,
            n,
            q,
        ) by {
            if position(before, q) >= 0 {
                assert(named(earlier, n - 1, q));
                let i = choose|i: int| 0 <= i < n - 1 && (#[trigger] earlier[i]).0 == q;
                assert(earlier[i].0 == q);
            } else {
                assert(earlier[n - 1].0 == q);
            }
        }
    } else {
        lemma_position(earlier, s);
        assert(earlier.take(0) =~= Seq::<(Seq<char>, SectionView)>::empty());
        assert(later.take(0) =~= Seq::<(Seq<char>, SectionView)>::empty());
    }
}

/// A token line added inside a section that makes a profile without a
/// token changes the token of that profile and nothing else: the profiles
/// stand under the same names, in the same order, and all but that one are
/// the same.
pub proof fn lemma_token_line_adds_token(
    items: Seq<ItemView>,
    j: int,
    s: Seq<char>,
    w: Seq<char>,
    source: SourceView,
)
    requires
        inside_section(items, j, s),
        makes_profile_without_token(sections_of(items), s),
    ensures
        ({
            let m = profiles_in(sections_of(items), source);
            let m2 = profiles_in(sections_of(items.insert(j, token_line(w))), source);
            &&& position(m, s) >= 0
            &&& m[position(m, s)].1.session_token is None
            &&& m2 == m.update(position(m, s), (s, with_token(m[position(m, s)].1, w)))
        }),
{
    let more = items.insert(j, token_line(w));
    let earlier = sections_of(items);
    let later = sections_of(more);
    lemma_line_keeps_difference(items, j, s, w, items.len() as int);
    assert(items.take(items.len() as int) =~= items);
    assert(more.take(items.len() as int + 1) =~= more);
    lemma_gather_sound(items);
    lemma_profiles_differ_by_token(earlier, later, s, w, source, earlier.len() as int);
    assert(earlier.take(earlier.len() as int) =~= earlier);
    assert(later.take(earlier.len() as int) =~= later);
    lemma_position(earlier, s);
}

/// The same of two texts: where the items of the second are the items of
/// the first with a token line inside a section that makes a profile
/// without a token, both texts are read with success, and what is read
/// differs by the token of that one profile.
pub proof fn lemma_read_profiles_with_token_line(
    text: Seq<char>,
    more: Seq<char>,
    j: int,
    s: Seq<char>,
    w: Seq<char>,
    source: SourceView,
)
    requires
        fits(text),
        fits(more),
        inside_section(ini_items(text), j, s),
        makes_profile_without_token(sections_of(ini_items(text)), s),
        ini_items(more) == ini_items(text).insert(j, token_line(w)),
    ensures
        spec_read_profiles(text, source) is Ok,
        spec_read_profiles(more, source) is Ok,
        ({
            let m = spec_read_profiles(text, source)->Ok_0;
            let m2 = spec_read_profiles(more, source)->Ok_0;
            &&& position(m, s) >= 0
            &&& m[position(m, s)].1.session_token is None
            &&& m2 == m.update(position(m, s), (s, with_token(m[position(m, s)].1, w)))
        }),
{
    lemma_token_line_adds_token(ini_items(text), j, s, w, source);
    lemma_position(profiles_in(sections_of(ini_items(text)), source), s);
}

} // verus!
