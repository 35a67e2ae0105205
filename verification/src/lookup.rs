//! The lookup structure: loaded files in priority order, queried by profile
//! name, by namespace prefix or by URI.

use crate::loader::credentials_file::{
    lemma_views_upsert, views_of, AwsCredentialsFile, FileView,
};
use crate::ordered::{
    alias_entries, aliases_insert, aliases_values, aliases_with_capacity, lemma_position,
    lemma_position_by_keys, position, upsert,
};
use crate::loader::profile::{AwsProfile, ProfileView};
use crate::loader::source_set::{
    file_views, lemma_populate_ascending, spec_insert, spec_insert_all, strictly_ascending,
    well_ordered, SourceSet,
};
use crate::path::{same_text, text_of};
use vstd::prelude::*;

verus! {

/// A question put to the lookup.
pub enum Query {
    /// The profile of this name.
    Name(Seq<char>),
    /// The profile of a name (second) in the namespace of a prefix (first).
    Prefix(Seq<char>, Seq<char>),
    /// The profile of this URI.
    Uri(Seq<char>),
}

/// The first profile among `ps`, in order, whose URI under `home` is `uri`.
pub open spec fn first_with_uri(
    ps: Seq<(Seq<char>, ProfileView)>,
    uri: Seq<char>,
    home: Option<Seq<char>>,
) -> Option<ProfileView>
    decreases ps.len(),
{
    if ps.len() == 0 {
        None
    } else {
        match first_with_uri(ps.drop_last(), uri, home) {
            Some(p) => Some(p),
            None => if ps.last().1.uri(home) == uri {
                Some(ps.last().1)
            } else {
                None
            },
        }
    }
}

/// Whether a file belongs to the namespace `prefix`: the canonical
/// credentials file to the namespace `/`, any other file to the namespace of
/// its stem.
pub open spec fn in_namespace(f: FileView, prefix: Seq<char>, home: Option<Seq<char>>) -> bool {
    if prefix == seq!['/'] {
        f.is_root(home)
    } else {
        !f.is_root(home) && f.prefix(home) == Some(prefix)
    }
}

/// What one file answers to a query.
pub open spec fn answer(f: FileView, q: Query, home: Option<Seq<char>>) -> Option<ProfileView> {
    match q {
        Query::Name(name) => f.find(name),
        Query::Prefix(prefix, name) => if in_namespace(f, prefix, home) {
            f.find(name)
        } else {
            None
        },
        Query::Uri(uri) => first_with_uri(f.profiles, uri, home),
    }
}

/// What a collection of files answers to a query: the answer of the file of
/// the highest priority that has one.
pub open spec fn resolve(files: Seq<FileView>, q: Query, home: Option<Seq<char>>) -> Option<
    ProfileView,
>
    decreases files.len(),
{
    if files.len() == 0 {
        None
    } else {
        match answer(files.last(), q, home) {
            Some(p) => Some(p),
            None => resolve(files.drop_last(), q, home),
        }
    }
}

/// The profiles of one file, in order.
pub open spec fn profiles_of(f: FileView) -> Seq<ProfileView> {
    Seq::new(f.profiles.len(), |i: int| f.profiles[i].1)
}

/// Every profile of every file, from the lowest priority to the highest.
pub open spec fn all_profiles(files: Seq<FileView>) -> Seq<ProfileView>
    decreases files.len(),
{
    if files.len() == 0 {
        Seq::empty()
    } else {
        all_profiles(files.drop_last()) + profiles_of(files.last())
    }
}

/// The profiles of `ps` merged by name, in the order given: a later profile
/// replaces an earlier one of the same name, in the earlier one's place.
pub open spec fn aliased(ps: Seq<ProfileView>) -> Seq<(Seq<char>, ProfileView)>
    decreases ps.len(),
{
    if ps.len() == 0 {
        Seq::empty()
    } else {
        upsert(aliased(ps.drop_last()), ps.last().name, ps.last())
    }
}

/// One profile for each name among the profiles of all files: the one of
/// the highest priority, in the place where the name first occurs.
pub open spec fn all_aliased(files: Seq<FileView>) -> Seq<ProfileView> {
    Seq::new(
        aliased(all_profiles(files)).len(),
        |i: int| aliased(all_profiles(files))[i].1,
    )
}

/// The views of a sequence of borrowed profiles.
pub open spec fn profile_views(ps: Seq<&AwsProfile>) -> Seq<ProfileView> {
    Seq::new(ps.len(), |i: int| ps[i]@)
}

/// The view of an optional borrowed profile.
pub open spec fn found(r: Option<&AwsProfile>) -> Option<ProfileView> {
    match r {
        Some(p) => Some(p@),
        None => None,
    }
}

/// Loaded files in priority order, with the queries on them.
pub struct AwsProfileLookup {
    files: SourceSet,
}

impl View for AwsProfileLookup {
    type V = Seq<FileView>;

    closed spec fn view(&self) -> Seq<FileView> {
        self.files@
    }
}

impl AwsProfileLookup {
    /// The home directory by which the files are ranked.
    pub closed spec fn home(&self) -> Option<Seq<char>> {
        self.files.home()
    }

    /// An empty lookup that ranks files by the given home directory.
    pub fn with_home(home: Option<String>) -> (r: Self)
        ensures
            r@ == Seq::<FileView>::empty(),
            r.home() == text_of(home),
    {
        AwsProfileLookup { files: SourceSet::with_home(home) }
    }

    /// States the order that every lookup keeps: each file ranks below the
    /// next, and no two rank equal. Does nothing when run.
    pub fn ordered(&self)
        ensures
            well_ordered(self@, self.home()),
    {
        self.files.ordered();
    }

    /// An empty lookup that ranks files by the home directory of the current
    /// user, looked up once.
    pub fn new() -> (r: Self)
        ensures
            r@ == Seq::<FileView>::empty(),
    {
        AwsProfileLookup { files: SourceSet::new() }
    }

    /// Puts a file in its place among the files held.
    pub fn insert(&mut self, value: AwsCredentialsFile)
        ensures
            final(self)@ == spec_insert(old(self)@, value@, old(self).home()),
            final(self).home() == old(self).home(),
            well_ordered(final(self)@, final(self).home()),
    {
        self.files.insert(value);
    }

    /// Puts each of the files in its place, in the order given.
    pub fn insert_all(&mut self, files: Vec<AwsCredentialsFile>)
        ensures
            final(self)@ == spec_insert_all(old(self)@, file_views(files@), old(self).home()),
            final(self).home() == old(self).home(),
            well_ordered(final(self)@, final(self).home()),
    {
        let ghost before = self@;
        let ghost home = self.home();
        let ghost all = files@;
        self.files.ordered();
        assert(file_views(all.take(0)) =~= Seq::<FileView>::empty());
        for file in it: files
            invariant
                it.seq() == all,
                self.home() == home,
                well_ordered(self@, home),
                self@ == spec_insert_all(before, file_views(all.take(it.index() as int)), home),
        {
            proof {
                let k = it.index() as int;
                assert(file_views(all.take(k + 1)).drop_last() =~= file_views(all.take(k)));
                assert(file_views(all.take(k + 1)).last() == all[k]@);
            }
            self.files.insert(file);
        }
        assert(all.take(all.len() as int) =~= all);
    }

    /// The profile of the given name from the file of the highest priority
    /// that has one.
    pub fn by_name(&self, name: &str) -> (r: Option<&AwsProfile>)
        ensures
            found(r) == resolve(self@, Query::Name(name@), self.home()),
    {
        let ghost q = Query::Name(name@);
        let mut i = self.files.len();
        assert(self@.take(i as int) =~= self@);
        while i > 0
            invariant
                i <= self@.len(),
                resolve(self@, q, self.home()) == resolve(self@.take(i as int), q, self.home()),
                q == Query::Name(name@),
            decreases i,
        {
            i -= 1;
            proof {
                assert(self@.take(i + 1).drop_last() =~= self@.take(i as int));
            }
            let file = self.files.get(i).unwrap();
            if let Some(profile) = file.get(name) {
                return Some(profile);
            }
        }
        None
    }

    /// The profile of the given name from a namespace. The prefix `/` names
    /// the canonical credentials file; any other prefix names the files of
    /// that stem, of which the highest in priority that has the profile
    /// answers.
    pub fn by_prefix(&self, prefix: &str, name: &str) -> (r: Option<&AwsProfile>)
        ensures
            found(r) == resolve(self@, Query::Prefix(prefix@, name@), self.home()),
    {
        let ghost q = Query::Prefix(prefix@, name@);
        proof {
            reveal_strlit("/");
        }
        let root = same_text(prefix, "/");
        assert("/"@ =~= seq!['/']);
        let mut i = self.files.len();
        assert(self@.take(i as int) =~= self@);
        while i > 0
            invariant
                i <= self@.len(),
                resolve(self@, q, self.home()) == resolve(self@.take(i as int), q, self.home()),
                q == Query::Prefix(prefix@, name@),
                root == (prefix@ == seq!['/']),
            decreases i,
        {
            i -= 1;
            proof {
                assert(self@.take(i + 1).drop_last() =~= self@.take(i as int));
            }
            let file = self.files.get(i).unwrap();
            let selected = if root {
                file.is_root_in(self.files.home_dir())
            } else if file.is_root_in(self.files.home_dir()) {
                false
            } else {
                match file.prefix_in(self.files.home_dir()) {
                    Some(p) => same_text(p.as_str(), prefix),
                    None => false,
                }
            };
            if selected {
                if let Some(profile) = file.get(name) {
                    return Some(profile);
                }
            }
        }
        None
    }

    /// The profile of the given URI, such as `/dev` or `something/prod`:
    /// the first of that URI in the file of the highest priority that has
    /// one.
    pub fn by_uri(&self, uri: &str) -> (r: Option<&AwsProfile>)
        ensures
            found(r) == resolve(self@, Query::Uri(uri@), self.home()),
    {
        let ghost q = Query::Uri(uri@);
        let mut i = self.files.len();
        assert(self@.take(i as int) =~= self@);
        while i > 0
            invariant
                i <= self@.len(),
                resolve(self@, q, self.home()) == resolve(self@.take(i as int), q, self.home()),
                q == Query::Uri(uri@),
            decreases i,
        {
            i -= 1;
            proof {
                assert(self@.take(i + 1).drop_last() =~= self@.take(i as int));
            }
            let file = self.files.get(i).unwrap();
            let profiles = file.values();
            let ghost ps = file@.profiles;
            let m = profiles.len();
            let mut j: usize = 0;
            assert(ps.take(0) =~= Seq::<(Seq<char>, ProfileView)>::empty());
            while j < m
                invariant
                    j <= m,
                    m == ps.len(),
                    m == profiles@.len(),
                    forall|k: int| 0 <= k < m ==> (#[trigger] profiles@[k])@ == ps[k].1,
                    first_with_uri(ps.take(j as int), uri@, self.home()) is None,
                    i < self@.len(),
                    ps == self@[i as int].profiles,
                    q == Query::Uri(uri@),
                    resolve(self@, q, self.home()) == resolve(
                        self@.take(i + 1),
                        q,
                        self.home(),
                    ),
                decreases m - j,
            {
                let profile = profiles[j];
                proof {
                    assert(ps.take(j + 1).drop_last() =~= ps.take(j as int));
                    assert(ps.take(j + 1).last() == ps[j as int]);
                }
                let candidate = profile.uri_in(self.files.home_dir());
                if same_text(candidate.as_str(), uri) {
                    proof {
                        lemma_first_with_uri_extends(ps, uri@, self.home(), j + 1);
                        assert(self@.take(i + 1).last() == self@[i as int]);
                    }
                    return Some(profile);
                }
                j += 1;
            }
            assert(ps.take(m as int) =~= ps);
        }
        None
    }

    /// Every profile of every file, from the lowest priority to the highest.
    /// Profiles of the same name in several files are all listed.
    pub fn list(&self) -> (r: Vec<&AwsProfile>)
        ensures
            profile_views(r@) == all_profiles(self@),
    {
        let n = self.files.len();
        let mut result: Vec<&AwsProfile> = Vec::with_capacity(n);
        let mut i: usize = 0;
        assert(self@.take(0) =~= Seq::<FileView>::empty());
        assert(profile_views(result@) =~= Seq::<ProfileView>::empty());
        while i < n
            invariant
                i <= n,
                n == self@.len(),
                profile_views(result@) == all_profiles(self@.take(i as int)),
            decreases n - i,
        {
            let file = self.files.get(i).unwrap();
            let profiles = file.values();
            let m = profiles.len();
            let ghost start = result@;
            let mut j: usize = 0;
            while j < m
                invariant
                    j <= m,
                    m == profiles@.len(),
                    result@ == start + profiles@.take(j as int),
                decreases m - j,
            {
                result.push(profiles[j]);
                assert(profiles@.take(j + 1) =~= profiles@.take(j as int).push(profiles@[j as int]));
                j += 1;
            }
            proof {
                assert(profiles@.take(m as int) =~= profiles@);
                assert(self@.take(i + 1).drop_last() =~= self@.take(i as int));
                assert(self@.take(i + 1).last() == file@);
                assert(profile_views(profiles@) =~= profiles_of(file@));
                assert(profile_views(start + profiles@) =~= profile_views(start) + profile_views(
                    profiles@,
                ));
            }
            i += 1;
        }
        assert(self@.take(n as int) =~= self@);
        result
    }
}

impl AwsProfileLookup {
    /// One profile for each name: where several files have a profile of
    /// the same name, the one from the file of the highest priority, listed
    /// where the name first occurs.
    pub fn list_aliased(&self) -> (r: Vec<&AwsProfile>)
        ensures
            profile_views(r@) == all_aliased(self@),
    {
        let all = self.list();
        let n = all.len();
        let mut storage = aliases_with_capacity(self.files.len());
        let mut k: usize = 0;
        assert(profile_views(all@.take(0)) =~= Seq::<ProfileView>::empty());
        assert(views_of(alias_entries(storage)) =~= aliased(profile_views(all@.take(0))));
        while k < n
            invariant
                k <= n,
                n == all@.len(),
                views_of(alias_entries(storage)) == aliased(profile_views(all@.take(k as int))),
            decreases n - k,
        {
            let profile = all[k];
            proof {
                lemma_views_upsert(alias_entries(storage), profile.name@, *profile);
                assert(profile_views(all@.take(k + 1)).drop_last() =~= profile_views(
                    all@.take(k as int),
                ));
                assert(profile_views(all@.take(k + 1)).last() == profile@);
            }
            aliases_insert(&mut storage, &profile.name, profile);
            k += 1;
        }
        assert(all@.take(n as int) =~= all@);
        let r = aliases_values(&storage);
        assert(profile_views(r@) =~= all_aliased(self@));
        r
    }
}

/// Whether a profile of `ps` has the name `name`.
pub open spec fn has_name(ps: Seq<ProfileView>, name: Seq<char>) -> bool {
    exists|i: int| 0 <= i < ps.len() && (#[trigger] ps[i]).name == name
}

/// Whether the names of `ps` are pairwise distinct.
pub open spec fn names_distinct(ps: Seq<ProfileView>) -> bool {
    forall|i: int, j: int|
        0 <= i < ps.len() && 0 <= j < ps.len() && i != j ==> (#[trigger] ps[i]).name != (
        #[trigger] ps[j]).name
}

/// The merged profiles have exactly the names of the profiles merged.
pub proof fn lemma_aliased_names(ps: Seq<ProfileView>, name: Seq<char>)
    ensures
        position(aliased(ps), name) >= 0 <==> has_name(ps, name),
    decreases ps.len(),
{
    if ps.len() > 0 {
        let front = ps.drop_last();
        let last = ps.last();
        let merged = aliased(front);
        lemma_aliased_names(front, name);
        lemma_position(merged, last.name);
        if position(merged, last.name) >= 0 {
            lemma_position_by_keys(aliased(ps), merged, name);
        } else {
            assert(aliased(ps).drop_last() =~= merged);
        }
        if has_name(ps, name) {
            let i = choose|i: int| 0 <= i < ps.len() && (#[trigger] ps[i]).name == name;
            if i < front.len() {
                assert(front[i].name == name);
            } else {
                lemma_aliased_names(front, last.name);
            }
        }
        if has_name(front, name) {
            let i = choose|i: int| 0 <= i < front.len() && (#[trigger] front[i]).name == name;
            assert(ps[i].name == name);
        }
        if last.name == name {
            assert(ps[ps.len() - 1].name == name);
        }
    }
}

/// Merging by name never yields more profiles than it was given, and yields
/// as many exactly where the names are pairwise distinct.
pub proof fn lemma_aliased_len(ps: Seq<ProfileView>)
    ensures
        aliased(ps).len() <= ps.len(),
        aliased(ps).len() == ps.len() <==> names_distinct(ps),
    decreases ps.len(),
{
    if ps.len() > 0 {
        let front = ps.drop_last();
        let last = ps.last();
        lemma_aliased_len(front);
        lemma_aliased_names(front, last.name);
        lemma_position(aliased(front), last.name);
        if names_distinct(ps) {
            assert forall|i: int, j: int|
                0 <= i < front.len() && 0 <= j < front.len() && i != j implies (
            #[trigger] front[i]).name != (#[trigger] front[j]).name by {
                assert(ps[i].name != ps[j].name);
            }
            if has_name(front, last.name) {
                let i = choose|i: int|
                    0 <= i < front.len() && (#[trigger] front[i]).name == last.name;
                assert(ps[i].name == ps[ps.len() - 1].name);
            }
        }
        if names_distinct(front) && !has_name(front, last.name) {
            assert forall|i: int, j: int|
                0 <= i < ps.len() && 0 <= j < ps.len() && i != j implies (#[trigger] ps[i]).name
                != (#[trigger] ps[j]).name by {
                if i < front.len() && j < front.len() {
                    assert(front[i].name != front[j].name);
                } else if i < front.len() {
                    assert(front[i].name != last.name);
                } else {
                    assert(front[j].name != last.name);
                }
            }
        }
    }
}

/// The listing by name is never longer than the full listing, and as long
/// exactly where the names of all profiles of all files are pairwise
/// distinct.
pub proof fn lemma_list_aliased_len(files: Seq<FileView>)
    ensures
        all_aliased(files).len() <= all_profiles(files).len(),
        all_aliased(files).len() == all_profiles(files).len() <==> names_distinct(
            all_profiles(files),
        ),
{
    lemma_aliased_len(all_profiles(files));
}

/// A query is answered by the last file that has an answer, and is left
/// unanswered only where no file has one.
pub proof fn lemma_resolve(files: Seq<FileView>, q: Query, home: Option<Seq<char>>)
    ensures
        match resolve(files, q, home) {
            Some(p) => exists|i: int|
                0 <= i < files.len() && answer(#[trigger] files[i], q, home) == Some(p) && forall|
                    j: int,
                |
                    i < j < files.len() ==> answer(#[trigger] files[j], q, home) is None,
            None => forall|i: int|
                0 <= i < files.len() ==> answer(#[trigger] files[i], q, home) is None,
        },
    decreases files.len(),
{
    if files.len() > 0 {
        let front = files.drop_last();
        lemma_resolve(front, q, home);
        match answer(files.last(), q, home) {
            Some(p) => {
                assert(answer(files[files.len() - 1], q, home) == Some(p));
            },
            None => {
                match resolve(front, q, home) {
                    Some(p) => {
                        let i = choose|i: int|
                            0 <= i < front.len() && answer(#[trigger] front[i], q, home) == Some(p)
                                && forall|j: int|
                                i < j < front.len() ==> answer(#[trigger] front[j], q, home)
                                    is None;
                        assert(answer(files[i], q, home) == Some(p));
                        assert forall|j: int| i < j < files.len() implies answer(
                            #[trigger] files[j],
                            q,
                            home,
                        ) is None by {
                            if j < front.len() {
                                assert(answer(front[j], q, home) is None);
                            }
                        }
                    },
                    None => {
                        assert forall|i: int| 0 <= i < files.len() implies answer(
                            #[trigger] files[i],
                            q,
                            home,
                        ) is None by {
                            if i < front.len() {
                                assert(answer(front[i], q, home) is None);
                            }
                        }
                    },
                }
            },
        }
    }
}

/// A lookup filled with files F1 < F2 < ... < Fn holds them in that order,
/// and answers a query for a name with the profile of the highest-indexed
/// file that defines the name, or with none where no file defines it.
pub proof fn lemma_by_name_of_ascending(
    files: Seq<FileView>,
    name: Seq<char>,
    home: Option<Seq<char>>,
)
    requires
        strictly_ascending(files, home),
    ensures
        spec_insert_all(Seq::empty(), files, home) == files,
        match resolve(spec_insert_all(Seq::empty(), files, home), Query::Name(name), home) {
            Some(p) => exists|i: int|
                0 <= i < files.len() && (#[trigger] files[i]).find(name) == Some(p) && forall|
                    j: int,
                |
                    i < j < files.len() ==> (#[trigger] files[j]).find(name) is None,
            None => forall|i: int| 0 <= i < files.len() ==> (#[trigger] files[i]).find(name) is None,
        },
{
    let q = Query::Name(name);
    lemma_populate_ascending(files, home);
    lemma_resolve(files, q, home);
    match resolve(files, q, home) {
        Some(p) => {
            let i = choose|i: int|
                0 <= i < files.len() && answer(#[trigger] files[i], q, home) == Some(p) && forall|
                    j: int,
                |
                    i < j < files.len() ==> answer(#[trigger] files[j], q, home) is None;
            assert(files[i].find(name) == Some(p));
            assert forall|j: int| i < j < files.len() implies (#[trigger] files[j]).find(name)
                is None by {
                assert(answer(files[j], q, home) is None);
            }
        },
        None => {
            assert forall|i: int| 0 <= i < files.len() implies (#[trigger] files[i]).find(name)
                is None by {
                assert(answer(files[i], q, home) is None);
            }
        },
    }
}

/// A match among the first `n` profiles is a match among all of them.
pub proof fn lemma_first_with_uri_extends(
    ps: Seq<(Seq<char>, ProfileView)>,
    uri: Seq<char>,
    home: Option<Seq<char>>,
    n: int,
)
    requires
        0 <= n <= ps.len(),
        first_with_uri(ps.take(n), uri, home) is Some,
    ensures
        first_with_uri(ps, uri, home) == first_with_uri(ps.take(n), uri, home),
    decreases ps.len() - n,
{
    if n < ps.len() {
        assert(ps.take(n + 1).drop_last() =~= ps.take(n));
        lemma_first_with_uri_extends(ps, uri, home, n + 1);
    } else {
        assert(ps.take(n) =~= ps);
    }
}

} // verus!
