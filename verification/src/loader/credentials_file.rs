//! One loaded credentials file: its source and the profiles read from it.

use crate::loader::profile::{AwsProfile, ProfileView};
use crate::loader::rank::{spec_rank, Rank};
use crate::ini::{
    fits, gather, ini_items, lemma_gather_push, parse, sections_of, Ini, IniView, ItemView, SectionView,
};
use crate::loader::{
    is_root_path, prefix_of, shown_path, Error, ErrorView, FileSource, SourceView,
};
use crate::ordered::{
    ini_entries, ini_sections, lemma_position, lemma_upsert, position, profile_entries, profiles_get,
    profiles_insert, profiles_keys, profiles_len, profiles_values, profiles_with_capacity, section_entries,
    section_get, upsert,
};
use crate::secret::{expose, seal};
use crate::text::joined;
use crate::path::{same_path, spec_same_path, text_of};
use indexmap::IndexMap;
use vstd::prelude::*;
use vstd::std_specs::cmp::PartialEqSpecImpl;

verus! {

/// A credentials file with its profiles, in the order of the file's text.
pub struct AwsCredentialsFile {
    /// The profiles of the file by name.
    pub profiles: IndexMap<String, AwsProfile>,
    /// The file that the profiles were read from.
    pub file: FileSource,
}

/// What an `AwsCredentialsFile` is, mathematically: its source, and its
/// profiles under their keys in the order of insertion.
pub struct FileView {
    pub file: SourceView,
    pub profiles: Seq<(Seq<char>, ProfileView)>,
}

/// The views of a sequence of keyed profiles.
pub open spec fn views_of(es: Seq<(Seq<char>, AwsProfile)>) -> Seq<(Seq<char>, ProfileView)> {
    Seq::new(es.len(), |i: int| (es[i].0, es[i].1@))
}

impl View for AwsCredentialsFile {
    type V = FileView;

    open spec fn view(&self) -> FileView {
        FileView { file: self.file@, profiles: views_of(profile_entries(self.profiles)) }
    }
}

impl FileView {
    /// The profile stored under `name`, if there is one.
    pub open spec fn find(self, name: Seq<char>) -> Option<ProfileView> {
        if position(self.profiles, name) >= 0 {
            Some(self.profiles[position(self.profiles, name)].1)
        } else {
            None
        }
    }

    /// Whether this is the canonical credentials file under `home`.
    pub open spec fn is_root(self, home: Option<Seq<char>>) -> bool {
        is_root_path(self.file.path, home)
    }

    /// The namespace prefix of the file under `home`.
    pub open spec fn prefix(self, home: Option<Seq<char>>) -> Option<Seq<char>> {
        prefix_of(self.file.path, home)
    }
}

/// The position of a key does not depend on the values.
pub proof fn lemma_views_position(es: Seq<(Seq<char>, AwsProfile)>, key: Seq<char>)
    ensures
        position(views_of(es), key) == position(es, key),
    decreases es.len(),
{
    if es.len() > 0 {
        lemma_views_position(es.drop_last(), key);
        assert(views_of(es).drop_last() =~= views_of(es.drop_last()));
    }
}

/// Inserting a profile and then taking views is inserting its view.
pub proof fn lemma_views_upsert(es: Seq<(Seq<char>, AwsProfile)>, key: Seq<char>, p: AwsProfile)
    ensures
        views_of(upsert(es, key, p)) == upsert(views_of(es), key, p@),
{
    lemma_views_position(es, key);
    lemma_position(es, key);
    assert(views_of(upsert(es, key, p)) =~= upsert(views_of(es), key, p@));
}

impl PartialEq for AwsCredentialsFile {
    /// Two files are equal where they have the same path and both are
    /// encrypted.
    fn eq(&self, other: &Self) -> (r: bool) {
        same_path(self.file.path.as_str(), other.file.path.as_str()) && self.file.encrypted
            && other.file.encrypted
    }
}

impl PartialEqSpecImpl for AwsCredentialsFile {
    open spec fn obeys_eq_spec() -> bool {
        true
    }

    open spec fn eq_spec(&self, other: &Self) -> bool {
        spec_same_path(self.file.path@, other.file.path@) && self.file.encrypted
            && other.file.encrypted
    }
}

impl Eq for AwsCredentialsFile {

}

impl AwsCredentialsFile {
    /// Puts `profile` into the file under its name. A profile of that name
    /// keeps its place and is replaced; a new name comes last.
    pub fn push(&mut self, profile: AwsProfile)
        ensures
            final(self)@.file == old(self)@.file,
            final(self)@.profiles == upsert(old(self)@.profiles, profile@.name, profile@),
            final(self)@.find(profile@.name) == Some(profile@),
    {
        proof {
            lemma_views_upsert(profile_entries(self.profiles), profile.name@, profile);
            lemma_upsert(self@.profiles, profile@.name, profile@, profile@.name);
        }
        let key = profile.name.clone();
        profiles_insert(&mut self.profiles, key, profile);
    }

    /// The profile stored under `name`.
    pub fn get(&self, name: &str) -> (r: Option<&AwsProfile>)
        ensures
            match r {
                Some(p) => self@.find(name@) == Some(p@),
                None => self@.find(name@) is None,
            },
    {
        proof {
            lemma_views_position(profile_entries(self.profiles), name@);
            lemma_position(profile_entries(self.profiles), name@);
        }
        profiles_get(&self.profiles, name)
    }

    /// The profiles of the file, in order.
    pub fn values(&self) -> (r: Vec<&AwsProfile>)
        ensures
            r@.len() == self@.profiles.len(),
            forall|i: int| 0 <= i < r@.len() ==> (#[trigger] r@[i])@ == self@.profiles[i].1,
    {
        profiles_values(&self.profiles)
    }

    /// The namespace prefix of the file under `home`.
    pub fn prefix_in(&self, home: &Option<String>) -> (r: Option<String>)
        ensures
            text_of(r) == self@.prefix(text_of(*home)),
    {
        self.file.prefix_in(home)
    }

    /// The namespace prefix of the file for the current user.
    pub fn prefix(&self) -> (r: Option<String>)
        ensures
            exists|home: Option<Seq<char>>| text_of(r) == #[trigger] self@.prefix(home),
    {
        let home = crate::utils::homedir();
        let r = self.prefix_in(&home);
        assert(text_of(r) == self@.prefix(text_of(home)));
        r
    }

    /// Whether this is the canonical credentials file under `home`.
    pub fn is_root_in(&self, home: &Option<String>) -> (r: bool)
        ensures
            r == self@.is_root(text_of(*home)),
    {
        self.file.is_root_in(home)
    }

    /// Whether this is the canonical credentials file of the current user.
    pub fn is_root(&self) -> (r: bool)
        ensures
            exists|home: Option<Seq<char>>| r == #[trigger] self@.is_root(home),
    {
        let home = crate::utils::homedir();
        let r = self.is_root_in(&home);
        assert(r == self@.is_root(text_of(home)));
        r
    }

    /// How this file ranks against `other` under `home`.
    pub fn rank(&self, other: &AwsCredentialsFile, home: &Option<String>) -> (r: Rank)
        ensures
            r == spec_rank(self@.file, other@.file, text_of(*home)),
    {
        self.file.rank(&other.file, home)
    }
}

/// The keys of a sequence of entries.
pub open spec fn keys_of(es: Seq<(Seq<char>, ProfileView)>) -> Seq<Seq<char>> {
    Seq::new(es.len(), |i: int| es[i].0)
}

/// How a truth value is written.
pub open spec fn bool_text(b: bool) -> Seq<char> {
    if b {
        "true"@
    } else {
        "false"@
    }
}

/// How a file is described: by the names of its profiles, whether it is
/// encrypted, and its path.
pub open spec fn spec_describe_file(f: FileView, home: Option<Seq<char>>) -> Seq<char> {
    "AWSCredentialsFile{profiles="@ + joined(keys_of(f.profiles), ", "@) + ", encrypted="@
        + bool_text(f.file.encrypted) + ", file="@ + shown_path(f.file.path, home) + "}"@
}

impl AwsCredentialsFile {
    /// The names under which the file holds its profiles, in order.
    pub fn keys(&self) -> (r: Vec<&String>)
        ensures
            r@.len() == self@.profiles.len(),
            forall|i: int| 0 <= i < r@.len() ==> (#[trigger] r@[i])@ == self@.profiles[i].0,
    {
        profiles_keys(&self.profiles)
    }

    /// A description of the file for logs and messages, with the path shown
    /// under `home`.
    pub fn describe_in(&self, home: &Option<String>) -> (r: String)
        ensures
            r@ == spec_describe_file(self@, text_of(*home)),
    {
        let keys = self.keys();
        let n = keys.len();
        let ghost names = keys_of(self@.profiles);
        let mut list = String::new();
        let mut i: usize = 0;
        assert(names.take(0) =~= Seq::<Seq<char>>::empty());
        while i < n
            invariant
                i <= n,
                n == keys@.len(),
                n == names.len(),
                forall|k: int| 0 <= k < n ==> (#[trigger] keys@[k])@ == names[k],
                list@ == joined(names.take(i as int), ", "@),
            decreases n - i,
        {
            proof {
                assert(names.take(i + 1).drop_last() =~= names.take(i as int));
                assert(names.take(i + 1).last() == names[i as int]);
            }
            if i > 0 {
                list.append(", ");
            } else {
                assert(list@ + keys@[0]@ =~= names[0]);
            }
            list.append(keys[i].as_str());
            i += 1;
        }
        assert(names.take(n as int) =~= names);
        let mut r = "AWSCredentialsFile{profiles=".to_owned();
        r.append(list.as_str());
        r.append(", encrypted=");
        if self.file.encrypted {
            r.append("true");
        } else {
            r.append("false");
        }
        r.append(", file=");
        let shown = self.file.shown_in(home);
        r.append(shown.as_str());
        r.append("}");
        assert(r@ =~= spec_describe_file(self@, text_of(*home)));
        r
    }

    /// A description of the file for the current user.
    pub fn describe(&self) -> (r: String)
        ensures
            exists|home: Option<Seq<char>>| r@ == #[trigger] spec_describe_file(self@, home),
    {
        let home = crate::utils::homedir();
        let r = self.describe_in(&home);
        assert(r@ == spec_describe_file(self@, text_of(home)));
        r
    }
}

/// The key of the access key id in a section.
pub const INI_ACCESS_KEY_ID_TAG: &'static str = "aws_access_key_id";

/// The key of the secret access key in a section.
pub const INI_SECRET_ACCESS_KEY_TAG: &'static str = "aws_secret_access_key";

/// The key of the session token in a section.
pub const INI_SESSION_TOKEN_TAG: &'static str = "aws_session_token";

/// The value under `key` in a section; none where the key is absent or has
/// no value.
pub open spec fn value_in(section: SectionView, key: Seq<char>) -> Option<Seq<char>> {
    if position(section, key) >= 0 {
        section[position(section, key)].1
    } else {
        None
    }
}

/// The profile that a section makes: one where the section has values for
/// both the access key id and the secret access key, with the session token
/// where the section has a value for it.
pub open spec fn profile_of(name: Seq<char>, section: SectionView, source: SourceView) -> Option<
    ProfileView,
> {
    match (
        value_in(section, INI_ACCESS_KEY_ID_TAG@),
        value_in(section, INI_SECRET_ACCESS_KEY_TAG@),
    ) {
        (Some(id), Some(secret)) => Some(
            ProfileView {
                name,
                access_key_id: id,
                secret_access_key: secret,
                session_token: value_in(section, INI_SESSION_TOKEN_TAG@),
                file: source,
            },
        ),
        _ => None,
    }
}

/// The profiles that sections make, under the names of their sections and
/// in the order of the sections. A section that makes no profile is passed
/// over.
pub open spec fn profiles_in(sections: IniView, source: SourceView) -> Seq<
    (Seq<char>, ProfileView),
>
    decreases sections.len(),
{
    if sections.len() == 0 {
        Seq::empty()
    } else {
        match profile_of(sections.last().0, sections.last().1, source) {
            Some(p) => upsert(profiles_in(sections.drop_last(), source), sections.last().0, p),
            None => profiles_in(sections.drop_last(), source),
        }
    }
}

/// What reading a text for the file `source` gives: the profiles that its
/// sections make; the failure that it has none; or, before either, the
/// failure that the text has too many lines to be parsed.
pub open spec fn spec_read_profiles(text: Seq<char>, source: SourceView) -> Result<
    Seq<(Seq<char>, ProfileView)>,
    ErrorView,
> {
    if !fits(text) {
        Err(ErrorView::TooManyLines { path: source.path, encrypted: source.encrypted })
    } else if profiles_in(sections_of(ini_items(text)), source).len() > 0 {
        Ok(profiles_in(sections_of(ini_items(text)), source))
    } else {
        Err(ErrorView::NoProfiles { path: source.path, encrypted: source.encrypted })
    }
}

/// What loading a text for `source` gives: the file with the profiles
/// read, or the failure to read any.
pub open spec fn spec_load(text: Seq<char>, source: SourceView) -> Result<FileView, ErrorView> {
    match spec_read_profiles(text, source) {
        Ok(profiles) => Ok(FileView { file: source, profiles }),
        Err(e) => Err(e),
    }
}

/// The three keys are three different texts.
pub proof fn lemma_tags_differ()
    ensures
        INI_ACCESS_KEY_ID_TAG@ != INI_SECRET_ACCESS_KEY_TAG@,
        INI_ACCESS_KEY_ID_TAG@ != INI_SESSION_TOKEN_TAG@,
        INI_SECRET_ACCESS_KEY_TAG@ != INI_SESSION_TOKEN_TAG@,
{
    reveal_strlit("aws_access_key_id");
    reveal_strlit("aws_secret_access_key");
    reveal_strlit("aws_session_token");
    assert(INI_ACCESS_KEY_ID_TAG@.len() == 17);
    assert(INI_SECRET_ACCESS_KEY_TAG@.len() == 21);
    assert(INI_ACCESS_KEY_ID_TAG@[4] == 'a');
    assert(INI_SESSION_TOKEN_TAG@[4] == 's');
}

/// A section with an access key id and a secret access key makes exactly
/// one profile, with these two and without a session token.
pub proof fn lemma_section_with_both_keys(
    name: Seq<char>,
    id: Seq<char>,
    secret: Seq<char>,
    source: SourceView,
)
    ensures
        profiles_in(
            sections_of(
                seq![
                    ItemView::Section(name),
                    ItemView::Property(INI_ACCESS_KEY_ID_TAG@, id),
                    ItemView::Property(INI_SECRET_ACCESS_KEY_TAG@, secret),
                ],
            ),
            source,
        ) == seq![
            (
                name,
                ProfileView {
                    name,
                    access_key_id: id,
                    secret_access_key: secret,
                    session_token: None,
                    file: source,
                },
            ),
        ],
{
    lemma_tags_differ();
    reveal_with_fuel(position, 4);
    let items = seq![
        ItemView::Section(name),
        ItemView::Property(INI_ACCESS_KEY_ID_TAG@, id),
        ItemView::Property(INI_SECRET_ACCESS_KEY_TAG@, secret),
    ];
    let section = seq![
        (INI_ACCESS_KEY_ID_TAG@, Some(id)),
        (INI_SECRET_ACCESS_KEY_TAG@, Some(secret)),
    ];
    lemma_gather_push(Seq::empty(), items[0]);
    lemma_gather_push(seq![items[0]], items[1]);
    lemma_gather_push(seq![items[0], items[1]], items[2]);
    assert(Seq::<ItemView>::empty().push(items[0]) =~= seq![items[0]]);
    assert(seq![items[0]].push(items[1]) =~= seq![items[0], items[1]]);
    assert(seq![items[0], items[1]].push(items[2]) =~= items);
    let s1 = gather(seq![items[0]]).sections;
    assert(s1 =~~= seq![(name, Seq::<(Seq<char>, Option<Seq<char>>)>::empty())]);
    let s2 = gather(seq![items[0], items[1]]).sections;
    assert(s2 =~~= seq![(name, seq![(INI_ACCESS_KEY_ID_TAG@, Some(id))])]);
    assert(sections_of(items) =~~= seq![(name, section)]);
    assert(seq![(name, section)].drop_last() =~= Seq::<(Seq<char>, SectionView)>::empty());
    assert(value_in(section, INI_SESSION_TOKEN_TAG@) is None);
    assert(profiles_in(Seq::<(Seq<char>, SectionView)>::empty(), source) =~= Seq::empty());
}

/// With a session token besides, the section makes the same profile with
/// the token in it.
pub proof fn lemma_section_with_token(
    name: Seq<char>,
    id: Seq<char>,
    secret: Seq<char>,
    token: Seq<char>,
    source: SourceView,
)
    ensures
        profiles_in(
            sections_of(
                seq![
                    ItemView::Section(name),
                    ItemView::Property(INI_ACCESS_KEY_ID_TAG@, id),
                    ItemView::Property(INI_SECRET_ACCESS_KEY_TAG@, secret),
                    ItemView::Property(INI_SESSION_TOKEN_TAG@, token),
                ],
            ),
            source,
        ) == seq![
            (
                name,
                ProfileView {
                    name,
                    access_key_id: id,
                    secret_access_key: secret,
                    session_token: Some(token),
                    file: source,
                },
            ),
        ],
{
    lemma_tags_differ();
    reveal_with_fuel(position, 5);
    let items = seq![
        ItemView::Section(name),
        ItemView::Property(INI_ACCESS_KEY_ID_TAG@, id),
        ItemView::Property(INI_SECRET_ACCESS_KEY_TAG@, secret),
        ItemView::Property(INI_SESSION_TOKEN_TAG@, token),
    ];
    let section = seq![
        (INI_ACCESS_KEY_ID_TAG@, Some(id)),
        (INI_SECRET_ACCESS_KEY_TAG@, Some(secret)),
        (INI_SESSION_TOKEN_TAG@, Some(token)),
    ];
    lemma_gather_push(Seq::empty(), items[0]);
    lemma_gather_push(seq![items[0]], items[1]);
    lemma_gather_push(seq![items[0], items[1]], items[2]);
    lemma_gather_push(seq![items[0], items[1], items[2]], items[3]);
    assert(Seq::<ItemView>::empty().push(items[0]) =~= seq![items[0]]);
    assert(seq![items[0]].push(items[1]) =~= seq![items[0], items[1]]);
    assert(seq![items[0], items[1]].push(items[2]) =~= seq![items[0], items[1], items[2]]);
    assert(seq![items[0], items[1], items[2]].push(items[3]) =~= items);
    let s1 = gather(seq![items[0]]).sections;
    assert(s1 =~~= seq![(name, Seq::<(Seq<char>, Option<Seq<char>>)>::empty())]);
    let s2 = gather(seq![items[0], items[1]]).sections;
    assert(s2 =~~= seq![(name, seq![(INI_ACCESS_KEY_ID_TAG@, Some(id))])]);
    let s3 = gather(seq![items[0], items[1], items[2]]).sections;
    assert(s3 =~~= seq![
        (
            name,
            seq![(INI_ACCESS_KEY_ID_TAG@, Some(id)), (INI_SECRET_ACCESS_KEY_TAG@, Some(secret))],
        ),
    ]);
    assert(sections_of(items) =~~= seq![(name, section)]);
    assert(seq![(name, section)].drop_last() =~= Seq::<(Seq<char>, SectionView)>::empty());
    assert(profiles_in(Seq::<(Seq<char>, SectionView)>::empty(), source) =~= Seq::empty());
}

/// A section with an access key id and no secret access key makes no
/// profile.
pub proof fn lemma_section_without_secret(name: Seq<char>, id: Seq<char>, source: SourceView)
    ensures
        profiles_in(
            sections_of(
                seq![ItemView::Section(name), ItemView::Property(INI_ACCESS_KEY_ID_TAG@, id)],
            ),
            source,
        ) == Seq::<(Seq<char>, ProfileView)>::empty(),
{
    lemma_tags_differ();
    reveal_with_fuel(position, 3);
    let items = seq![ItemView::Section(name), ItemView::Property(INI_ACCESS_KEY_ID_TAG@, id)];
    let section = seq![(INI_ACCESS_KEY_ID_TAG@, Some(id))];
    lemma_gather_push(Seq::empty(), items[0]);
    lemma_gather_push(seq![items[0]], items[1]);
    assert(Seq::<ItemView>::empty().push(items[0]) =~= seq![items[0]]);
    assert(seq![items[0]].push(items[1]) =~= items);
    let s1 = gather(seq![items[0]]).sections;
    assert(s1 =~~= seq![(name, Seq::<(Seq<char>, Option<Seq<char>>)>::empty())]);
    assert(sections_of(items) =~~= seq![(name, section)]);
    assert(seq![(name, section)].drop_last() =~= Seq::<(Seq<char>, SectionView)>::empty());
    assert(value_in(section, INI_SECRET_ACCESS_KEY_TAG@) is None);
    assert(profiles_in(Seq::<(Seq<char>, SectionView)>::empty(), source) =~= Seq::empty());
}

/// Whatever else a section holds, it makes a profile exactly where it has
/// values for both required keys.
pub proof fn lemma_profile_needs_both_keys(name: Seq<char>, section: SectionView, source: SourceView)
    ensures
        profile_of(name, section, source) is Some <==> value_in(section, INI_ACCESS_KEY_ID_TAG@)
            is Some && value_in(section, INI_SECRET_ACCESS_KEY_TAG@) is Some,
{
}

/// What a run of the decryption helper left behind.
pub struct Decryption {
    /// The exit code, if the helper exited by itself.
    pub code: Option<i32>,
    /// What the helper wrote to standard output, if it could be read as text.
    pub stdout: Option<String>,
    /// What the helper wrote to standard error, if anything could be read.
    pub stderr: Option<String>,
}

/// What a `Decryption` is, mathematically.
pub struct DecryptionView {
    pub code: Option<i32>,
    pub stdout: Option<Seq<char>>,
    pub stderr: Option<Seq<char>>,
}

impl View for Decryption {
    type V = DecryptionView;

    open spec fn view(&self) -> DecryptionView {
        DecryptionView {
            code: self.code,
            stdout: text_of(self.stdout),
            stderr: text_of(self.stderr),
        }
    }
}

/// What loading an encrypted file gives, from what the decryption helper
/// left behind: the helper's failure unless it exited with code zero, then
/// the failure to read its output, then what the decrypted text gives.
pub open spec fn spec_load_encrypted(path: Seq<char>, d: DecryptionView) -> Result<
    FileView,
    ErrorView,
> {
    if d.code != Some(0i32) {
        Err(ErrorView::Decrypt { path, code: d.code, stderr: d.stderr })
    } else {
        match d.stdout {
            Some(text) => spec_load(text, SourceView { path, encrypted: true }),
            None => Err(ErrorView::UnreadableOutput { path }),
        }
    }
}

/// The view of the result of a load.
pub open spec fn load_view(r: Result<AwsCredentialsFile, Error>) -> Result<FileView, ErrorView> {
    match r {
        Ok(f) => Ok(f@),
        Err(e) => Err(e@),
    }
}

impl AwsCredentialsFile {
    /// The profiles of a parsed text, for the file `file`. Fails where no
    /// section makes a profile.
    pub fn collect_profiles(config: &Ini, file: &FileSource) -> (r: Result<
        IndexMap<String, AwsProfile>,
        Error,
    >)
        ensures
            match r {
                Ok(ps) => profiles_in(ini_entries(*config), file@).len() > 0 && views_of(
                    profile_entries(ps),
                ) == profiles_in(ini_entries(*config), file@),
                Err(e) => profiles_in(ini_entries(*config), file@).len() == 0 && e@
                    == (ErrorView::NoProfiles { path: file@.path, encrypted: file@.encrypted }),
            },
    {
        let sections = ini_sections(config);
        let n = sections.len();
        let ghost all = ini_entries(*config);
        let mut profiles = profiles_with_capacity(n);
        let mut i: usize = 0;
        assert(all.take(0) =~= Seq::<(Seq<char>, SectionView)>::empty());
        assert(views_of(profile_entries(profiles)) =~= profiles_in(all.take(0), file@));
        while i < n
            invariant
                i <= n,
                n == sections@.len(),
                n == all.len(),
                forall|k: int|
                    0 <= k < n ==> (#[trigger] sections@[k]).0@ == all[k].0 && section_entries(
                        *sections@[k].1,
                    ) == all[k].1,
                views_of(profile_entries(profiles)) == profiles_in(all.take(i as int), file@),
            decreases n - i,
        {
            let name = sections[i].0;
            let section = sections[i].1;
            proof {
                assert(all.take(i + 1).drop_last() =~= all.take(i as int));
                assert(all.take(i + 1).last() == all[i as int]);
                assert(sections@[i as int].0@ == all[i as int].0);
                lemma_position(all[i as int].1, INI_ACCESS_KEY_ID_TAG@);
                lemma_position(all[i as int].1, INI_SECRET_ACCESS_KEY_TAG@);
                lemma_position(all[i as int].1, INI_SESSION_TOKEN_TAG@);
            }
            let id = section_get(section, INI_ACCESS_KEY_ID_TAG);
            let secret = section_get(section, INI_SECRET_ACCESS_KEY_TAG);
            if let Some(Some(id)) = id {
                if let Some(Some(secret)) = secret {
                    let token = match section_get(section, INI_SESSION_TOKEN_TAG) {
                        Some(Some(t)) => Some(t.to_owned()),
                        _ => None,
                    };
                    let profile = AwsProfile::new(
                        name.to_owned(),
                        id.to_owned(),
                        secret.to_owned(),
                        token,
                        file.duplicate(),
                    );
                    proof {
                        lemma_views_upsert(profile_entries(profiles), name@, profile);
                    }
                    profiles_insert(&mut profiles, name.to_owned(), profile);
                }
            }
            i += 1;
        }
        assert(all.take(n as int) =~= all);
        if profiles_len(&profiles) > 0 {
            Ok(profiles)
        } else {
            Err(Error::NoProfiles { path: file.path.clone(), encrypted: file.encrypted })
        }
    }

    /// The profiles of the text `data`, for the file `file`. The text is put
    /// under erasure on entry and erased on return; the profiles hold
    /// copies of what they need from it. Fails where the text has too many
    /// lines to be parsed, and where no section makes a profile.
    pub fn read_profiles(data: String, file: &FileSource) -> (r: Result<
        IndexMap<String, AwsProfile>,
        Error,
    >)
        ensures
            match r {
                Ok(ps) => spec_read_profiles(data@, file@) == Ok::<_, ErrorView>(
                    views_of(profile_entries(ps)),
                ),
                Err(e) => spec_read_profiles(data@, file@) == Err::<
                    Seq<(Seq<char>, ProfileView)>,
                    _,
                >(e@),
            },
    {
        // erased when it is dropped
        let data = seal(data);
        // owns nothing but the containers: the texts are slices of `data`
        match parse(expose(&data)) {
            Some(config) => AwsCredentialsFile::collect_profiles(&config, file),
            None => Err(Error::TooManyLines { path: file.path.clone(), encrypted: file.encrypted }),
        }
    }

    /// The plain file at path `p`, from its contents.
    pub fn load(p: &str, contents: String) -> (r: Result<Self, Error>)
        ensures
            load_view(r) == spec_load(contents@, SourceView { path: p@, encrypted: false }),
    {
        let file = FileSource { path: p.to_owned(), encrypted: false };
        match AwsCredentialsFile::read_profiles(contents, &file) {
            Ok(profiles) => Ok(AwsCredentialsFile { profiles, file }),
            Err(e) => Err(e),
        }
    }

    /// The encrypted file at path `p`, from what the decryption helper left
    /// behind.
    pub fn load_encrypted(p: &str, decryption: Decryption) -> (r: Result<Self, Error>)
        ensures
            load_view(r) == spec_load_encrypted(p@, decryption@),
    {
        let Decryption { code, stdout, stderr } = decryption;
        let success = match code {
            Some(c) => c == 0,
            None => false,
        };
        if !success {
            // whatever the helper wrote before it failed is erased
            let _partial = match stdout {
                Some(text) => Some(seal(text)),
                None => None,
            };
            return Err(Error::Decrypt { path: p.to_owned(), code, stderr });
        }
        match stdout {
            Some(text) => {
                let file = FileSource { path: p.to_owned(), encrypted: true };
                match AwsCredentialsFile::read_profiles(text, &file) {
                    Ok(profiles) => Ok(AwsCredentialsFile { profiles, file }),
                    Err(e) => Err(e),
                }
            },
            None => Err(Error::UnreadableOutput { path: p.to_owned() }),
        }
    }
}

} // verus!
