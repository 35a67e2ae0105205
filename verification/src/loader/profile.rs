//! One named set of credentials.

use crate::loader::{prefix_of, shown_path, FileSource, SourceView};
use crate::path::text_of;
use crate::secret::{expose, seal, secret_text, secret_text_of, Secret};
use crate::utils::homedir;
use vstd::prelude::*;


verus! {

/// One named set of credentials. The secret key and the session token are
/// erased from memory when the profile is dropped.
pub struct AwsProfile {
    /// The name of the profile, unique within its file.
    pub name: String,
    /// The access key id.
    pub access_key_id: String,
    /// The secret access key.
    pub secret_access_key: Secret,
    /// The session token, if the profile has one.
    pub session_token: Option<Secret>,
    /// The file that the profile was read from.
    pub file: FileSource,
}

/// What an `AwsProfile` is, mathematically.
pub struct ProfileView {
    pub name: Seq<char>,
    pub access_key_id: Seq<char>,
    pub secret_access_key: Seq<char>,
    pub session_token: Option<Seq<char>>,
    pub file: SourceView,
}

impl View for AwsProfile {
    type V = ProfileView;

    open spec fn view(&self) -> ProfileView {
        ProfileView {
            name: self.name@,
            access_key_id: self.access_key_id@,
            secret_access_key: secret_text(self.secret_access_key),
            session_token: secret_text_of(self.session_token),
            file: self.file@,
        }
    }
}

/// The URI of a profile: its prefix, a slash and its name; for a profile
/// without a prefix, a slash and its name.
pub open spec fn uri_of(prefix: Option<Seq<char>>, name: Seq<char>) -> Seq<char> {
    match prefix {
        Some(p) => p.push('/') + name,
        None => seq!['/'] + name,
    }
}

/// How a profile is described: by its name, its access key id and its
/// file. The secrets are not part of the description.
pub open spec fn spec_describe(p: ProfileView, home: Option<Seq<char>>) -> Seq<char> {
    "AWSProfile{name="@ + p.name + ", access_key_id="@ + p.access_key_id
        + ", secret_access_key=***, file="@ + shown_path(p.file.path, home) + "}"@
}

impl ProfileView {
    /// The namespace prefix of the profile's file under `home`.
    pub open spec fn prefix(self, home: Option<Seq<char>>) -> Option<Seq<char>> {
        prefix_of(self.file.path, home)
    }

    /// The URI of the profile under `home`.
    pub open spec fn uri(self, home: Option<Seq<char>>) -> Seq<char> {
        uri_of(self.prefix(home), self.name)
    }
}

impl AwsProfile {
    /// A profile of the given fields. The two secrets are put under erasure.
    pub fn new(
        name: String,
        access_key_id: String,
        secret_access_key: String,
        session_token: Option<String>,
        file: FileSource,
    ) -> (r: Self)
        ensures
            r@ == (ProfileView {
                name: name@,
                access_key_id: access_key_id@,
                secret_access_key: secret_access_key@,
                session_token: text_of(session_token),
                file: file@,
            }),
    {
        let token = match session_token {
            Some(t) => Some(seal(t)),
            None => None,
        };
        AwsProfile {
            name,
            access_key_id,
            secret_access_key: seal(secret_access_key),
            session_token: token,
            file,
        }
    }

    /// The secret access key, in the clear.
    pub fn expose_secret_access_key(&self) -> (r: &str)
        ensures
            r@ == self@.secret_access_key,
    {
        expose(&self.secret_access_key)
    }

    /// The session token, in the clear.
    pub fn expose_session_token(&self) -> (r: Option<&str>)
        ensures
            match r {
                Some(t) => self@.session_token == Some(t@),
                None => self@.session_token is None,
            },
    {
        match &self.session_token {
            Some(t) => Some(expose(t)),
            None => None,
        }
    }

    /// Whether the profile comes from the canonical credentials file under
    /// `home`.
    pub fn is_in_root_in(&self, home: &Option<String>) -> (r: bool)
        ensures
            r == crate::loader::is_root_path(self@.file.path, text_of(*home)),
    {
        self.file.is_root_in(home)
    }

    /// Whether the profile comes from the canonical credentials file of the
    /// current user.
    pub fn is_in_root(&self) -> (r: bool)
        ensures
            exists|home: Option<Seq<char>>|
                r == #[trigger] crate::loader::is_root_path(self@.file.path, home),
    {
        let home = homedir();
        let r = self.is_in_root_in(&home);
        assert(r == crate::loader::is_root_path(self@.file.path, text_of(home)));
        r
    }

    /// The namespace prefix of the profile under `home`.
    pub fn prefix_in(&self, home: &Option<String>) -> (r: Option<String>)
        ensures
            text_of(r) == self@.prefix(text_of(*home)),
    {
        self.file.prefix_in(home)
    }

    /// The namespace prefix of the profile for the current user.
    pub fn prefix(&self) -> (r: Option<String>)
        ensures
            exists|home: Option<Seq<char>>| text_of(r) == #[trigger] self@.prefix(home),
    {
        let home = homedir();
        let r = self.prefix_in(&home);
        assert(text_of(r) == self@.prefix(text_of(home)));
        r
    }

    /// The URI of the profile under `home`.
    pub fn uri_in(&self, home: &Option<String>) -> (r: String)
        ensures
            r@ == self@.uri(text_of(*home)),
    {
        let prefix = self.prefix_in(home);
        uri_from(&prefix, self.name.as_str())
    }

    /// A description of the profile for logs and messages, with the file
    /// shown under `home`. The secret access key is left out, as is the
    /// session token.
    pub fn describe_in(&self, home: &Option<String>) -> (r: String)
        ensures
            r@ == spec_describe(self@, text_of(*home)),
    {
        let mut r = "AWSProfile{name=".to_owned();
        r.append(self.name.as_str());
        r.append(", access_key_id=");
        r.append(self.access_key_id.as_str());
        r.append(", secret_access_key=***, file=");
        let shown = self.file.shown_in(home);
        r.append(shown.as_str());
        r.append("}");
        assert(r@ =~= spec_describe(self@, text_of(*home)));
        r
    }

    /// A description of the profile for the current user, without its
    /// secrets.
    pub fn describe(&self) -> (r: String)
        ensures
            exists|home: Option<Seq<char>>| r@ == #[trigger] spec_describe(self@, home),
    {
        let home = homedir();
        let r = self.describe_in(&home);
        assert(r@ == spec_describe(self@, text_of(home)));
        r
    }

    /// The URI of the profile for the current user: `/name` for a profile of
    /// the canonical credentials file, `stem/name` for any other.
    pub fn uri(&self) -> (r: String)
        ensures
            exists|home: Option<Seq<char>>| r@ == #[trigger] self@.uri(home),
    {
        let home = homedir();
        let r = self.uri_in(&home);
        assert(r@ == self@.uri(text_of(home)));
        r
    }
}

/// The URI made of `prefix` and `name`.
pub fn uri_from(prefix: &Option<String>, name: &str) -> (r: String)
    ensures
        r@ == uri_of(text_of(*prefix), name@),
{
    proof {
        reveal_strlit("/");
    }
    let mut r = match prefix {
        Some(p) => p.clone(),
        None => String::new(),
    };
    r.append("/");
    r.append(name);
    assert(r@ =~= uri_of(text_of(*prefix), name@));
    r
}

} // verus!
