//! Loading: the identity of a file that holds profiles and what is derived
//! from its path, the kinds of files and of failures, and how the outcomes
//! of loading many files are gathered.
//!
//! Nothing here reads a file or runs a program. The caller lists the
//! directory, reads or decrypts each candidate in whatever order and with
//! whatever parallelism it likes (bounded by `PLAIN_READS` and
//! `ENCRYPTED_READS`), and hands over what it found.

pub mod arrival;
pub mod candidate;
pub mod credentials_file;
pub mod profile;
pub mod rank;
pub mod round_trip;
pub mod source_set;

pub use credentials_file::AwsCredentialsFile;
pub use profile::AwsProfile;
pub use source_set::SourceSet;

use crate::loader::credentials_file::FileView;
use crate::loader::source_set::{spec_insert_all, well_ordered};
use crate::path::{
    extension, file_stem, same_path, same_text, spec_extension, spec_file_stem, spec_same_path,
    text_of,
};
use crate::text::{decimal, indented, spec_decimal, spec_indented};
use crate::utils::{
    config_dir, drop_in_dir, homedir, root_file, spec_config_dir, spec_drop_in_dir,
    spec_root_file, spec_strip_homedir, strip_homedir,
};
use vstd::prelude::*;
use vstd::std_specs::cmp::PartialEqSpecImpl;

verus! {

/// One file that holds credentials.
#[derive(Clone, Debug)]
pub struct FileSource {
    /// The absolute path of the file.
    pub path: String,
    /// Whether the file is encrypted.
    pub encrypted: bool,
}

/// What a `FileSource` is, mathematically.
pub struct SourceView {
    pub path: Seq<char>,
    pub encrypted: bool,
}

impl View for FileSource {
    type V = SourceView;

    open spec fn view(&self) -> SourceView {
        SourceView { path: self.path@, encrypted: self.encrypted }
    }
}

impl PartialEq for FileSource {
    fn eq(&self, other: &Self) -> (r: bool) {
        same_path(self.path.as_str(), other.path.as_str()) && self.encrypted == other.encrypted
    }
}

impl PartialEqSpecImpl for FileSource {
    open spec fn obeys_eq_spec() -> bool {
        true
    }

    open spec fn eq_spec(&self, other: &Self) -> bool {
        spec_same_path(self.path@, other.path@) && self.encrypted == other.encrypted
    }
}

impl Eq for FileSource {

}

/// Whether `path` is the canonical credentials file of the user whose home
/// directory is `home`: the same path, however it is spelled. Without a
/// home directory no path is.
pub open spec fn is_root_path(path: Seq<char>, home: Option<Seq<char>>) -> bool {
    match home {
        Some(h) => spec_same_path(path, spec_root_file(h)),
        None => false,
    }
}

/// The namespace prefix of the file at `path`: none for the canonical
/// credentials file, the file's stem for any other.
pub open spec fn prefix_of(path: Seq<char>, home: Option<Seq<char>>) -> Option<Seq<char>> {
    if is_root_path(path, home) {
        None
    } else {
        spec_file_stem(path)
    }
}

/// The path with the home directory abbreviated to `~`, where there is a
/// home directory and the path lies under it.
pub open spec fn home_path_of(path: Seq<char>, home: Option<Seq<char>>) -> Option<Seq<char>> {
    match home {
        Some(h) => spec_strip_homedir(path, h),
        None => None,
    }
}

/// How a path is shown: with the home directory abbreviated to `~` where the
/// path lies under it, in full otherwise.
pub open spec fn shown_path(path: Seq<char>, home: Option<Seq<char>>) -> Seq<char> {
    match home_path_of(path, home) {
        Some(s) => s,
        None => path,
    }
}

/// Whether an extension marks an encrypted file: `asc`, `gpg` or `pgp`.
pub open spec fn is_encrypted_extension(ext: Option<Seq<char>>) -> bool {
    ext == Some("asc"@) || ext == Some("gpg"@) || ext == Some("pgp"@)
}

/// Whether an extension marks an encrypted file.
pub fn encrypted_extension(ext: &Option<String>) -> (r: bool)
    ensures
        r == is_encrypted_extension(text_of(*ext)),
{
    match ext {
        Some(e) => {
            let e = e.as_str();
            same_text(e, "asc") || same_text(e, "gpg") || same_text(e, "pgp")
        },
        None => false,
    }
}

/// Why a file gave no profiles.
#[derive(Debug)]
pub enum Error {
    /// No section of the file has both an access key id and a secret access
    /// key.
    NoProfiles { path: String, encrypted: bool },
    /// The decryption helper did not exit with code zero. With the exit
    /// code, if it exited at all, and what it wrote to standard error.
    Decrypt { path: String, code: Option<i32>, stderr: Option<String> },
    /// The output of the decryption helper could not be read as text.
    UnreadableOutput { path: String },
    /// The file could not be read. With the reason as the system gave it.
    Read { path: String, message: String },
    /// The text of the file has too many lines to be parsed.
    TooManyLines { path: String, encrypted: bool },
}

/// What an `Error` is, mathematically.
pub enum ErrorView {
    NoProfiles { path: Seq<char>, encrypted: bool },
    Decrypt { path: Seq<char>, code: Option<i32>, stderr: Option<Seq<char>> },
    UnreadableOutput { path: Seq<char> },
    Read { path: Seq<char>, message: Seq<char> },
    TooManyLines { path: Seq<char>, encrypted: bool },
}

impl View for Error {
    type V = ErrorView;

    open spec fn view(&self) -> ErrorView {
        match *self {
            Error::NoProfiles { path, encrypted } => ErrorView::NoProfiles {
                path: path@,
                encrypted,
            },
            Error::Decrypt { path, code, stderr } => ErrorView::Decrypt {
                path: path@,
                code,
                stderr: text_of(stderr),
            },
            Error::UnreadableOutput { path } => ErrorView::UnreadableOutput { path: path@ },
            Error::Read { path, message } => ErrorView::Read { path: path@, message: message@ },
            Error::TooManyLines { path, encrypted } => ErrorView::TooManyLines { path: path@, encrypted },
        }
    }
}

/// How the exit code of the decryption helper is written: in decimal, or
/// `none` where the helper did not exit by itself.
pub open spec fn code_text(code: Option<i32>) -> Seq<char> {
    match code {
        Some(c) => spec_decimal(c as int),
        None => "none"@,
    }
}

/// How a failure to read profiles begins: with the file, an encrypted one by
/// its full path, a plain one with the home directory abbreviated.
pub open spec fn reading_failure(path: Seq<char>, encrypted: bool, home: Option<Seq<char>>) -> Seq<
    char,
> {
    if encrypted {
        "Unable to read profiles from encrypted file "@ + path + ": "@
    } else {
        "Unable to read profiles from "@ + shown_path(path, home) + ": "@
    }
}

/// How a failure is worded. A failure of the decryption helper is followed
/// by what the helper wrote to standard error, each line indented.
pub open spec fn spec_describe_error(e: ErrorView, home: Option<Seq<char>>) -> Seq<char> {
    match e {
        ErrorView::NoProfiles { path, encrypted } => reading_failure(path, encrypted, home)
            + "file contains no profiles"@,
        ErrorView::TooManyLines { path, encrypted } => reading_failure(path, encrypted, home)
            + "text has too many lines to be parsed"@,
        ErrorView::Decrypt { path, code, stderr } => "Unable to decrypt file with gpg (rc="@
            + code_text(code) + "): "@ + path + match stderr {
            Some(output) => "\n"@ + spec_indented(output),
            None => Seq::empty(),
        },
        ErrorView::UnreadableOutput { .. } => "unable to read gpg stdout"@,
        ErrorView::Read { message, .. } => message,
    }
}

/// The path as it is shown under `home`.
pub fn show_path(path: &str, home: &Option<String>) -> (r: String)
    ensures
        r@ == shown_path(path@, text_of(*home)),
{
    match home {
        Some(h) => match strip_homedir(path, h.as_str()) {
            Some(s) => s,
            None => path.to_owned(),
        },
        None => path.to_owned(),
    }
}

/// How a failure to read profiles begins.
fn reading_failure_text(path: &str, encrypted: bool, home: &Option<String>) -> (r: String)
    ensures
        r@ == reading_failure(path@, encrypted, text_of(*home)),
{
    if encrypted {
        let mut r = "Unable to read profiles from encrypted file ".to_owned();
        r.append(path);
        r.append(": ");
        assert(r@ =~= reading_failure(path@, encrypted, text_of(*home)));
        r
    } else {
        let mut r = "Unable to read profiles from ".to_owned();
        let shown = show_path(path, home);
        r.append(shown.as_str());
        r.append(": ");
        assert(r@ =~= reading_failure(path@, encrypted, text_of(*home)));
        r
    }
}

impl Error {
    /// The failure in words, for logs and messages, with paths shown under
    /// `home`.
    pub fn describe_in(&self, home: &Option<String>) -> (r: String)
        ensures
            r@ == spec_describe_error(self@, text_of(*home)),
    {
        match self {
            Error::NoProfiles { path, encrypted } => {
                let mut r = reading_failure_text(path.as_str(), *encrypted, home);
                r.append("file contains no profiles");
                r
            },
            Error::TooManyLines { path, encrypted } => {
                let mut r = reading_failure_text(path.as_str(), *encrypted, home);
                r.append("text has too many lines to be parsed");
                r
            },
            Error::Decrypt { path, code, stderr } => {
                let mut r = "Unable to decrypt file with gpg (rc=".to_owned();
                match code {
                    Some(c) => {
                        let number = decimal(*c);
                        r.append(number.as_str());
                    },
                    None => {
                        r.append("none");
                    },
                }
                r.append("): ");
                r.append(path.as_str());
                match stderr {
                    Some(output) => {
                        let lines = indented(output.as_str());
                        r.append("\n");
                        r.append(lines.as_str());
                    },
                    None => {},
                }
                assert(r@ =~= spec_describe_error(self@, text_of(*home)));
                r
            },
            Error::UnreadableOutput { .. } => "unable to read gpg stdout".to_owned(),
            Error::Read { message, .. } => message.clone(),
        }
    }
}

impl FileSource {
    /// A copy of this source.
    pub fn duplicate(&self) -> (r: Self)
        ensures
            r@ == self@,
    {
        FileSource { path: self.path.clone(), encrypted: self.encrypted }
    }

    /// The source at path `p`, encrypted where the extension of `p` says so.
    pub fn from_path(p: &str) -> (r: Self)
        ensures
            r@.path == p@,
            r@.encrypted == is_encrypted_extension(spec_extension(p@)),
    {
        let ext = extension(p);
        FileSource { path: p.to_owned(), encrypted: encrypted_extension(&ext) }
    }

    /// Whether this is the canonical credentials file under `home`.
    pub fn is_root_in(&self, home: &Option<String>) -> (r: bool)
        ensures
            r == is_root_path(self@.path, text_of(*home)),
    {
        match home {
            Some(h) => {
                let root = root_file(h.as_str());
                same_path(self.path.as_str(), root.as_str())
            },
            None => false,
        }
    }

    /// Whether this is the canonical credentials file of the current user.
    /// The home directory is looked up at each call; where the user has
    /// none, no file is the canonical one.
    pub fn is_root(&self) -> (r: bool)
        ensures
            exists|home: Option<Seq<char>>| r == #[trigger] is_root_path(self@.path, home),
    {
        let home = homedir();
        let r = self.is_root_in(&home);
        assert(r == is_root_path(self@.path, text_of(home)));
        r
    }

    /// The namespace prefix of this file under `home`.
    pub fn prefix_in(&self, home: &Option<String>) -> (r: Option<String>)
        ensures
            text_of(r) == prefix_of(self@.path, text_of(*home)),
    {
        if self.is_root_in(home) {
            None
        } else {
            file_stem(self.path.as_str())
        }
    }

    /// The namespace prefix of this file for the current user: the file's
    /// stem, unless the file is the canonical credentials file. The home
    /// directory is looked up at each call.
    pub fn prefix(&self) -> (r: Option<String>)
        ensures
            exists|home: Option<Seq<char>>| text_of(r) == #[trigger] prefix_of(self@.path, home),
    {
        let home = homedir();
        let r = self.prefix_in(&home);
        assert(text_of(r) == prefix_of(self@.path, text_of(home)));
        r
    }

    /// The path with `home` abbreviated to `~`. `None` where there is no
    /// home directory or the file does not lie under it.
    pub fn home_path_in(&self, home: &Option<String>) -> (r: Option<String>)
        ensures
            text_of(r) == home_path_of(self@.path, text_of(*home)),
    {
        match home {
            Some(h) => strip_homedir(self.path.as_str(), h.as_str()),
            None => None,
        }
    }

    /// The path as it is shown under `home`.
    pub fn shown_in(&self, home: &Option<String>) -> (r: String)
        ensures
            r@ == shown_path(self@.path, text_of(*home)),
    {
        show_path(self.path.as_str(), home)
    }

    /// The path with the current user's home directory abbreviated to `~`.
    /// `None` where the user has no home directory or the file does not lie
    /// under it.
    pub fn home_path(&self) -> (r: Option<String>)
        ensures
            exists|home: Option<Seq<char>>| text_of(r) == #[trigger] home_path_of(self@.path, home),
    {
        let home = homedir();
        let r = self.home_path_in(&home);
        assert(text_of(r) == home_path_of(self@.path, text_of(home)));
        r
    }
}

/// How many plain files are read at a time, at most.
pub const PLAIN_READS: usize = 32;

/// How many encrypted files are decrypted at a time, at most. Each takes a
/// run of the decryption helper, which costs far more than a read.
pub const ENCRYPTED_READS: usize = 4;

/// How a candidate file is to be loaded.
#[derive(Clone, Copy, Debug, PartialEq, Eq, Structural)]
pub enum FileKind {
    /// Through the decryption helper.
    Encrypted,
    /// By reading it.
    Plain,
    /// Not at all.
    Skipped,
}

/// The kind of the file at `path`, by its extension: `asc`, `gpg` and `pgp`
/// are encrypted, `ini` and no extension are plain, any other is skipped.
pub open spec fn spec_classify(path: Seq<char>) -> FileKind {
    if is_encrypted_extension(spec_extension(path)) {
        FileKind::Encrypted
    } else if spec_extension(path) is None || spec_extension(path) == Some("ini"@) {
        FileKind::Plain
    } else {
        FileKind::Skipped
    }
}

/// Why no credentials could be loaded at all.
#[derive(Debug)]
pub enum ConfigError {
    /// The user has no home directory.
    NoHome,
    /// The configuration directory does not exist.
    MissingConfigDir { path: String },
    /// The configuration directory is not a directory.
    NotADirectory { path: String },
}

/// How a failure that stops the whole load is worded.
pub open spec fn spec_describe_config_error(e: ConfigError) -> Seq<char> {
    match e {
        ConfigError::NoHome => "unable to get user's home directory"@,
        ConfigError::MissingConfigDir { path } => path@ + " directory does not exist"@,
        ConfigError::NotADirectory { path } => path@ + " is not a directory"@,
    }
}

impl ConfigError {
    /// The failure in words.
    pub fn describe(&self) -> (r: String)
        ensures
            r@ == spec_describe_config_error(*self),
    {
        match self {
            ConfigError::NoHome => "unable to get user's home directory".to_owned(),
            ConfigError::MissingConfigDir { path } => {
                let mut r = path.clone();
                r.append(" directory does not exist");
                r
            },
            ConfigError::NotADirectory { path } => {
                let mut r = path.clone();
                r.append(" is not a directory");
                r
            },
        }
    }
}

/// Where the credentials of one user are kept.
pub struct Locations {
    /// The home directory.
    pub home: String,
    /// The configuration directory, `<home>/.aws`.
    pub config_dir: String,
    /// The directory of drop-in files, `<home>/.aws/credentials.d`.
    pub drop_in_dir: String,
    /// The canonical credentials file, `<home>/.aws/credentials`.
    pub root_file: String,
}

impl Locations {
    /// Whether the four paths are those that belong to `home`.
    pub open spec fn of(&self, home: Seq<char>) -> bool {
        &&& self.home@ == home
        &&& self.config_dir@ == spec_config_dir(home)
        &&& self.drop_in_dir@ == spec_drop_in_dir(home)
        &&& self.root_file@ == spec_root_file(home)
    }

    /// Judges the configuration directory by what was found at its path:
    /// it must exist and be a directory. The drop-in directory may be
    /// missing.
    pub fn confirm(&self, exists: bool, is_dir: bool) -> (r: Result<(), ConfigError>)
        ensures
            match r {
                Ok(_) => exists && is_dir,
                Err(ConfigError::MissingConfigDir { path }) => !exists && path@
                    == self.config_dir@,
                Err(ConfigError::NotADirectory { path }) => exists && !is_dir && path@
                    == self.config_dir@,
                Err(ConfigError::NoHome) => false,
            },
    {
        if !exists {
            Err(ConfigError::MissingConfigDir { path: self.config_dir.clone() })
        } else if !is_dir {
            Err(ConfigError::NotADirectory { path: self.config_dir.clone() })
        } else {
            Ok(())
        }
    }
}

/// The successes among the outcomes of loading, in order.
pub open spec fn successes(outcomes: Seq<Result<AwsCredentialsFile, Error>>) -> Seq<FileView>
    decreases outcomes.len(),
{
    if outcomes.len() == 0 {
        Seq::empty()
    } else {
        match outcomes.last() {
            Ok(f) => successes(outcomes.drop_last()).push(f@),
            Err(_) => successes(outcomes.drop_last()),
        }
    }
}

/// The failures among the outcomes of loading, in order.
pub open spec fn failures(outcomes: Seq<Result<AwsCredentialsFile, Error>>) -> Seq<ErrorView>
    decreases outcomes.len(),
{
    if outcomes.len() == 0 {
        Seq::empty()
    } else {
        match outcomes.last() {
            Ok(_) => failures(outcomes.drop_last()),
            Err(e) => failures(outcomes.drop_last()).push(e@),
        }
    }
}

/// The views of a sequence of errors.
pub open spec fn error_views(errors: Seq<Error>) -> Seq<ErrorView> {
    Seq::new(errors.len(), |i: int| errors[i]@)
}

/// The credentials of one user: every file that could be loaded.
pub struct AwsCredentials {
    /// The loaded files in priority order.
    pub sources: SourceSet,
}

impl AwsCredentials {
    /// Where the credentials of the user with home directory `home` are
    /// kept. Fails where the user has no home directory.
    pub fn locate(home: Option<String>) -> (r: Result<Locations, ConfigError>)
        ensures
            match r {
                Ok(l) => home is Some && l.of(home.unwrap()@),
                Err(e) => home is None && e is NoHome,
            },
    {
        match home {
            Some(h) => {
                let config = config_dir(h.as_str());
                let drop_ins = drop_in_dir(h.as_str());
                let root = root_file(h.as_str());
                Ok(Locations { home: h, config_dir: config, drop_in_dir: drop_ins, root_file: root })
            },
            None => Err(ConfigError::NoHome),
        }
    }

    /// How the file at `path` is to be loaded.
    pub fn classify(path: &str) -> (r: FileKind)
        ensures
            r == spec_classify(path@),
    {
        let ext = extension(path);
        if encrypted_extension(&ext) {
            FileKind::Encrypted
        } else {
            match ext {
                Some(e) => if same_text(e.as_str(), "ini") {
                    FileKind::Plain
                } else {
                    FileKind::Skipped
                },
                None => FileKind::Plain,
            }
        }
    }

    /// Gathers the outcomes of loading the candidate files. Every file that
    /// was loaded takes its place by rank, whatever the order in which the
    /// loads ended; every failure is handed back to be reported, and stops
    /// nothing.
    pub fn collect(home: Option<String>, outcomes: Vec<Result<AwsCredentialsFile, Error>>) -> (r: (
        Self,
        Vec<Error>,
    ))
        ensures
            r.0.sources@ == spec_insert_all(Seq::empty(), successes(outcomes@), text_of(home)),
            r.0.sources.home() == text_of(home),
            well_ordered(r.0.sources@, r.0.sources.home()),
            error_views(r.1@) == failures(outcomes@),
    {
        let ghost h = text_of(home);
        let ghost all = outcomes@;
        let mut sources = SourceSet::with_home(home);
        let mut errors: Vec<Error> = Vec::new();
        assert(all.take(0) =~= Seq::<Result<AwsCredentialsFile, Error>>::empty());
        assert(error_views(errors@) =~= failures(all.take(0)));
        sources.ordered();
        for outcome in it: outcomes
            invariant
                it.seq() == all,
                sources.home() == h,
                well_ordered(sources@, h),
                sources@ == spec_insert_all(
                    Seq::empty(),
                    successes(all.take(it.index() as int)),
                    h,
                ),
                error_views(errors@) == failures(all.take(it.index() as int)),
        {
            proof {
                let k = it.index() as int;
                assert(all.take(k + 1).drop_last() =~= all.take(k));
                assert(all.take(k + 1).last() == all[k]);
            }
            match outcome {
                Ok(file) => {
                    proof {
                        let k = it.index() as int;
                        let got = successes(all.take(k + 1));
                        assert(got.drop_last() =~= successes(all.take(k)));
                    }
                    sources.insert(file);
                },
                Err(e) => {
                    let ghost before = errors@;
                    errors.push(e);
                    assert(error_views(errors@) =~= error_views(before).push(e@));
                },
            }
        }
        assert(all.take(all.len() as int) =~= all);
        (AwsCredentials { sources }, errors)
    }
}

} // verus!
