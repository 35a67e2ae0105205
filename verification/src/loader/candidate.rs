//! From what was read to what is loaded.
//!
//! The caller lists the drop-in directory and reads what it finds there. It
//! hands over each entry by its name, with what came of reading it, and
//! what came of reading the canonical credentials file. Which of these are
//! loaded, and how, is decided here: an entry is loaded by the kind of its
//! extension, whatever the caller did with it, and an entry of a kind that
//! is skipped is left out even where it was read.

use crate::loader::credentials_file::{
    load_view, spec_load, spec_load_encrypted, AwsCredentialsFile, Decryption, DecryptionView,
    FileView,
};
use crate::loader::source_set::{spec_insert, spec_insert_all, well_ordered};
use crate::loader::{
    error_views, failures, is_encrypted_extension, spec_classify, successes, AwsCredentials,
    ConfigError, Error, ErrorView, FileKind, Locations, SourceView,
};
use crate::path::{
    join, part_views, parts, spec_components, spec_extension, spec_join, text_of, Component,
    PartKind,
};
use crate::secret::seal;
use crate::utils::{spec_config_dir, spec_drop_in_dir, spec_root_file};
use vstd::prelude::*;

verus! {

/// What came of reading a candidate file.
pub enum Reading {
    /// The contents of the file, read as it is.
    Text(String),
    /// What the decryption helper left behind.
    Decrypted(Decryption),
    /// The reason why nothing could be read.
    Failed(String),
}

/// What a `Reading` is, mathematically.
pub enum ReadingView {
    Text(Seq<char>),
    Decrypted(DecryptionView),
    Failed(Seq<char>),
}

impl View for Reading {
    type V = ReadingView;

    open spec fn view(&self) -> ReadingView {
        match *self {
            Reading::Text(text) => ReadingView::Text(text@),
            Reading::Decrypted(decryption) => ReadingView::Decrypted(decryption@),
            Reading::Failed(message) => ReadingView::Failed(message@),
        }
    }
}

/// The view of an optional reading.
pub open spec fn reading_of(o: Option<Reading>) -> Option<ReadingView> {
    match o {
        Some(r) => Some(r@),
        None => None,
    }
}

/// An entry of the drop-in directory: its name there, and what came of
/// reading it.
pub struct Candidate {
    pub name: String,
    pub reading: Reading,
}

/// What a `Candidate` is, mathematically.
pub struct CandidateView {
    pub name: Seq<char>,
    pub reading: ReadingView,
}

impl View for Candidate {
    type V = CandidateView;

    open spec fn view(&self) -> CandidateView {
        CandidateView { name: self.name@, reading: self.reading@ }
    }
}

/// The views of a sequence of candidates.
pub open spec fn candidate_views(candidates: Seq<Candidate>) -> Seq<CandidateView> {
    Seq::new(candidates.len(), |i: int| candidates[i]@)
}

/// What is reported of an encrypted file that was read as it is.
pub const READ_NOT_DECRYPTED: &'static str = "the file is encrypted and was not decrypted";

/// What is reported of a plain file that was put through the decryption
/// helper.
pub const DECRYPTED_NOT_READ: &'static str = "the file is not encrypted and was decrypted";

/// How the load of the file at `path` ends, given what came of reading it:
/// not at all where the kind of the file is skipped; as a plain load of the
/// text of a plain file; as an encrypted load of what the helper left of an
/// encrypted file; and as a failure to read where nothing was read or the
/// file was read in the way of the other kind.
pub open spec fn spec_outcome(path: Seq<char>, reading: ReadingView) -> Option<
    Result<FileView, ErrorView>,
> {
    match spec_classify(path) {
        FileKind::Skipped => None,
        FileKind::Plain => Some(
            match reading {
                ReadingView::Text(text) => spec_load(text, SourceView { path, encrypted: false }),
                ReadingView::Decrypted(_) => Err(
                    ErrorView::Read { path, message: DECRYPTED_NOT_READ@ },
                ),
                ReadingView::Failed(message) => Err(ErrorView::Read { path, message }),
            },
        ),
        FileKind::Encrypted => Some(
            match reading {
                ReadingView::Decrypted(decryption) => spec_load_encrypted(path, decryption),
                ReadingView::Text(_) => Err(ErrorView::Read { path, message: READ_NOT_DECRYPTED@ }),
                ReadingView::Failed(message) => Err(ErrorView::Read { path, message }),
            },
        ),
    }
}

/// The view of an optional outcome.
pub open spec fn outcome_view(o: Option<Result<AwsCredentialsFile, Error>>) -> Option<
    Result<FileView, ErrorView>,
> {
    match o {
        Some(r) => Some(load_view(r)),
        None => None,
    }
}

impl AwsCredentialsFile {
    /// Loads the candidate file at `path` from what came of reading it, by
    /// the kind of its extension. `None` where the file is of a kind that
    /// is skipped.
    pub fn load_candidate(path: &str, reading: Reading) -> (r: Option<Result<Self, Error>>)
        ensures
            outcome_view(r) == spec_outcome(path@, reading@),
    {
        match AwsCredentials::classify(path) {
            FileKind::Skipped => {
                erase(reading);
                None
            },
            FileKind::Plain => Some(
                match reading {
                    Reading::Text(text) => AwsCredentialsFile::load(path, text),
                    Reading::Failed(message) => Err(Error::Read { path: path.to_owned(), message }),
                    Reading::Decrypted(decryption) => {
                        erase(Reading::Decrypted(decryption));
                        Err(
                            Error::Read {
                                path: path.to_owned(),
                                message: DECRYPTED_NOT_READ.to_owned(),
                            },
                        )
                    },
                },
            ),
            FileKind::Encrypted => Some(
                match reading {
                    Reading::Decrypted(decryption) => AwsCredentialsFile::load_encrypted(
                        path,
                        decryption,
                    ),
                    Reading::Failed(message) => Err(Error::Read { path: path.to_owned(), message }),
                    Reading::Text(_) => Err(
                        Error::Read { path: path.to_owned(), message: READ_NOT_DECRYPTED.to_owned() },
                    ),
                },
            ),
        }
    }
}

/// Drops a reading that is not used. What may be the text of credentials is
/// put under erasure first.
fn erase(reading: Reading) {
    match reading {
        Reading::Text(text) => {
            let _erased = seal(text);
        },
        Reading::Decrypted(decryption) => {
            let Decryption { code, stdout, stderr } = decryption;
            let _erased = match stdout {
                Some(text) => Some(seal(text)),
                None => None,
            };
        },
        Reading::Failed(_) => {},
    }
}

/// Whether a text is the name of an entry of a directory: one component,
/// which is a name and all of the text.
pub open spec fn is_entry_name(name: Seq<char>) -> bool {
    spec_components(name) == seq![Component::Normal(name)]
}

/// Whether `name` is the name of an entry of a directory.
pub fn entry_name(name: &str) -> (r: bool)
    ensures
        r == is_entry_name(name@),
{
    let all = parts(name);
    let n = name.unicode_len();
    if all.len() != 1 {
        assert(spec_components(name@).len() != 1);
        return false;
    }
    let only = &all[0];
    assert(part_views(all@)[0] == all@[0]@);
    let r = match only.kind {
        PartKind::Normal => only.start == 0 && only.end == n,
        _ => false,
    };
    proof {
        let c = spec_components(name@)[0];
        if r {
            assert(name@.subrange(0, n as int) =~= name@);
            assert(spec_components(name@) =~= seq![Component::Normal(name@)]);
        } else {
            match c {
                Component::Normal(text) => {
                    assert(text.len() == only.end - only.start);
                    assert(text != name@);
                },
                _ => {},
            }
            assert(spec_components(name@)[0] != seq![Component::Normal(name@)][0]);
        }
    }
    r
}

impl Locations {
    /// The path of the entry `name` of the drop-in directory. `None` where
    /// `name` is not the name of an entry.
    pub fn entry_path(&self, name: &str) -> (r: Option<String>)
        ensures
            text_of(r) == if is_entry_name(name@) {
                Some(spec_join(self.drop_in_dir@, name@))
            } else {
                None
            },
    {
        if entry_name(name) {
            Some(join(self.drop_in_dir.as_str(), name))
        } else {
            None
        }
    }
}

/// How the load of one entry of the directory `dir` ends. What is not the
/// name of an entry is left out.
pub open spec fn entry_outcome(dir: Seq<char>, candidate: CandidateView) -> Option<
    Result<FileView, ErrorView>,
> {
    if is_entry_name(candidate.name) {
        spec_outcome(spec_join(dir, candidate.name), candidate.reading)
    } else {
        None
    }
}

/// The outcomes of `outcomes` with one more, if there is one more.
pub open spec fn with_outcome(
    outcomes: Seq<Result<FileView, ErrorView>>,
    more: Option<Result<FileView, ErrorView>>,
) -> Seq<Result<FileView, ErrorView>> {
    match more {
        Some(o) => outcomes.push(o),
        None => outcomes,
    }
}

/// How the loads of the entries of the directory `dir` end, in the order
/// of the entries.
pub open spec fn entry_outcomes(dir: Seq<char>, candidates: Seq<CandidateView>) -> Seq<
    Result<FileView, ErrorView>,
>
    decreases candidates.len(),
{
    if candidates.len() == 0 {
        Seq::empty()
    } else {
        with_outcome(
            entry_outcomes(dir, candidates.drop_last()),
            entry_outcome(dir, candidates.last()),
        )
    }
}

/// How the loads of all candidates end: those of the entries of the drop-in
/// directory, and after them that of the canonical credentials file, if it
/// was read.
pub open spec fn all_outcomes(
    home: Seq<char>,
    drop_ins: Seq<CandidateView>,
    root: Option<ReadingView>,
) -> Seq<Result<FileView, ErrorView>> {
    with_outcome(
        entry_outcomes(spec_drop_in_dir(home), drop_ins),
        match root {
            Some(reading) => spec_outcome(spec_root_file(home), reading),
            None => None,
        },
    )
}

/// The files among outcomes, in order.
pub open spec fn loaded(outcomes: Seq<Result<FileView, ErrorView>>) -> Seq<FileView>
    decreases outcomes.len(),
{
    if outcomes.len() == 0 {
        Seq::empty()
    } else {
        match outcomes.last() {
            Ok(f) => loaded(outcomes.drop_last()).push(f),
            Err(_) => loaded(outcomes.drop_last()),
        }
    }
}

/// The failures among outcomes, in order.
pub open spec fn failed(outcomes: Seq<Result<FileView, ErrorView>>) -> Seq<ErrorView>
    decreases outcomes.len(),
{
    if outcomes.len() == 0 {
        Seq::empty()
    } else {
        match outcomes.last() {
            Ok(_) => failed(outcomes.drop_last()),
            Err(e) => failed(outcomes.drop_last()).push(e),
        }
    }
}

/// The views of a sequence of outcomes.
pub open spec fn outcome_views(outcomes: Seq<Result<AwsCredentialsFile, Error>>) -> Seq<
    Result<FileView, ErrorView>,
> {
    Seq::new(outcomes.len(), |i: int| load_view(outcomes[i]))
}

/// The successes and failures of outcomes are those of their views.
pub proof fn lemma_outcome_views(outcomes: Seq<Result<AwsCredentialsFile, Error>>)
    ensures
        successes(outcomes) == loaded(outcome_views(outcomes)),
        failures(outcomes) == failed(outcome_views(outcomes)),
    decreases outcomes.len(),
{
    if outcomes.len() > 0 {
        lemma_outcome_views(outcomes.drop_last());
        assert(outcome_views(outcomes).drop_last() =~= outcome_views(outcomes.drop_last()));
    }
}

impl AwsCredentials {
    /// The credentials of the user with home directory `home`, from what
    /// was found on disk: whether the configuration directory exists and is
    /// a directory, the entries of the drop-in directory with what came of
    /// reading each, and what came of reading the canonical credentials
    /// file, if it is there. Without a home directory or a configuration
    /// directory nothing is loaded. Each entry is loaded by the kind of its
    /// extension, and one of another kind is left out. The failure of a
    /// single file only leaves that file out, and a load that found no file
    /// at all is still a success.
    pub fn load_all(
        home: Option<String>,
        exists: bool,
        is_dir: bool,
        drop_ins: Vec<Candidate>,
        root: Option<Reading>,
    ) -> (r: Result<(Self, Vec<Error>), ConfigError>)
        ensures
            match r {
                Ok((credentials, errors)) => {
                    &&& home is Some && exists && is_dir
                    &&& credentials.sources@ == spec_insert_all(
                        Seq::empty(),
                        loaded(
                            all_outcomes(
                                home.unwrap()@,
                                candidate_views(drop_ins@),
                                reading_of(root),
                            ),
                        ),
                        text_of(home),
                    )
                    &&& credentials.sources.home() == text_of(home)
                    &&& well_ordered(credentials.sources@, credentials.sources.home())
                    &&& error_views(errors@) == failed(
                        all_outcomes(home.unwrap()@, candidate_views(drop_ins@), reading_of(root)),
                    )
                },
                Err(ConfigError::NoHome) => home is None,
                Err(ConfigError::MissingConfigDir { path }) => home is Some && !exists && path@
                    == spec_config_dir(home.unwrap()@),
                Err(ConfigError::NotADirectory { path }) => home is Some && exists && !is_dir
                    && path@ == spec_config_dir(home.unwrap()@),
            },
    {
        let locations = match AwsCredentials::locate(home) {
            Ok(l) => l,
            Err(e) => {
                return Err(e);
            },
        };
        match locations.confirm(exists, is_dir) {
            Ok(_) => {},
            Err(e) => {
                return Err(e);
            },
        }
        let ghost dir = locations.drop_in_dir@;
        let ghost all = drop_ins@;
        let mut outcomes: Vec<Result<AwsCredentialsFile, Error>> = Vec::new();
        assert(candidate_views(all.take(0)) =~= Seq::<CandidateView>::empty());
        assert(outcome_views(outcomes@) =~= entry_outcomes(dir, candidate_views(all.take(0))));
        for candidate in it: drop_ins
            invariant
                it.seq() == all,
                dir == locations.drop_in_dir@,
                outcome_views(outcomes@) == entry_outcomes(
                    dir,
                    candidate_views(all.take(it.index() as int)),
                ),
        {
            proof {
                let k = it.index() as int;
                assert(candidate_views(all.take(k + 1)).drop_last() =~= candidate_views(
                    all.take(k),
                ));
                assert(candidate_views(all.take(k + 1)).last() == all[k]@);
            }
            let Candidate { name, reading } = candidate;
            match locations.entry_path(name.as_str()) {
                Some(path) => {
                    match AwsCredentialsFile::load_candidate(path.as_str(), reading) {
                        Some(outcome) => {
                            let ghost before = outcomes@;
                            outcomes.push(outcome);
                            assert(outcome_views(outcomes@) =~= outcome_views(before).push(
                                load_view(outcome),
                            ));
                        },
                        None => {},
                    }
                },
                None => {
                    erase(reading);
                },
            }
        }
        assert(all.take(all.len() as int) =~= all);
        match root {
            Some(reading) => {
                match AwsCredentialsFile::load_candidate(locations.root_file.as_str(), reading) {
                    Some(outcome) => {
                        let ghost before = outcomes@;
                        outcomes.push(outcome);
                        assert(outcome_views(outcomes@) =~= outcome_views(before).push(
                            load_view(outcome),
                        ));
                    },
                    None => {},
                }
            },
            None => {},
        }
        proof {
            lemma_outcome_views(outcomes@);
        }
        Ok(AwsCredentials::collect(Some(locations.home), outcomes))
    }
}

/// Whether `x` is one of `s`.
pub open spec fn among<T>(s: Seq<T>, x: T) -> bool {
    exists|i: int| 0 <= i < s.len() && #[trigger] s[i] == x
}

/// Whether the file `f` is what a load for the user of `home` gives: it has
/// a profile, it carries the flag of its extension, its kind is not one
/// that is skipped, and it is the canonical credentials file or the entry
/// of the drop-in directory under one of the names handed over.
pub open spec fn comes_from_candidates(
    f: FileView,
    home: Seq<char>,
    drop_ins: Seq<CandidateView>,
) -> bool {
    &&& f.profiles.len() > 0
    &&& f.file.encrypted == is_encrypted_extension(spec_extension(f.file.path))
    &&& spec_classify(f.file.path) != FileKind::Skipped
    &&& f.file.path == spec_root_file(home) || exists|i: int|
        0 <= i < drop_ins.len() && is_entry_name((#[trigger] drop_ins[i]).name) && f.file.path
            == spec_join(spec_drop_in_dir(home), drop_ins[i].name)
}

/// A file that a candidate gives has the path of the candidate, at least
/// one profile, and the flag of its extension.
pub proof fn lemma_outcome_file(path: Seq<char>, reading: ReadingView, f: FileView)
    requires
        spec_outcome(path, reading) == Some(Ok::<FileView, ErrorView>(f)),
    ensures
        f.file.path == path,
        f.profiles.len() > 0,
        f.file.encrypted == is_encrypted_extension(spec_extension(path)),
        spec_classify(path) != FileKind::Skipped,
{
}

/// What stands in a collection after insertions stood there before or was
/// inserted.
pub proof fn lemma_inserted_was_given(
    files: Seq<FileView>,
    more: Seq<FileView>,
    home: Option<Seq<char>>,
    f: FileView,
)
    requires
        among(spec_insert_all(files, more, home), f),
    ensures
        among(files, f) || among(more, f),
    decreases more.len(),
{
    if more.len() > 0 {
        let before = spec_insert_all(files, more.drop_last(), home);
        let after = spec_insert(before, more.last(), home);
        let i = choose|i: int| 0 <= i < after.len() && #[trigger] after[i] == f;
        if f == more.last() {
            assert(more[more.len() - 1] == f);
        } else {
            if after != before {
                let p = crate::loader::source_set::place(before, more.last().file, home);
                crate::loader::source_set::lemma_place(before, more.last().file, home);
                if i < p {
                    assert(before[i] == f);
                } else {
                    assert(before[i - 1] == f);
                }
            } else {
                assert(before[i] == f);
            }
            lemma_inserted_was_given(files, more.drop_last(), home, f);
            if among(more.drop_last(), f) {
                let k = choose|k: int|
                    0 <= k < more.drop_last().len() && #[trigger] more.drop_last()[k] == f;
                assert(more[k] == f);
            }
        }
    }
}

/// A file among those loaded is the success of one of the outcomes.
pub proof fn lemma_loaded_was_outcome(outcomes: Seq<Result<FileView, ErrorView>>, f: FileView)
    requires
        among(loaded(outcomes), f),
    ensures
        among(outcomes, Ok::<FileView, ErrorView>(f)),
    decreases outcomes.len(),
{
    if outcomes.len() > 0 {
        let front = outcomes.drop_last();
        let i = choose|i: int| 0 <= i < loaded(outcomes).len() && #[trigger] loaded(outcomes)[i] == f;
        if i < loaded(front).len() {
            assert(loaded(front)[i] == f);
            lemma_loaded_was_outcome(front, f);
            let k = choose|k: int|
                0 <= k < front.len() && #[trigger] front[k] == Ok::<FileView, ErrorView>(f);
            assert(outcomes[k] == Ok::<FileView, ErrorView>(f));
        } else {
            assert(outcomes[outcomes.len() - 1] == Ok::<FileView, ErrorView>(f));
        }
    }
}

/// An outcome among those of the entries is the outcome of one entry.
pub proof fn lemma_outcome_was_entry(
    dir: Seq<char>,
    candidates: Seq<CandidateView>,
    o: Result<FileView, ErrorView>,
)
    requires
        among(entry_outcomes(dir, candidates), o),
    ensures
        exists|i: int|
            0 <= i < candidates.len() && entry_outcome(dir, #[trigger] candidates[i]) == Some(o),
    decreases candidates.len(),
{
    if candidates.len() > 0 {
        let front = candidates.drop_last();
        let all = entry_outcomes(dir, candidates);
        let i = choose|i: int| 0 <= i < all.len() && #[trigger] all[i] == o;
        if i < entry_outcomes(dir, front).len() {
            assert(entry_outcomes(dir, front)[i] == o);
            lemma_outcome_was_entry(dir, front, o);
            let k = choose|k: int|
                0 <= k < front.len() && entry_outcome(dir, #[trigger] front[k]) == Some(o);
            assert(entry_outcome(dir, candidates[k]) == Some(o));
        } else {
            assert(entry_outcome(dir, candidates[candidates.len() - 1]) == Some(o));
        }
    }
}

/// Every file that `load_all` returns comes from the candidates: it has a
/// profile and the flag of its extension, is of no kind that is skipped,
/// and is the canonical credentials file or an entry of the drop-in
/// directory.
pub proof fn lemma_load_all_sources(
    home: Seq<char>,
    drop_ins: Seq<CandidateView>,
    root: Option<ReadingView>,
    f: FileView,
)
    requires
        among(
            spec_insert_all(Seq::empty(), loaded(all_outcomes(home, drop_ins, root)), Some(home)),
            f,
        ),
    ensures
        comes_from_candidates(f, home, drop_ins),
{
    let dir = spec_drop_in_dir(home);
    let outcomes = all_outcomes(home, drop_ins, root);
    let entries = entry_outcomes(dir, drop_ins);
    let o = Ok::<FileView, ErrorView>(f);
    lemma_inserted_was_given(Seq::empty(), loaded(outcomes), Some(home), f);
    lemma_loaded_was_outcome(outcomes, f);
    let i = choose|i: int| 0 <= i < outcomes.len() && #[trigger] outcomes[i] == o;
    if i < entries.len() {
        assert(entries[i] == o);
        lemma_outcome_was_entry(dir, drop_ins, o);
        let k = choose|k: int|
            0 <= k < drop_ins.len() && entry_outcome(dir, #[trigger] drop_ins[k]) == Some(o);
        lemma_outcome_file(spec_join(dir, drop_ins[k].name), drop_ins[k].reading, f);
        assert(is_entry_name(drop_ins[k].name));
    } else {
        lemma_outcome_file(spec_root_file(home), root.unwrap(), f);
    }
}

} // verus!
