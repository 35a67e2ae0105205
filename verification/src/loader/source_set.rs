//! The ordered collection of loaded files.
//!
//! The files stand from the lowest priority to the highest. A file takes its
//! place in front of the first file that outranks it; a file that ranks
//! equal to one already present is not taken.

use crate::loader::credentials_file::{AwsCredentialsFile, FileView};
use crate::loader::rank::{lemma_rank_equal, lemma_rank_flips, spec_rank, Rank};
use crate::loader::SourceView;
use crate::path::{spec_same_path, text_of};
use crate::utils::homedir;
use vstd::prelude::*;

verus! {

/// The views of a sequence of files.
pub open spec fn file_views(files: Seq<AwsCredentialsFile>) -> Seq<FileView> {
    Seq::new(files.len(), |i: int| files[i]@)
}

/// How the file at `i` ranks against the file at `j`.
pub open spec fn rank_between(files: Seq<FileView>, i: int, j: int, home: Option<Seq<char>>) -> Rank {
    spec_rank(files[i].file, files[j].file, home)
}

/// Whether the file at `i` ranks below its successor.
pub open spec fn step_up(files: Seq<FileView>, i: int, home: Option<Seq<char>>) -> bool {
    rank_between(files, i, i + 1, home) == Rank::Lower
}

/// Each file ranks below the next one.
pub open spec fn ascending(files: Seq<FileView>, home: Option<Seq<char>>) -> bool {
    forall|i: int| 0 <= i < files.len() - 1 ==> #[trigger] step_up(files, i, home)
}

/// No two files rank equal.
pub open spec fn distinct(files: Seq<FileView>, home: Option<Seq<char>>) -> bool {
    forall|i: int, j: int|
        0 <= i < files.len() && 0 <= j < files.len() && i != j ==> #[trigger] rank_between(
            files,
            i,
            j,
            home,
        ) != Rank::Equal
}

/// The order that a collection of files keeps.
pub open spec fn well_ordered(files: Seq<FileView>, home: Option<Seq<char>>) -> bool {
    ascending(files, home) && distinct(files, home)
}

/// Whether a file of `files` ranks equal to the source `f`.
pub open spec fn holds(files: Seq<FileView>, f: SourceView, home: Option<Seq<char>>) -> bool {
    exists|i: int| 0 <= i < files.len() && #[trigger] spec_rank(f, files[i].file, home) == Rank::Equal
}

/// The place of the source `f` among `files`: the position of the first
/// file that outranks it, or the end where none does.
pub open spec fn place(files: Seq<FileView>, f: SourceView, home: Option<Seq<char>>) -> int
    decreases files.len(),
{
    if files.len() == 0 {
        0
    } else if place(files.drop_last(), f, home) < files.len() - 1 {
        place(files.drop_last(), f, home)
    } else if spec_rank(f, files.last().file, home) == Rank::Lower {
        files.len() - 1
    } else {
        files.len() as int
    }
}

/// `files` after the insertion of `f`.
pub open spec fn spec_insert(files: Seq<FileView>, f: FileView, home: Option<Seq<char>>) -> Seq<
    FileView,
> {
    if holds(files, f.file, home) {
        files
    } else {
        files.insert(place(files, f.file, home), f)
    }
}

/// `files` after the insertion of each file of `more`, in turn.
pub open spec fn spec_insert_all(
    files: Seq<FileView>,
    more: Seq<FileView>,
    home: Option<Seq<char>>,
) -> Seq<FileView>
    decreases more.len(),
{
    if more.len() == 0 {
        files
    } else {
        spec_insert(spec_insert_all(files, more.drop_last(), home), more.last(), home)
    }
}

/// The place of `f` is the first position whose file outranks `f`.
pub proof fn lemma_place(files: Seq<FileView>, f: SourceView, home: Option<Seq<char>>)
    ensures
        0 <= place(files, f, home) <= files.len(),
        place(files, f, home) < files.len() ==> spec_rank(
            f,
            files[place(files, f, home)].file,
            home,
        ) == Rank::Lower,
        forall|k: int|
            0 <= k < place(files, f, home) ==> spec_rank(f, #[trigger] files[k].file, home)
                != Rank::Lower,
    decreases files.len(),
{
    if files.len() > 0 {
        let front = files.drop_last();
        lemma_place(front, f, home);
        assert forall|k: int| 0 <= k < place(files, f, home) implies spec_rank(
            f,
            #[trigger] files[k].file,
            home,
        ) != Rank::Lower by {
            if k < front.len() {
                assert(front[k] == files[k]);
            }
        }
    }
}

/// A position that meets the description of `place` is the place.
pub proof fn lemma_place_unique(files: Seq<FileView>, f: SourceView, home: Option<Seq<char>>, p: int)
    requires
        0 <= p <= files.len(),
        p < files.len() ==> spec_rank(f, files[p].file, home) == Rank::Lower,
        forall|k: int| 0 <= k < p ==> spec_rank(f, #[trigger] files[k].file, home) != Rank::Lower,
    ensures
        place(files, f, home) == p,
{
    lemma_place(files, f, home);
    let q = place(files, f, home);
    if q < p {
        assert(spec_rank(f, files[q].file, home) != Rank::Lower);
    }
}

/// Insertion keeps the order of a well-ordered collection.
pub proof fn lemma_insert_well_ordered(files: Seq<FileView>, f: FileView, home: Option<Seq<char>>)
    requires
        well_ordered(files, home),
    ensures
        well_ordered(spec_insert(files, f, home), home),
{
    if !holds(files, f.file, home) {
        let p = place(files, f.file, home);
        let after = files.insert(p, f);
        lemma_place(files, f.file, home);
        assert forall|i: int| 0 <= i < after.len() - 1 implies #[trigger] step_up(
            after,
            i,
            home,
        ) by {
            if i + 1 < p {
                assert(step_up(files, i, home));
            } else if i + 1 == p {
                lemma_rank_flips(f.file, files[i].file, home);
                assert(spec_rank(f.file, files[i].file, home) != Rank::Equal);
            } else if i == p {
            } else {
                assert(step_up(files, i - 1, home));
            }
        }
        assert forall|i: int, j: int|
            0 <= i < after.len() && 0 <= j < after.len() && i != j implies #[trigger] rank_between(
            after,
            i,
            j,
            home,
        ) != Rank::Equal by {
            let oi = if i < p {
                i
            } else {
                i - 1
            };
            let oj = if j < p {
                j
            } else {
                j - 1
            };
            if i == p {
                assert(spec_rank(f.file, files[oj].file, home) != Rank::Equal);
            } else if j == p {
                lemma_rank_flips(f.file, files[oi].file, home);
                assert(spec_rank(f.file, files[oi].file, home) != Rank::Equal);
            } else {
                assert(rank_between(files, oi, oj, home) != Rank::Equal);
            }
        }
    }
}

/// In a well-ordered collection no two files have the same path and are
/// both encrypted: the collection is unique by the equality of files.
pub proof fn lemma_unique_by_equality(files: Seq<FileView>, home: Option<Seq<char>>)
    requires
        well_ordered(files, home),
    ensures
        forall|i: int, j: int|
            0 <= i < files.len() && 0 <= j < files.len() && i != j ==> !(spec_same_path(
                (#[trigger] files[i]).file.path,
                (#[trigger] files[j]).file.path,
            ) && files[i].file.encrypted && files[j].file.encrypted),
{
    assert forall|i: int, j: int|
        0 <= i < files.len() && 0 <= j < files.len() && i != j implies !(spec_same_path(
        (#[trigger] files[i]).file.path,
        (#[trigger] files[j]).file.path,
    ) && files[i].file.encrypted && files[j].file.encrypted) by {
        lemma_rank_equal(files[i].file, files[j].file, home);
        assert(rank_between(files, i, j, home) != Rank::Equal);
    }
}

/// Every file ranks below every later one.
pub open spec fn strictly_ascending(files: Seq<FileView>, home: Option<Seq<char>>) -> bool {
    forall|i: int, j: int|
        0 <= i < j < files.len() ==> #[trigger] rank_between(files, i, j, home) == Rank::Lower
}

/// Where the files with the new one among them are totally ordered, the
/// new one takes its sorted place, whatever was inserted before it.
pub proof fn lemma_insert_takes_sorted_place(
    files: Seq<FileView>,
    f: FileView,
    p: int,
    home: Option<Seq<char>>,
)
    requires
        0 <= p <= files.len(),
        strictly_ascending(files.insert(p, f), home),
    ensures
        spec_insert(files, f, home) == files.insert(p, f),
{
    let after = files.insert(p, f);
    assert forall|k: int| 0 <= k < files.len() implies if k < p {
        spec_rank(f.file, #[trigger] files[k].file, home) == Rank::Higher
    } else {
        spec_rank(f.file, files[k].file, home) == Rank::Lower
    } by {
        if k < p {
            assert(rank_between(after, k, p, home) == Rank::Lower);
            lemma_rank_flips(files[k].file, f.file, home);
        } else {
            assert(rank_between(after, p, k + 1, home) == Rank::Lower);
        }
    }
    lemma_place_unique(files, f.file, home, p);
}

/// Files that are totally ordered, inserted from the lowest to the highest
/// into an empty collection, stand in the collection as they were given.
pub proof fn lemma_populate_ascending(files: Seq<FileView>, home: Option<Seq<char>>)
    requires
        strictly_ascending(files, home),
    ensures
        spec_insert_all(Seq::empty(), files, home) == files,
    decreases files.len(),
{
    if files.len() > 0 {
        let front = files.drop_last();
        assert forall|i: int, j: int| 0 <= i < j < front.len() implies #[trigger] rank_between(
            front,
            i,
            j,
            home,
        ) == Rank::Lower by {
            assert(rank_between(files, i, j, home) == Rank::Lower);
        }
        lemma_populate_ascending(front, home);
        assert(front.insert(front.len() as int, files.last()) =~= files);
        lemma_insert_takes_sorted_place(front, files.last(), front.len() as int, home);
    } else {
        assert(files =~= Seq::empty());
    }
}

/// Loaded files in priority order, lowest first, no two of them equal in
/// rank.
pub struct SourceSet {
    files: Vec<AwsCredentialsFile>,
    home: Option<String>,
}

impl View for SourceSet {
    type V = Seq<FileView>;

    closed spec fn view(&self) -> Seq<FileView> {
        file_views(self.files@)
    }
}

impl SourceSet {
    /// The home directory by which the files are ranked.
    pub closed spec fn home(&self) -> Option<Seq<char>> {
        text_of(self.home)
    }

    #[verifier::type_invariant]
    spec fn inv(&self) -> bool {
        well_ordered(self@, self.home())
    }

    /// States the order that every collection keeps, for callers to rely
    /// on. Does nothing when run.
    pub fn ordered(&self)
        ensures
            well_ordered(self@, self.home()),
    {
        proof {
            use_type_invariant(self);
        }
    }

    /// An empty collection that ranks files by the given home directory.
    pub fn with_home(home: Option<String>) -> (r: Self)
        ensures
            r@ == Seq::<FileView>::empty(),
            r.home() == text_of(home),
    {
        let r = SourceSet { files: Vec::new(), home };
        assert(r@ =~= Seq::<FileView>::empty());
        r
    }

    /// An empty collection that ranks files by the home directory of the
    /// current user, looked up once.
    pub fn new() -> (r: Self)
        ensures
            r@ == Seq::<FileView>::empty(),
    {
        SourceSet::with_home(homedir())
    }

    /// The home directory by which the files are ranked.
    pub fn home_dir(&self) -> (r: &Option<String>)
        ensures
            text_of(*r) == self.home(),
    {
        &self.home
    }

    /// The number of files.
    pub fn len(&self) -> (n: usize)
        ensures
            n == self@.len(),
    {
        self.files.len()
    }

    /// The file at position `i`, counted from the lowest priority.
    pub fn get(&self, i: usize) -> (r: Option<&AwsCredentialsFile>)
        ensures
            match r {
                Some(f) => i < self@.len() && f@ == self@[i as int],
                None => i >= self@.len(),
            },
    {
        if i < self.files.len() {
            Some(&self.files[i])
        } else {
            None
        }
    }

    /// Puts `value` in its place. Returns whether it was taken: a file that
    /// ranks equal to one already present is dropped.
    pub fn insert(&mut self, value: AwsCredentialsFile) -> (taken: bool)
        ensures
            final(self)@ == spec_insert(old(self)@, value@, old(self).home()),
            final(self).home() == old(self).home(),
            taken == !holds(old(self)@, value@.file, old(self).home()),
            well_ordered(final(self)@, final(self).home()),
    {
        proof {
            use_type_invariant(&*self);
            lemma_insert_well_ordered(self@, value@, self.home());
        }
        let n = self.files.len();
        let mut at: usize = n;
        let mut i: usize = 0;
        while i < n
            invariant
                i <= n,
                n == self.files@.len(),
                well_ordered(self@, self.home()),
                at <= n,
                at < n ==> at < i && spec_rank(value@.file, self@[at as int].file, self.home())
                    == Rank::Lower,
                forall|k: int|
                    0 <= k < i && k < at ==> spec_rank(
                        value@.file,
                        #[trigger] self@[k].file,
                        self.home(),
                    ) != Rank::Lower,
                forall|k: int|
                    0 <= k < i ==> spec_rank(value@.file, #[trigger] self@[k].file, self.home())
                        != Rank::Equal,
            decreases n - i,
        {
            let r = value.rank(&self.files[i], &self.home);
            assert(self@[i as int] == self.files@[i as int]@);
            match r {
                Rank::Equal => {
                    return false;
                },
                Rank::Lower => {
                    if at == n {
                        at = i;
                    }
                },
                Rank::Higher => {},
            }
            i += 1;
        }
        proof {
            lemma_place_unique(self@, value@.file, self.home(), at as int);
            assert(!holds(self@, value@.file, self.home()));
            assert(file_views(self.files@.insert(at as int, value)) =~= self@.insert(
                at as int,
                value@,
            ));
        }
        let mut files: Vec<AwsCredentialsFile> = Vec::new();
        assert(file_views(files@) =~= Seq::<FileView>::empty());
        core::mem::swap(&mut self.files, &mut files);
        files.insert(at, value);
        core::mem::swap(&mut self.files, &mut files);
        true
    }

    /// The files, lowest priority first.
    pub fn into_vec(self) -> (r: Vec<AwsCredentialsFile>)
        ensures
            file_views(r@) == self@,
            well_ordered(self@, self.home()),
    {
        proof {
            use_type_invariant(&self);
        }
        self.files
    }
}

} // verus!
