//! The priority order of credential sources.
//!
//! Sources are kept from the lowest priority to the highest. Three rules
//! decide between two of them, the first that applies:
//!
//! 1. where exactly one is the canonical credentials file, it ranks higher;
//! 2. where both have the same file stem and one of them is encrypted, the
//!    encrypted one ranks higher;
//! 3. otherwise the paths decide, in their order component by component.
//!
//! By the first rule a profile of the canonical file always wins over a
//! profile of the same name in a drop-in file. Drop-ins do not override the
//! canonical file.

use crate::loader::{is_root_path, FileSource, SourceView};
use crate::path::{
    components_precede, file_stem, lemma_components_asymmetric, lemma_components_irreflexive,
    lemma_components_total, lemma_components_transitive, path_precedes, same_path,
    spec_components, spec_file_stem, spec_path_precedes, spec_same_path, text_of,
};
use vstd::prelude::*;

verus! {

/// How one source ranks against another.
#[derive(Clone, Copy, Debug, PartialEq, Eq, Structural)]
pub enum Rank {
    /// Lower priority.
    Lower,
    /// The same source.
    Equal,
    /// Higher priority.
    Higher,
}

impl Rank {
    /// The rank seen from the other side.
    pub open spec fn flip(self) -> Rank {
        match self {
            Rank::Lower => Rank::Higher,
            Rank::Equal => Rank::Equal,
            Rank::Higher => Rank::Lower,
        }
    }
}

/// Whether two paths name files with the same stem.
pub open spec fn same_stem(a: Seq<char>, b: Seq<char>) -> bool {
    spec_file_stem(a) is Some && spec_file_stem(a) == spec_file_stem(b)
}

/// How two paths rank by their order, component by component. They rank
/// equal exactly where they are the same path.
pub open spec fn rank_paths(a: Seq<char>, b: Seq<char>) -> Rank {
    if spec_path_precedes(a, b) {
        Rank::Lower
    } else if spec_same_path(a, b) {
        Rank::Equal
    } else {
        Rank::Higher
    }
}

/// How source `a` ranks against source `b` for the user whose home
/// directory is `home`.
pub open spec fn spec_rank(a: SourceView, b: SourceView, home: Option<Seq<char>>) -> Rank {
    if is_root_path(a.path, home) && !is_root_path(b.path, home) {
        Rank::Higher
    } else if !is_root_path(a.path, home) && is_root_path(b.path, home) {
        Rank::Lower
    } else if same_stem(a.path, b.path) && a.encrypted && !b.encrypted {
        Rank::Higher
    } else if same_stem(a.path, b.path) && !a.encrypted && b.encrypted {
        Rank::Lower
    } else {
        rank_paths(a.path, b.path)
    }
}

/// The canonical credentials file outranks every other file, whatever the
/// names and whichever of the two is encrypted.
pub proof fn lemma_root_outranks(a: SourceView, b: SourceView, home: Option<Seq<char>>)
    requires
        is_root_path(a.path, home),
        !is_root_path(b.path, home),
    ensures
        spec_rank(a, b, home) == Rank::Higher,
        spec_rank(b, a, home) == Rank::Lower,
{
}

/// Of two files other than the canonical one that have the same stem, the
/// encrypted one outranks the plain one.
pub proof fn lemma_encrypted_outranks(a: SourceView, b: SourceView, home: Option<Seq<char>>)
    requires
        !is_root_path(a.path, home),
        !is_root_path(b.path, home),
        same_stem(a.path, b.path),
        a.encrypted,
        !b.encrypted,
    ensures
        spec_rank(a, b, home) == Rank::Higher,
        spec_rank(b, a, home) == Rank::Lower,
{
}

/// Swapping the two sources flips the rank.
pub proof fn lemma_rank_flips(a: SourceView, b: SourceView, home: Option<Seq<char>>)
    ensures
        spec_rank(b, a, home) == spec_rank(a, b, home).flip(),
{
    lemma_components_asymmetric(spec_components(a.path), spec_components(b.path));
    lemma_components_total(spec_components(a.path), spec_components(b.path));
    lemma_components_irreflexive(spec_components(a.path));
}

/// A source ranks equal to itself; sources that rank equal are the same
/// path; and the same path with the same flag ranks equal. The same path
/// with different flags ranks equal only where it has no file name.
pub proof fn lemma_rank_equal(a: SourceView, b: SourceView, home: Option<Seq<char>>)
    ensures
        spec_rank(a, a, home) == Rank::Equal,
        spec_rank(a, b, home) == Rank::Equal ==> spec_same_path(a.path, b.path),
        spec_same_path(a.path, b.path) && a.encrypted == b.encrypted ==> spec_rank(a, b, home)
            == Rank::Equal,
        spec_rank(a, b, home) == Rank::Equal && a.encrypted != b.encrypted ==> spec_file_stem(
            a.path,
        ) is None,
{
    lemma_components_irreflexive(spec_components(a.path));
}

/// Whether the second rule decides between two sources: they have the same
/// stem, and one of them is encrypted and the other is not.
pub open spec fn told_apart_by_encryption(a: SourceView, b: SourceView) -> bool {
    same_stem(a.path, b.path) && a.encrypted != b.encrypted
}

/// Among three sources of which no two are told apart by encryption, the
/// rank is transitive. (Where encryption decides, it need not be: an
/// encrypted `foo.asc` ranks below the plain `foo.asc.x` by its path, which
/// ranks below the plain `foo.ini` by its path, which ranks below
/// `foo.asc`.)
pub proof fn lemma_rank_transitive(
    a: SourceView,
    b: SourceView,
    c: SourceView,
    home: Option<Seq<char>>,
)
    requires
        !told_apart_by_encryption(a, b),
        !told_apart_by_encryption(b, c),
        !told_apart_by_encryption(a, c),
        spec_rank(a, b, home) == Rank::Lower,
        spec_rank(b, c, home) == Rank::Lower,
    ensures
        spec_rank(a, c, home) == Rank::Lower,
{
    let x = spec_components(a.path);
    let y = spec_components(b.path);
    let z = spec_components(c.path);
    lemma_components_irreflexive(x);
    lemma_components_asymmetric(x, y);
    lemma_components_asymmetric(y, z);
    if components_precede(x, y) && components_precede(y, z) {
        lemma_components_transitive(x, y, z);
    }
}

impl FileSource {
    /// How this source ranks against `other` under `home`.
    pub fn rank(&self, other: &FileSource, home: &Option<String>) -> (r: Rank)
        ensures
            r == spec_rank(self@, other@, text_of(*home)),
    {
        let self_root = self.is_root_in(home);
        let other_root = other.is_root_in(home);
        if self_root && !other_root {
            return Rank::Higher;
        }
        if !self_root && other_root {
            return Rank::Lower;
        }
        if self.encrypted != other.encrypted {
            let stem = file_stem(self.path.as_str());
            let other_stem = file_stem(other.path.as_str());
            let same = match stem {
                Some(s) => match other_stem {
                    Some(o) => s == o,
                    None => false,
                },
                None => false,
            };
            if same {
                return if self.encrypted {
                    Rank::Higher
                } else {
                    Rank::Lower
                };
            }
        }
        if path_precedes(self.path.as_str(), other.path.as_str()) {
            Rank::Lower
        } else if same_path(self.path.as_str(), other.path.as_str()) {
            Rank::Equal
        } else {
            Rank::Higher
        }
    }
}

} // verus!
