//! Paths as text.
//!
//! A path is a sequence of characters in which `/` separates the components.
//! A separator at the start is the root. Empty components and `.` components
//! count for nothing, but for a `.` at the very start of a path without a
//! root; `..` is the parent directory; anything else is a name. Two paths are
//! the same where they have the same components, and paths are ordered
//! component by component: `/x/a/b` and `/x/a//b/` are the same path, and
//! `/x/a/b` comes before `/x/a.b`.
//!
//! The functions here take a path apart, split a file name into stem and
//! extension, join paths, and tell whether two paths are the same and which
//! comes first, each against a specification over `Seq<char>`.

use vstd::prelude::*;

verus! {

/// The position of the last occurrence of `c` in `s`, or -1 where `s` has none.
pub open spec fn last_index_of(s: Seq<char>, c: char) -> int
    decreases s.len(),
{
    if s.len() == 0 {
        -1
    } else if s.last() == c {
        s.len() - 1
    } else {
        last_index_of(s.drop_last(), c)
    }
}

/// `last_index_of` names an occurrence of `c` after which `c` does not occur again.
pub proof fn lemma_last_index_of(s: Seq<char>, c: char)
    ensures
        -1 <= last_index_of(s, c) < s.len(),
        last_index_of(s, c) >= 0 ==> s[last_index_of(s, c)] == c,
        forall|j: int| last_index_of(s, c) < j < s.len() ==> s[j] != c,
    decreases s.len(),
{
    if s.len() > 0 && s.last() != c {
        let t = s.drop_last();
        lemma_last_index_of(t, c);
        assert forall|j: int| last_index_of(s, c) < j < s.len() implies s[j] != c by {
            if j < t.len() {
                assert(t[j] == s[j]);
            }
        }
    }
}

/// An occurrence of `c` that no other follows is the last one.
pub proof fn lemma_last_index_of_unique(s: Seq<char>, c: char, i: int)
    requires
        -1 <= i < s.len(),
        i >= 0 ==> s[i] == c,
        forall|j: int| i < j < s.len() ==> s[j] != c,
    ensures
        last_index_of(s, c) == i,
{
    lemma_last_index_of(s, c);
}

/// The kind of a component of a path.
#[derive(Clone, Copy, Debug, PartialEq, Eq, Structural)]
pub enum PartKind {
    /// The root: a separator at the start of the path.
    RootDir,
    /// The current directory: `.` at the start of a path without a root.
    CurDir,
    /// The parent directory: `..`.
    ParentDir,
    /// A name.
    Normal,
}

/// One component of a path, by its kind and its place in the text.
#[derive(Clone, Copy, Debug)]
pub struct Part {
    pub kind: PartKind,
    /// Where the component starts.
    pub start: usize,
    /// Where the component ends: the position after its last character.
    pub end: usize,
}

/// What a `Part` is, mathematically.
pub struct Span {
    pub kind: PartKind,
    pub start: int,
    pub end: int,
}

impl View for Part {
    type V = Span;

    open spec fn view(&self) -> Span {
        Span { kind: self.kind, start: self.start as int, end: self.end as int }
    }
}

/// The views of a sequence of parts.
pub open spec fn part_views(parts: Seq<Part>) -> Seq<Span> {
    Seq::new(parts.len(), |i: int| parts[i]@)
}

/// The component that the text of `p` from `start` up to `end` makes, where
/// separators bound it: none where it is empty or `.`, the parent directory
/// where it is `..`, a name otherwise.
pub open spec fn piece_spans(p: Seq<char>, start: int, end: int) -> Seq<Span> {
    if end <= start {
        Seq::empty()
    } else if end == start + 1 && p[start] == '.' {
        Seq::empty()
    } else if end == start + 2 && p[start] == '.' && p[start + 1] == '.' {
        seq![Span { kind: PartKind::ParentDir, start, end }]
    } else {
        seq![Span { kind: PartKind::Normal, start, end }]
    }
}

/// The components of `p` from position `start` on, where the text from
/// `start` up to `i` has no separator.
pub open spec fn spans_from(p: Seq<char>, start: int, i: int) -> Seq<Span>
    decreases p.len() - i,
{
    if i >= p.len() {
        piece_spans(p, start, p.len() as int)
    } else if p[i] == '/' {
        piece_spans(p, start, i) + spans_from(p, i + 1, i + 1)
    } else {
        spans_from(p, start, i + 1)
    }
}

/// Whether `p` starts at the root.
pub open spec fn has_root(p: Seq<char>) -> bool {
    p.len() > 0 && p[0] == '/'
}

/// Whether `p` starts with the current directory.
pub open spec fn starts_with_cur_dir(p: Seq<char>) -> bool {
    p.len() > 0 && p[0] == '.' && (p.len() == 1 || p[1] == '/')
}

/// The component that the start of `p` makes by itself: the root, or the
/// current directory.
pub open spec fn head_spans(p: Seq<char>) -> Seq<Span> {
    if has_root(p) {
        seq![Span { kind: PartKind::RootDir, start: 0, end: 1 }]
    } else if starts_with_cur_dir(p) {
        seq![Span { kind: PartKind::CurDir, start: 0, end: 1 }]
    } else {
        Seq::empty()
    }
}

/// The components of `p`, each by its place in `p`.
pub open spec fn spec_spans(p: Seq<char>) -> Seq<Span> {
    head_spans(p) + spans_from(p, 0, 0)
}

/// Whether the spans lie within `low` and `high`, none of them empty, one
/// after the other.
pub open spec fn spans_in_order(spans: Seq<Span>, low: int, high: int) -> bool {
    &&& forall|k: int|
        0 <= k < spans.len() ==> low <= (#[trigger] spans[k]).start < spans[k].end <= high
    &&& forall|k: int, l: int|
        0 <= k < l < spans.len() ==> (#[trigger] spans[k]).end <= (#[trigger] spans[l]).start
}

/// The components from a position on lie in the text from there on, one
/// after the other.
pub proof fn lemma_spans_from(p: Seq<char>, start: int, i: int)
    requires
        0 <= start <= i <= p.len(),
    ensures
        spans_in_order(spans_from(p, start, i), start, p.len() as int),
    decreases p.len() - i,
{
    if i < p.len() {
        if p[i] == '/' {
            let first = piece_spans(p, start, i);
            let rest = spans_from(p, i + 1, i + 1);
            lemma_spans_from(p, i + 1, i + 1);
            let all = first + rest;
            assert forall|k: int| 0 <= k < all.len() implies start <= (#[trigger] all[k]).start
                < all[k].end <= p.len() by {
                if k >= first.len() {
                    assert(all[k] == rest[k - first.len()]);
                }
            }
            assert forall|k: int, l: int| 0 <= k < l < all.len() implies (#[trigger] all[k]).end
                <= (#[trigger] all[l]).start by {
                assert(all[l] == rest[l - first.len()]);
                if k >= first.len() {
                    assert(all[k] == rest[k - first.len()]);
                }
            }
        } else {
            lemma_spans_from(p, start, i + 1);
        }
    }
}

/// The components of a path lie in its text, none of them empty, one after
/// the other.
pub proof fn lemma_spans(p: Seq<char>)
    ensures
        spans_in_order(spec_spans(p), 0, p.len() as int),
{
    let head = head_spans(p);
    let body = spans_from(p, 0, 0);
    let all = spec_spans(p);
    lemma_spans_from(p, 0, 0);
    if has_root(p) {
        assert(body == spans_from(p, 1, 1));
        lemma_spans_from(p, 1, 1);
    } else if starts_with_cur_dir(p) {
        assert(body == spans_from(p, 0, 1));
        if p.len() > 1 {
            assert(spans_from(p, 0, 1) =~= spans_from(p, 2, 2));
            lemma_spans_from(p, 2, 2);
        }
    }
    assert forall|k: int| 0 <= k < all.len() implies 0 <= (#[trigger] all[k]).start < all[k].end
        <= p.len() by {
        if k >= head.len() {
            assert(all[k] == body[k - head.len()]);
        }
    }
    assert forall|k: int, l: int| 0 <= k < l < all.len() implies (#[trigger] all[k]).end <= (
    #[trigger] all[l]).start by {
        assert(all[l] == body[l - head.len()]);
        if k >= head.len() {
            assert(all[k] == body[k - head.len()]);
        }
    }
}

/// One component of a path: what it is, without its place.
pub enum Component {
    RootDir,
    CurDir,
    ParentDir,
    Normal(Seq<char>),
}

/// The component of `p` at the span `s`.
pub open spec fn component_of(p: Seq<char>, s: Span) -> Component {
    match s.kind {
        PartKind::RootDir => Component::RootDir,
        PartKind::CurDir => Component::CurDir,
        PartKind::ParentDir => Component::ParentDir,
        PartKind::Normal => Component::Normal(p.subrange(s.start, s.end)),
    }
}

/// The components of `p`.
pub open spec fn spec_components(p: Seq<char>) -> Seq<Component> {
    Seq::new(spec_spans(p).len(), |i: int| component_of(p, spec_spans(p)[i]))
}

/// Whether two texts are the same path: they have the same components.
pub open spec fn spec_same_path(a: Seq<char>, b: Seq<char>) -> bool {
    spec_components(a) == spec_components(b)
}

/// The file name of `p`: its last component, where that is a name. A path
/// that is empty, is the root or the current directory, or ends in `..`
/// has none.
pub open spec fn spec_file_name(p: Seq<char>) -> Option<Seq<char>> {
    if spec_components(p).len() > 0 {
        match spec_components(p).last() {
            Component::Normal(name) => Some(name),
            _ => None,
        }
    } else {
        None
    }
}

/// The stem of a file name: the text before its last dot. A name without a
/// dot, or whose only dot is its first character, is its own stem.
pub open spec fn stem_of_name(n: Seq<char>) -> Seq<char> {
    if last_index_of(n, '.') <= 0 {
        n
    } else {
        n.subrange(0, last_index_of(n, '.'))
    }
}

/// The extension of a file name: the text after its last dot, where the name
/// has a dot that is not its first character.
pub open spec fn extension_of_name(n: Seq<char>) -> Option<Seq<char>> {
    if last_index_of(n, '.') <= 0 {
        None
    } else {
        Some(n.subrange(last_index_of(n, '.') + 1, n.len() as int))
    }
}

/// The stem of the file that `p` names.
pub open spec fn spec_file_stem(p: Seq<char>) -> Option<Seq<char>> {
    match spec_file_name(p) {
        Some(n) => Some(stem_of_name(n)),
        None => None,
    }
}

/// The extension of the file that `p` names.
pub open spec fn spec_extension(p: Seq<char>) -> Option<Seq<char>> {
    match spec_file_name(p) {
        Some(n) => extension_of_name(n),
        None => None,
    }
}

/// `base` extended by `part`. An absolute `part` replaces `base`; otherwise a
/// separator is put between the two unless `base` is empty or ends in one.
pub open spec fn spec_join(base: Seq<char>, part: Seq<char>) -> Seq<char> {
    if part.len() > 0 && part[0] == '/' {
        part
    } else if base.len() == 0 || base.last() == '/' {
        base + part
    } else {
        base.push('/') + part
    }
}

/// Lexicographic order by code point: `a` comes strictly before `b`.
pub open spec fn spec_precedes(a: Seq<char>, b: Seq<char>) -> bool
    decreases a.len(),
{
    if b.len() == 0 {
        false
    } else if a.len() == 0 {
        true
    } else if a[0] != b[0] {
        (a[0] as int) < (b[0] as int)
    } else {
        spec_precedes(a.drop_first(), b.drop_first())
    }
}

/// No text comes before itself.
pub proof fn lemma_precedes_irreflexive(a: Seq<char>)
    ensures
        !spec_precedes(a, a),
    decreases a.len(),
{
    if a.len() > 0 {
        lemma_precedes_irreflexive(a.drop_first());
    }
}

/// Of two texts at most one comes before the other.
pub proof fn lemma_precedes_asymmetric(a: Seq<char>, b: Seq<char>)
    ensures
        !(spec_precedes(a, b) && spec_precedes(b, a)),
    decreases a.len(),
{
    if a.len() > 0 && b.len() > 0 && a[0] == b[0] {
        lemma_precedes_asymmetric(a.drop_first(), b.drop_first());
    }
}

/// Two different texts are ordered one way or the other.
pub proof fn lemma_precedes_total(a: Seq<char>, b: Seq<char>)
    ensures
        spec_precedes(a, b) || spec_precedes(b, a) || a == b,
    decreases a.len(),
{
    if a.len() > 0 && b.len() > 0 && a[0] == b[0] {
        lemma_precedes_total(a.drop_first(), b.drop_first());
        if a.drop_first() == b.drop_first() {
            assert(a =~= seq![a[0]] + a.drop_first());
            assert(b =~= seq![b[0]] + b.drop_first());
        }
    } else if a.len() == 0 && b.len() == 0 {
        assert(a =~= b);
    } else if a.len() > 0 && b.len() > 0 {
        assert(a[0] as int != b[0] as int);
    }
}

/// The order is transitive.
pub proof fn lemma_precedes_transitive(a: Seq<char>, b: Seq<char>, c: Seq<char>)
    requires
        spec_precedes(a, b),
        spec_precedes(b, c),
    ensures
        spec_precedes(a, c),
    decreases a.len(),
{
    if a.len() > 0 && a[0] == b[0] && b[0] == c[0] {
        lemma_precedes_transitive(a.drop_first(), b.drop_first(), c.drop_first());
    }
}

/// The view of an optional text.
pub open spec fn text_of(o: Option<String>) -> Option<Seq<char>> {
    match o {
        Some(s) => Some(s@),
        None => None,
    }
}

/// Whether two texts hold the same characters.
pub fn same_text(a: &str, b: &str) -> (r: bool)
    ensures
        r == (a@ == b@),
{
    let n = a.unicode_len();
    if n != b.unicode_len() {
        return false;
    }
    let mut i: usize = 0;
    while i < n
        invariant
            i <= n,
            n == a@.len(),
            n == b@.len(),
            forall|j: int| 0 <= j < i ==> a@[j] == b@[j],
        decreases n - i,
    {
        if a.get_char(i) != b.get_char(i) {
            return false;
        }
        i += 1;
    }
    assert(a@ =~= b@);
    true
}

/// Whether `a` comes strictly before `b` in lexicographic order.
pub fn precedes(a: &str, b: &str) -> (r: bool)
    ensures
        r == spec_precedes(a@, b@),
{
    let n = a.unicode_len();
    let m = b.unicode_len();
    let mut i: usize = 0;
    assert(a@.skip(0) =~= a@ && b@.skip(0) =~= b@);
    while i < n && i < m
        invariant
            i <= n,
            i <= m,
            n == a@.len(),
            m == b@.len(),
            spec_precedes(a@, b@) == spec_precedes(a@.skip(i as int), b@.skip(i as int)),
        decreases n - i,
    {
        let x = a.get_char(i);
        let y = b.get_char(i);
        proof {
            assert(a@.skip(i as int)[0] == x);
            assert(b@.skip(i as int)[0] == y);
            assert(a@.skip(i as int).drop_first() =~= a@.skip(i + 1));
            assert(b@.skip(i as int).drop_first() =~= b@.skip(i + 1));
        }
        if x != y {
            return x < y;
        }
        i += 1;
    }
    assert(a@.skip(i as int).len() == n - i);
    assert(b@.skip(i as int).len() == m - i);
    i < m
}

/// The position of the last occurrence of `c` in `s`.
pub fn find_last(s: &str, c: char) -> (r: Option<usize>)
    ensures
        match r {
            Some(i) => last_index_of(s@, c) == i && i < s@.len(),
            None => last_index_of(s@, c) == -1,
        },
{
    let n = s.unicode_len();
    let mut i: usize = n;
    while i > 0
        invariant
            i <= n,
            n == s@.len(),
            forall|j: int| i <= j < n ==> s@[j] != c,
        decreases i,
    {
        i -= 1;
        if s.get_char(i) == c {
            proof {
                lemma_last_index_of_unique(s@, c, i as int);
            }
            return Some(i);
        }
    }
    proof {
        lemma_last_index_of_unique(s@, c, -1);
    }
    None
}

/// Puts the component that the text from `start` up to `end` makes, if it
/// makes one, at the end of `out`.
fn push_piece(out: &mut Vec<Part>, path: &str, start: usize, end: usize)
    requires
        start <= end <= path@.len(),
    ensures
        part_views(final(out)@) == part_views(old(out)@) + piece_spans(
            path@,
            start as int,
            end as int,
        ),
{
    let ghost before = out@;
    if end > start {
        let dot = path.get_char(start) == '.';
        if end - start == 1 && dot {
        } else if end - start == 2 && dot && path.get_char(start + 1) == '.' {
            out.push(Part { kind: PartKind::ParentDir, start, end });
        } else {
            out.push(Part { kind: PartKind::Normal, start, end });
        }
    }
    assert(part_views(out@) =~= part_views(before) + piece_spans(
        path@,
        start as int,
        end as int,
    ));
}

/// The components of `path`, each by its place in `path`.
pub fn parts(path: &str) -> (r: Vec<Part>)
    ensures
        part_views(r@) == spec_spans(path@),
        spans_in_order(part_views(r@), 0, path@.len() as int),
{
    let n = path.unicode_len();
    let mut out: Vec<Part> = Vec::new();
    if n > 0 {
        let first = path.get_char(0);
        if first == '/' {
            out.push(Part { kind: PartKind::RootDir, start: 0, end: 1 });
        } else if first == '.' && (n == 1 || path.get_char(1) == '/') {
            out.push(Part { kind: PartKind::CurDir, start: 0, end: 1 });
        }
    }
    assert(part_views(out@) =~= head_spans(path@));
    let mut start: usize = 0;
    let mut i: usize = 0;
    while i < n
        invariant
            start <= i <= n,
            n == path@.len(),
            spec_spans(path@) == part_views(out@) + spans_from(path@, start as int, i as int),
        decreases n - i,
    {
        if path.get_char(i) == '/' {
            let ghost before = part_views(out@);
            push_piece(&mut out, path, start, i);
            assert(before + (piece_spans(path@, start as int, i as int) + spans_from(
                path@,
                i + 1,
                i + 1,
            )) =~= part_views(out@) + spans_from(path@, i + 1, i + 1));
            start = i + 1;
        }
        i += 1;
    }
    push_piece(&mut out, path, start, n);
    proof {
        lemma_spans(path@);
    }
    out
}

/// The text of one component of `path`.
fn part_text<'a>(path: &'a str, part: &Part) -> (r: &'a str)
    requires
        part.start <= part.end <= path@.len(),
    ensures
        r@ == path@.subrange(part.start as int, part.end as int),
{
    path.substring_char(part.start, part.end)
}

/// Whether a component of `a` and a component of `b` are the same.
fn same_part(a: &str, x: &Part, b: &str, y: &Part) -> (r: bool)
    requires
        x.start <= x.end <= a@.len(),
        y.start <= y.end <= b@.len(),
    ensures
        r == (component_of(a@, x@) == component_of(b@, y@)),
{
    match x.kind {
        PartKind::Normal => match y.kind {
            PartKind::Normal => same_text(part_text(a, x), part_text(b, y)),
            _ => false,
        },
        PartKind::RootDir => match y.kind {
            PartKind::RootDir => true,
            _ => false,
        },
        PartKind::CurDir => match y.kind {
            PartKind::CurDir => true,
            _ => false,
        },
        PartKind::ParentDir => match y.kind {
            PartKind::ParentDir => true,
            _ => false,
        },
    }
}

/// Whether `a` and `b` are the same path.
pub fn same_path(a: &str, b: &str) -> (r: bool)
    ensures
        r == spec_same_path(a@, b@),
{
    let x = parts(a);
    let y = parts(b);
    let n = x.len();
    if n != y.len() {
        assert(spec_components(a@).len() != spec_components(b@).len());
        return false;
    }
    let mut i: usize = 0;
    while i < n
        invariant
            i <= n,
            n == x@.len(),
            n == y@.len(),
            part_views(x@) == spec_spans(a@),
            part_views(y@) == spec_spans(b@),
            spans_in_order(part_views(x@), 0, a@.len() as int),
            spans_in_order(part_views(y@), 0, b@.len() as int),
            forall|k: int| 0 <= k < i ==> spec_components(a@)[k] == spec_components(b@)[k],
        decreases n - i,
    {
        assert(part_views(x@)[i as int] == x@[i as int]@);
        assert(part_views(y@)[i as int] == y@[i as int]@);
        if !same_part(a, &x[i], b, &y[i]) {
            assert(spec_components(a@)[i as int] != spec_components(b@)[i as int]);
            return false;
        }
        i += 1;
    }
    assert(spec_components(a@) =~= spec_components(b@));
    true
}

/// The file name of `path`, where it has one.
pub fn file_name(path: &str) -> (r: Option<String>)
    ensures
        text_of(r) == spec_file_name(path@),
{
    let all = parts(path);
    let n = all.len();
    if n == 0 {
        return None;
    }
    let last = &all[n - 1];
    assert(part_views(all@)[n - 1] == all@[n - 1]@);
    match last.kind {
        PartKind::Normal => Some(part_text(path, last).to_owned()),
        _ => None,
    }
}

/// The stem of the file that `path` names.
pub fn file_stem(path: &str) -> (r: Option<String>)
    ensures
        text_of(r) == spec_file_stem(path@),
{
    match file_name(path) {
        Some(name) => {
            match find_last(name.as_str(), '.') {
                Some(d) => {
                    if d == 0 {
                        Some(name)
                    } else {
                        Some(name.as_str().substring_char(0, d).to_owned())
                    }
                },
                None => Some(name),
            }
        },
        None => None,
    }
}

/// The extension of the file that `path` names.
pub fn extension(path: &str) -> (r: Option<String>)
    ensures
        text_of(r) == spec_extension(path@),
{
    match file_name(path) {
        Some(name) => {
            let n = name.as_str().unicode_len();
            match find_last(name.as_str(), '.') {
                Some(d) => {
                    if d == 0 {
                        None
                    } else {
                        Some(name.as_str().substring_char(d + 1, n).to_owned())
                    }
                },
                None => None,
            }
        },
        None => None,
    }
}

/// `base` extended by `part`.
pub fn join(base: &str, part: &str) -> (r: String)
    ensures
        r@ == spec_join(base@, part@),
{
    let n = base.unicode_len();
    let m = part.unicode_len();
    if m > 0 && part.get_char(0) == '/' {
        return part.to_owned();
    }
    let mut r = base.to_owned();
    if n > 0 && base.get_char(n - 1) != '/' {
        proof {
            reveal_strlit("/");
        }
        r.append("/");
        assert(r@ =~= base@.push('/'));
    }
    r.append(part);
    r
}

/// What is left of `p` below the directory `dir`: the text of `p` from its
/// first component after those of `dir` to its last, where the components
/// of `p` begin with those of `dir`; nothing where they are the same path.
pub open spec fn spec_relative_to(p: Seq<char>, dir: Seq<char>) -> Option<Seq<char>> {
    if spec_spans(dir).len() <= spec_spans(p).len() && spec_components(p).take(
        spec_spans(dir).len() as int,
    ) == spec_components(dir) {
        if spec_spans(dir).len() == spec_spans(p).len() {
            Some(Seq::<char>::empty())
        } else {
            Some(p.subrange(spec_spans(p)[spec_spans(dir).len() as int].start, spec_spans(p).last().end))
        }
    } else {
        None
    }
}

/// What is left of `p` below the directory `dir`.
pub fn relative_to(p: &str, dir: &str) -> (r: Option<String>)
    ensures
        text_of(r) == spec_relative_to(p@, dir@),
{
    let x = parts(p);
    let y = parts(dir);
    let n = y.len();
    if n > x.len() {
        return None;
    }
    let mut i: usize = 0;
    while i < n
        invariant
            i <= n,
            n == y@.len(),
            n <= x@.len(),
            part_views(x@) == spec_spans(p@),
            part_views(y@) == spec_spans(dir@),
            spans_in_order(part_views(x@), 0, p@.len() as int),
            spans_in_order(part_views(y@), 0, dir@.len() as int),
            forall|k: int| 0 <= k < i ==> spec_components(p@)[k] == spec_components(dir@)[k],
        decreases n - i,
    {
        assert(part_views(x@)[i as int] == x@[i as int]@);
        assert(part_views(y@)[i as int] == y@[i as int]@);
        if !same_part(p, &x[i], dir, &y[i]) {
            assert(spec_components(p@).take(n as int)[i as int] != spec_components(dir@)[i as int]);
            return None;
        }
        i += 1;
    }
    assert(spec_components(p@).take(n as int) =~= spec_components(dir@));
    if n == x.len() {
        let rest = p.substring_char(0, 0).to_owned();
        assert(rest@ =~= Seq::<char>::empty());
        Some(rest)
    } else {
        let first = &x[n];
        let last = &x[x.len() - 1];
        assert(part_views(x@)[n as int] == x@[n as int]@);
        assert(part_views(x@)[x@.len() - 1] == x@[x@.len() - 1]@);
        assert(first.start < first.end <= last.end);
        Some(p.substring_char(first.start, last.end).to_owned())
    }
}

/// The place of a component among the kinds: the root first, then the
/// current directory, the parent directory, and names.
pub open spec fn kind_rank(c: Component) -> int {
    match c {
        Component::RootDir => 0,
        Component::CurDir => 1,
        Component::ParentDir => 2,
        Component::Normal(_) => 3,
    }
}

/// Whether the component `c` comes strictly before `d`: by kind, and two
/// names by their texts.
pub open spec fn component_precedes(c: Component, d: Component) -> bool {
    match (c, d) {
        (Component::Normal(x), Component::Normal(y)) => spec_precedes(x, y),
        _ => kind_rank(c) < kind_rank(d),
    }
}

/// Lexicographic order of component sequences: `x` comes strictly before
/// `y`.
pub open spec fn components_precede(x: Seq<Component>, y: Seq<Component>) -> bool
    decreases x.len(),
{
    if y.len() == 0 {
        false
    } else if x.len() == 0 {
        true
    } else if x[0] != y[0] {
        component_precedes(x[0], y[0])
    } else {
        components_precede(x.drop_first(), y.drop_first())
    }
}

/// Whether the path `a` comes strictly before the path `b`, component by
/// component.
pub open spec fn spec_path_precedes(a: Seq<char>, b: Seq<char>) -> bool {
    components_precede(spec_components(a), spec_components(b))
}

/// Of two different components exactly one comes before the other, and no
/// component comes before itself.
pub proof fn lemma_component_order(c: Component, d: Component)
    ensures
        !component_precedes(c, c),
        !(component_precedes(c, d) && component_precedes(d, c)),
        c != d ==> component_precedes(c, d) || component_precedes(d, c),
{
    match (c, d) {
        (Component::Normal(x), Component::Normal(y)) => {
            lemma_precedes_irreflexive(x);
            lemma_precedes_asymmetric(x, y);
            lemma_precedes_total(x, y);
        },
        (Component::Normal(x), _) => {
            lemma_precedes_irreflexive(x);
        },
        _ => {},
    }
}

/// The order of components is transitive.
pub proof fn lemma_component_transitive(c: Component, d: Component, e: Component)
    requires
        component_precedes(c, d),
        component_precedes(d, e),
    ensures
        component_precedes(c, e),
{
    match (c, d, e) {
        (Component::Normal(x), Component::Normal(y), Component::Normal(z)) => {
            lemma_precedes_transitive(x, y, z);
        },
        _ => {},
    }
}

/// No sequence of components comes before itself.
pub proof fn lemma_components_irreflexive(x: Seq<Component>)
    ensures
        !components_precede(x, x),
    decreases x.len(),
{
    if x.len() > 0 {
        lemma_components_irreflexive(x.drop_first());
    }
}

/// Of two sequences of components at most one comes before the other.
pub proof fn lemma_components_asymmetric(x: Seq<Component>, y: Seq<Component>)
    ensures
        !(components_precede(x, y) && components_precede(y, x)),
    decreases x.len(),
{
    if x.len() > 0 && y.len() > 0 {
        if x[0] == y[0] {
            lemma_components_asymmetric(x.drop_first(), y.drop_first());
        } else {
            lemma_component_order(x[0], y[0]);
        }
    }
}

/// Two different sequences of components are ordered one way or the other.
pub proof fn lemma_components_total(x: Seq<Component>, y: Seq<Component>)
    ensures
        components_precede(x, y) || components_precede(y, x) || x == y,
    decreases x.len(),
{
    if x.len() > 0 && y.len() > 0 {
        if x[0] == y[0] {
            lemma_components_total(x.drop_first(), y.drop_first());
            if x.drop_first() == y.drop_first() {
                assert(x =~= seq![x[0]] + x.drop_first());
                assert(y =~= seq![y[0]] + y.drop_first());
            }
        } else {
            lemma_component_order(x[0], y[0]);
        }
    } else if x.len() == 0 && y.len() == 0 {
        assert(x =~= y);
    }
}

/// The order of component sequences is transitive.
pub proof fn lemma_components_transitive(x: Seq<Component>, y: Seq<Component>, z: Seq<Component>)
    requires
        components_precede(x, y),
        components_precede(y, z),
    ensures
        components_precede(x, z),
    decreases x.len(),
{
    if x.len() > 0 {
        if x[0] == y[0] && y[0] == z[0] {
            lemma_components_transitive(x.drop_first(), y.drop_first(), z.drop_first());
        } else if x[0] != y[0] && y[0] != z[0] {
            lemma_component_transitive(x[0], y[0], z[0]);
            lemma_component_order(x[0], z[0]);
        }
    }
}

/// Whether a component of `a` comes strictly before a component of `b`.
fn part_precedes(a: &str, x: &Part, b: &str, y: &Part) -> (r: bool)
    requires
        x.start <= x.end <= a@.len(),
        y.start <= y.end <= b@.len(),
    ensures
        r == component_precedes(component_of(a@, x@), component_of(b@, y@)),
{
    match x.kind {
        PartKind::Normal => match y.kind {
            PartKind::Normal => precedes(part_text(a, x), part_text(b, y)),
            _ => false,
        },
        PartKind::ParentDir => match y.kind {
            PartKind::Normal => true,
            _ => false,
        },
        PartKind::CurDir => match y.kind {
            PartKind::Normal => true,
            PartKind::ParentDir => true,
            _ => false,
        },
        PartKind::RootDir => match y.kind {
            PartKind::RootDir => false,
            _ => true,
        },
    }
}

/// Whether the path `a` comes strictly before the path `b`.
pub fn path_precedes(a: &str, b: &str) -> (r: bool)
    ensures
        r == spec_path_precedes(a@, b@),
{
    let x = parts(a);
    let y = parts(b);
    let n = x.len();
    let m = y.len();
    let ghost cx = spec_components(a@);
    let ghost cy = spec_components(b@);
    let mut i: usize = 0;
    assert(cx.skip(0) =~= cx && cy.skip(0) =~= cy);
    while i < n && i < m
        invariant
            i <= n,
            i <= m,
            n == x@.len(),
            m == y@.len(),
            cx == spec_components(a@),
            cy == spec_components(b@),
            part_views(x@) == spec_spans(a@),
            part_views(y@) == spec_spans(b@),
            spans_in_order(part_views(x@), 0, a@.len() as int),
            spans_in_order(part_views(y@), 0, b@.len() as int),
            components_precede(cx, cy) == components_precede(cx.skip(i as int), cy.skip(i as int)),
        decreases n - i,
    {
        proof {
            assert(part_views(x@)[i as int] == x@[i as int]@);
            assert(part_views(y@)[i as int] == y@[i as int]@);
            assert(cx.skip(i as int)[0] == cx[i as int]);
            assert(cy.skip(i as int)[0] == cy[i as int]);
            assert(cx.skip(i as int).drop_first() =~= cx.skip(i + 1));
            assert(cy.skip(i as int).drop_first() =~= cy.skip(i + 1));
        }
        if !same_part(a, &x[i], b, &y[i]) {
            return part_precedes(a, &x[i], b, &y[i]);
        }
        i += 1;
    }
    assert(cx.skip(i as int).len() == n - i);
    assert(cy.skip(i as int).len() == m - i);
    i < m
}

} // verus!
