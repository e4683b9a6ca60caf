//! Paths as sequences of components.
use crate::text;
use std::path::{Component, Path, Prefix};
use vstd::prelude::*;
use vstd::string::*;
use vstd::utf8::*;

verus! {

/// One component of a path. Names are held as the bytes that encode them, since a name need not
/// be text; where it is, they are its UTF-8 encoding.
#[derive(Debug)]
pub enum PathPart {
    /// A drive, by its letter.
    Drive(u8),
    /// A share or another place to start from, by what it is.
    Prefix(Vec<u8>),
    Root,
    Current,
    Parent,
    Normal(Vec<u8>),
}

/// A path, by its components. Two paths are the same where their components are.
#[derive(Debug)]
pub struct PathParts {
    pub parts: Vec<PathPart>,
}

pub enum Part {
    Drive(u8),
    Prefix(Seq<u8>),
    Root,
    Current,
    Parent,
    Normal(Seq<u8>),
}

impl View for PathPart {
    type V = Part;

    open spec fn view(&self) -> Part {
        match *self {
            PathPart::Drive(d) => Part::Drive(d),
            PathPart::Prefix(b) => Part::Prefix(b@),
            PathPart::Root => Part::Root,
            PathPart::Current => Part::Current,
            PathPart::Parent => Part::Parent,
            PathPart::Normal(b) => Part::Normal(b@),
        }
    }
}

pub open spec fn part_views(parts: Seq<PathPart>) -> Seq<Part> {
    parts.map_values(|p: PathPart| p@)
}

impl View for PathParts {
    type V = Seq<Part>;

    open spec fn view(&self) -> Seq<Part> {
        part_views(self.parts@)
    }
}

/// The path without its last component, where that is not where the path starts from.
pub open spec fn parent_of(path: Seq<Part>) -> Option<Seq<Part>> {
    if path.len() == 0 || path.last() is Root || path.last() is Prefix || path.last() is Drive {
        None
    } else {
        Some(path.drop_last())
    }
}

/// The path lies below `root`, at whatever depth.
pub open spec fn is_below(path: Seq<Part>, root: Seq<Part>) -> bool {
    root.is_prefix_of(path) && path != root
}

/// The component that one stretch of text between separators is.
pub open spec fn segment_part(segment: Seq<char>) -> Seq<Part> {
    if segment.len() == 0 || segment == seq!['.'] {
        seq![]
    } else if segment == seq!['.', '.'] {
        seq![Part::Parent]
    } else {
        seq![Part::Normal(encode_utf8(segment))]
    }
}

/// The character separates components: a slash, and a backslash where that counts.
pub open spec fn separates(c: char, backslash: bool) -> bool {
    c == '/' || (backslash && c == '\\')
}

/// How much of a text stands in front of its first separator.
pub open spec fn first_separator(path: Seq<char>, backslash: bool) -> int
    decreases path.len(),
{
    if path.len() == 0 || separates(path[0], backslash) {
        0
    } else {
        1 + first_separator(path.skip(1), backslash)
    }
}

/// The components of the stretches between separators.
pub open spec fn segment_parts(path: Seq<char>, backslash: bool) -> Seq<Part>
    decreases path.len(),
{
    let n = first_separator(path, backslash);
    if 0 <= n < path.len() {
        segment_part(path.take(n)) + segment_parts(path.skip(n + 1), backslash)
    } else {
        segment_part(path)
    }
}

/// The components of a text: a separator in front is the root; a single dot counts only in front
/// of everything else.
pub open spec fn read_parts(path: Seq<char>, backslash: bool) -> Seq<Part> {
    if path.len() > 0 && separates(path[0], backslash) {
        seq![Part::Root] + segment_parts(path, backslash)
    } else if path.take(first_separator(path, backslash)) == seq!['.'] {
        seq![Part::Current] + segment_parts(path, backslash)
    } else {
        segment_parts(path, backslash)
    }
}

/// The components of a text in which slashes separate and nothing else does.
pub open spec fn slash_parts(path: Seq<char>) -> Seq<Part> {
    read_parts(path, false)
}

/// The text starts with a drive letter and a colon.
pub open spec fn has_drive(path: Seq<char>) -> bool {
    &&& path.len() >= 2
    &&& 'a' <= text::ascii_lower(path[0]) <= 'z'
    &&& path[1] == ':'
}

/// The components of a text in which both slashes and backslashes separate, after the drive where
/// one is named. Behind a drive no dot stands in front of everything, so none counts. The case of
/// the drive letter is left open.
pub open spec fn is_drive_reading(path: Seq<char>, parts: Seq<Part>) -> bool {
    if has_drive(path) {
        &&& parts.len() > 0
        &&& parts[0] matches Part::Drive(d) && text::ascii_lower(d as char) == text::ascii_lower(
            path[0],
        )
        &&& parts.skip(1) == (if path.len() > 2 && separates(path[2], true) {
            seq![Part::Root]
        } else {
            seq![]
        }) + segment_parts(path.skip(2), true)
    } else {
        parts == read_parts(path, true)
    }
}

/// The text starts as one that names a share does.
pub open spec fn has_double_start(path: Seq<char>) -> bool {
    path.len() >= 2 && separates(path[0], true) && separates(path[1], true)
}

/// The components are what some platform makes of the text: the reading with slashes, the reading
/// with drives and backslashes, or, for a text that starts as the name of a share does, something
/// that starts from there.
pub open spec fn is_reading(path: Seq<char>, parts: Seq<Part>) -> bool {
    ||| parts == slash_parts(path)
    ||| is_drive_reading(path, parts)
    ||| has_double_start(path) && parts.len() > 0 && parts[0] is Prefix
}

/// The text means the same path on every platform: it holds neither a backslash nor a colon, and
/// does not start with two slashes.
pub open spec fn is_portable(path: Seq<char>) -> bool {
    &&& !path.contains('\\')
    &&& !path.contains(':')
    &&& !(path.len() >= 2 && path[0] == '/' && path[1] == '/')
}

/// The components of the path that a text is.
///
/// Trusted: converts what `std::path::Path::components` gives, component by component. What
/// separates components, and what a path can start from, depends on the platform, so the contract
/// says that the result is one of the readings: separators are dropped with the empty stretches
/// between them, and so are single dots, but for one that the text itself starts with; behind a
/// drive they are dropped too. Which platform's reading it is, and what follows a share, is not
/// said.
#[verifier::external_body]
fn components(path: &str) -> (r: Vec<PathPart>)
    ensures
        is_reading(path@, part_views(r@)),
{
    Path::new(path).components().map(|c| match c {
        Component::Prefix(p) => match p.kind() {
            Prefix::Disk(letter) => PathPart::Drive(letter),
            kind => PathPart::Prefix(format!("{:?}", kind).into_bytes()),
        },
        Component::RootDir => PathPart::Root,
        Component::CurDir => PathPart::Current,
        Component::ParentDir => PathPart::Parent,
        Component::Normal(n) => PathPart::Normal(n.as_encoded_bytes().to_vec()),
    }).collect()
}

/// The components are what `std::path::Path::components` gives here for the text.
pub closed spec fn is_split_of(path: Seq<char>, parts: Seq<Part>) -> bool {
    exists|t: &str, v: Vec<PathPart>|
        t@ == path && part_views(v@) == parts && #[trigger] call_ensures(components, (t,), v)
}

/// A text is split into nothing but what the platform gives for it, component for component.
proof fn law_splits_are_the_platforms(path: Seq<char>, parts: Seq<Part>)
    requires
        is_split_of(path, parts),
    ensures
        exists|t: &str, v: Vec<PathPart>| #[trigger]
            call_ensures(components, (t,), v) && t@ == path && v@.len() == parts.len() && forall|
                k: int,
            | 0 <= k < parts.len() ==> #[trigger] parts[k] == v@[k]@,
{
    let (t, v) = choose|t: &str, v: Vec<PathPart>|
        t@ == path && part_views(v@) == parts && #[trigger] call_ensures(components, (t,), v);
    assert(part_views(v@).len() == v@.len());
    assert forall|k: int| 0 <= k < parts.len() implies #[trigger] parts[k] == v@[k]@ by {
        assert(part_views(v@)[k] == v@[k]@);
    }
}

/// Whatever the platform, a text is split by one of the readings.
pub proof fn law_splits_are_readings(path: Seq<char>, parts: Seq<Part>)
    requires
        is_split_of(path, parts),
    ensures
        is_reading(path, parts),
{
    let (t, v) = choose|t: &str, v: Vec<PathPart>|
        t@ == path && part_views(v@) == parts && #[trigger] call_ensures(components, (t,), v);
    assert(is_reading(t@, part_views(v@)));
}

proof fn lemma_no_backslash(path: Seq<char>)
    requires
        !path.contains('\\'),
    ensures
        first_separator(path, true) == first_separator(path, false),
        0 <= first_separator(path, true) <= path.len(),
        segment_parts(path, true) == segment_parts(path, false),
    decreases path.len(),
{
    if path.len() > 0 {
        assert(path.contains(path[0]));
        assert forall|k: int| 0 < k <= path.len() implies !(#[trigger] path.skip(k)).contains(
            '\\',
        ) by {
            if path.skip(k).contains('\\') {
                let j = choose|j: int| 0 <= j < path.skip(k).len() && path.skip(k)[j] == '\\';
                assert(path[j + k] == '\\');
            }
        }
        lemma_no_backslash(path.skip(1));
        let n = first_separator(path, true);
        if n < path.len() {
            lemma_no_backslash(path.skip(n + 1));
        }
    }
}

/// A text that means the same everywhere has one reading only.
pub proof fn law_portable_texts_have_one_reading(path: Seq<char>, parts: Seq<Part>)
    requires
        is_portable(path),
        is_reading(path, parts),
    ensures
        parts == slash_parts(path),
{
    lemma_no_backslash(path);
    if path.len() >= 1 {
        assert(path.contains(path[0]));
    }
    if path.len() >= 2 {
        assert(path.contains(path[1]));
    }
}

fn same_bytes(a: &Vec<u8>, b: &Vec<u8>) -> (r: bool)
    ensures
        r == (a@ == b@),
{
    let r = a == b;
    assert(r ==> a@ =~= b@);
    r
}

fn same_part(a: &PathPart, b: &PathPart) -> (r: bool)
    ensures
        r == (a@ == b@),
{
    match (a, b) {
        (PathPart::Drive(x), PathPart::Drive(y)) => *x == *y,
        (PathPart::Prefix(x), PathPart::Prefix(y)) => same_bytes(x, y),
        (PathPart::Root, PathPart::Root) => true,
        (PathPart::Current, PathPart::Current) => true,
        (PathPart::Parent, PathPart::Parent) => true,
        (PathPart::Normal(x), PathPart::Normal(y)) => same_bytes(x, y),
        _ => false,
    }
}

impl PathParts {
    /// The path that a text is.
    pub fn from_text(path: &str) -> (r: PathParts)
        ensures
            is_split_of(path@, r@),
            is_reading(path@, r@),
            is_portable(path@) ==> r@ == slash_parts(path@),
    {
        let r = PathParts { parts: components(path) };
        proof {
            assert(call_ensures(components, (path,), r.parts));
            if is_portable(path@) {
                law_portable_texts_have_one_reading(path@, r@);
            }
        }
        r
    }

    /// Whether `base` is a prefix of this path, by whole components.
    pub fn starts_with(&self, base: &PathParts) -> (r: bool)
        ensures
            r == base@.is_prefix_of(self@),
    {
        if base.parts.len() > self.parts.len() {
            return false;
        }
        let mut i: usize = 0;
        while i < base.parts.len()
            invariant
                i <= base.parts@.len() <= self.parts@.len(),
                forall|k: int| 0 <= k < i ==> base@[k] == self@[k],
            decreases base.parts@.len() - i,
        {
            assert(base@[i as int] == base.parts@[i as int]@);
            assert(self@[i as int] == self.parts@[i as int]@);
            if !same_part(&base.parts[i], &self.parts[i]) {
                return false;
            }
            i = i + 1;
        }
        assert(base@ =~= self@.subrange(0, base@.len() as int));
        true
    }

    /// Whether this is the same path.
    pub fn same(&self, other: &PathParts) -> (r: bool)
        ensures
            r == (self@ == other@),
    {
        let r = self.parts.len() == other.parts.len() && self.starts_with(other);
        assert(r ==> self@ =~= other@);
        assert(other@ =~= other@.subrange(0, other@.len() as int));
        r
    }

    /// Whether `root` is the parent of this path.
    pub fn has_parent(&self, root: &PathParts) -> (r: bool)
        ensures
            r == (parent_of(self@) == Some(root@)),
    {
        let n: usize = self.parts.len();
        if n == 0 {
            return false;
        }
        assert(self@.last() == self.parts@[n - 1]@);
        match &self.parts[n - 1] {
            PathPart::Root => false,
            PathPart::Prefix(_) => false,
            PathPart::Drive(_) => false,
            _ => {
                let r = root.parts.len() == n - 1 && self.starts_with(root);
                assert(r ==> self@.drop_last() =~= root@);
                assert(self@.drop_last() == root@ ==> root@.len() == n - 1 && root@
                    =~= self@.subrange(0, root@.len() as int));
                r
            },
        }
    }
}

} // verus!
