//! Mapping a request onto the filesystem under the server root.
//!
//! The decoded path is appended to the root, never put in its place, and a
//! path with a `..` segment is refused outright, so that no request reaches
//! above the root.
use vstd::prelude::*;
use vstd::string::StringExecFns;
use crate::request::Request;
use crate::text::{chars_of, push_all, push_char, string_of};

verus! {

/// What a path names on disk.
#[derive(Clone, Copy, Debug, PartialEq, Eq, Structural)]
pub enum Entry {
    Missing,
    File,
    Directory,
}

/// `rel` put under `base`, with one `/` between them.
pub open spec fn join(base: Seq<char>, rel: Seq<char>) -> Seq<char> {
    if base.len() == 0 || base.last() == '/' {
        base + rel
    } else {
        base + seq!['/'] + rel
    }
}

/// Whether the path has a `..` segment.
pub open spec fn has_parent_segment(p: Seq<char>) -> bool {
    exists|i: int| #[trigger] is_parent_at(p, i)
}

/// A `..` segment starts at `i`.
pub open spec fn is_parent_at(p: Seq<char>, i: int) -> bool {
    &&& 0 <= i
    &&& i + 2 <= p.len()
    &&& p[i] == '.'
    &&& p[i + 1] == '.'
    &&& (i == 0 || p[i - 1] == '/')
    &&& (i + 2 == p.len() || p[i + 2] == '/')
}

/// The filesystem path that a request path names under `root`: the root
/// itself for `/`, and nothing for a path that does not start with `/` or
/// that climbs with `..`.
pub open spec fn candidate_of(root: Seq<char>, path: Seq<char>) -> Option<Seq<char>> {
    if path.len() == 0 || path[0] != '/' || has_parent_segment(path) {
        None
    } else if path.len() == 1 {
        Some(root)
    } else {
        Some(join(root, path.drop_first()))
    }
}

/// The index page of a directory.
pub open spec fn index_of(dir: Seq<char>) -> Seq<char> {
    join(dir, "index.html"@)
}

/// What a request resolves to.
pub enum Target {
    File(Seq<char>),
    Directory(Seq<char>, Seq<char>),
    NotFound,
    MethodNotAllowed,
}

/// The target of a request, given what the disk holds at its candidate
/// path (`found`) and, for a directory, at that directory's index page.
pub open spec fn target_of(
    root: Seq<char>,
    method: Seq<char>,
    path: Seq<char>,
    found: Entry,
    index: Entry,
) -> Target {
    if method != "GET"@ {
        Target::MethodNotAllowed
    } else {
        match candidate_of(root, path) {
            None => Target::NotFound,
            Some(c) => match found {
                Entry::Missing => Target::NotFound,
                Entry::File => Target::File(c),
                Entry::Directory => if index == Entry::Missing {
                    Target::Directory(root, c)
                } else {
                    Target::File(index_of(c))
                },
            },
        }
    }
}

/// What a filesystem, seen as a map from paths to entries, holds at `p`.
pub open spec fn entry_in(fs: Map<Seq<char>, Entry>, p: Seq<char>) -> Entry {
    if fs.dom().contains(p) {
        fs[p]
    } else {
        Entry::Missing
    }
}

/// The target of a request against the filesystem `fs`.
pub open spec fn resolution(
    root: Seq<char>,
    method: Seq<char>,
    path: Seq<char>,
    fs: Map<Seq<char>, Entry>,
) -> Target {
    match candidate_of(root, path) {
        Some(c) => target_of(root, method, path, entry_in(fs, c), entry_in(fs, index_of(c))),
        None => target_of(root, method, path, Entry::Missing, Entry::Missing),
    }
}

/// Resolution looks at nothing but the candidate path and its index page:
/// two filesystems that agree there give the same target, and so resolving
/// a request twice against an unchanged filesystem gives the same target.
pub proof fn lemma_resolution_idempotent(
    root: Seq<char>,
    method: Seq<char>,
    path: Seq<char>,
    fs1: Map<Seq<char>, Entry>,
    fs2: Map<Seq<char>, Entry>,
)
    requires
        candidate_of(root, path) matches Some(c) ==> entry_in(fs1, c) == entry_in(fs2, c)
            && entry_in(fs1, index_of(c)) == entry_in(fs2, index_of(c)),
    ensures
        resolution(root, method, path, fs1) == resolution(root, method, path, fs2),
{
}

/// What a request resolves to.
pub enum ResolvedTarget {
    File(String),
    Directory(String, String),
    NotFound,
    MethodNotAllowed,
}

impl View for ResolvedTarget {
    type V = Target;

    open spec fn view(&self) -> Target {
        match self {
            ResolvedTarget::File(p) => Target::File(p@),
            ResolvedTarget::Directory(b, p) => Target::Directory(b@, p@),
            ResolvedTarget::NotFound => Target::NotFound,
            ResolvedTarget::MethodNotAllowed => Target::MethodNotAllowed,
        }
    }
}

/// `rel` put under `base`, with one `/` between them.
pub fn join_path(base: &str, rel: &str) -> (r: String)
    ensures
        r@ == join(base@, rel@),
{
    let b = chars_of(base);
    let mut r = String::from_str(base);
    if b.len() > 0 && b[b.len() - 1] != '/' {
        push_char(&mut r, '/');
    }
    push_all(&mut r, rel);
    r
}

/// Whether the path has a `..` segment.
pub fn has_parent_dir(path: &str) -> (r: bool)
    ensures
        r == has_parent_segment(path@),
{
    let v = chars_of(path);
    let n = v.len();
    let mut i: usize = 0;
    while n >= 2 && i <= n - 2
        invariant
            n == v@.len(),
            v@ == path@,
            forall|k: int| 0 <= k < i ==> !is_parent_at(v@, k),
        decreases n - i,
    {
        if v[i] == '.' && v[i + 1] == '.' && (i == 0 || v[i - 1] == '/') && (i + 2 == n || v[i + 2] == '/') {
            assert(is_parent_at(v@, i as int));
            return true;
        }
        i = i + 1;
    }
    assert forall|k: int| !is_parent_at(v@, k) by {
        if 0 <= k < i {
        } else if k >= i {
            assert(n < 2 || i > n - 2);
        }
    };
    false
}

/// The filesystem path that a request path names under `root`, if the path
/// is absolute and stays under the root.
pub fn candidate_path(root: &str, path: &str) -> (r: Option<String>)
    ensures
        match candidate_of(root@, path@) {
            Some(c) => r matches Some(s) && s@ == c,
            None => r is None,
        },
{
    let v = chars_of(path);
    if v.len() == 0 || v[0] != '/' || has_parent_dir(path) {
        None
    } else if v.len() == 1 {
        Some(String::from_str(root))
    } else {
        let rel = string_of(&v, 1, v.len());
        assert(rel@ =~= path@.drop_first());
        Some(join_path(root, rel.as_str()))
    }
}

/// The index page of a directory.
pub fn index_path(dir: &str) -> (r: String)
    ensures
        r@ == index_of(dir@),
{
    join_path(dir, "index.html")
}

/// Resolves a request under `root`, given what the disk holds at its
/// candidate path and, when that is a directory, at its index page.
pub fn resolve(root: &str, request: &Request, found: Entry, index: Entry) -> (r: ResolvedTarget)
    ensures
        r@ == target_of(root@, request.method@, request.path@, found, index),
{
    if !request.is_get() {
        return ResolvedTarget::MethodNotAllowed;
    }
    match candidate_path(root, request.path.as_str()) {
        None => ResolvedTarget::NotFound,
        Some(c) => match found {
            Entry::Missing => ResolvedTarget::NotFound,
            Entry::File => ResolvedTarget::File(c),
            Entry::Directory => if index == Entry::Missing {
                ResolvedTarget::Directory(String::from_str(root), c)
            } else {
                ResolvedTarget::File(index_path(c.as_str()))
            },
        },
    }
}

} // verus!
