//! Path resolution: from the path a client asks for to a canonical path inside the served
//! root, or a refusal.
//!
//! Resolution has two stages, in this order. The requested path is joined onto the root and
//! canonicalized against the filesystem, which fails where nothing exists under that name;
//! then the canonical result is checked to lie inside the root, component by component.
//! Canonicalization itself is the caller's work: this module says what to canonicalize
//! ([`relative_target`]) and judges the outcome ([`resolve`]).
//!
//! A canonical path is held as the sequence of its components below the filesystem root, so
//! `/srv/www` is `["srv", "www"]` and `/` is the empty sequence.

use vstd::prelude::*;
use vstd::string::StrSliceExecFns;
use vstd::string::StringExecFns;

verus! {

/// The directory outside which nothing is served, as a canonical path.
#[derive(Clone, Debug, PartialEq, Eq)]
pub struct ServerRoot {
    pub components: Vec<String>,
}

impl View for ServerRoot {
    type V = Seq<Seq<char>>;

    open spec fn view(&self) -> Seq<Seq<char>> {
        self.components.deep_view()
    }
}

/// A canonical path that was found inside the served root when it was resolved.
#[derive(Clone, Debug, PartialEq, Eq)]
pub struct ResolvedPath {
    pub components: Vec<String>,
}

impl View for ResolvedPath {
    type V = Seq<Seq<char>>;

    open spec fn view(&self) -> Seq<Seq<char>> {
        self.components.deep_view()
    }
}

/// Why a requested path is not served.
#[derive(Clone, Copy, Debug, PartialEq, Eq, Structural)]
pub enum Refusal {
    /// Nothing exists under the requested path.
    NotFound,
    /// The requested path leads out of the served root.
    Forbidden,
}

/// What is joined onto the root for `requested`: the path without one leading separator, so
/// that a leading separator means the served root and not the root of the filesystem.
pub open spec fn relative_of(requested: Seq<char>) -> Seq<char> {
    if requested.len() > 0 && requested[0] == '/' {
        requested.skip(1)
    } else {
        requested
    }
}

/// Whether `path` is `root` itself or lies below it: `root`'s components are the first
/// components of `path`.
pub open spec fn within(root: Seq<Seq<char>>, path: Seq<Seq<char>>) -> bool {
    root.is_prefix_of(path)
}

/// The outcome of resolution, given what canonicalization returned (`None` where the joined
/// path does not exist).
pub open spec fn resolution(root: Seq<Seq<char>>, canonical: Option<Seq<Seq<char>>>) -> Result<
    Seq<Seq<char>>,
    Refusal,
> {
    match canonical {
        None => Err(Refusal::NotFound),
        Some(path) => if within(root, path) {
            Ok(path)
        } else {
            Err(Refusal::Forbidden)
        },
    }
}

/// The view of a resolution's outcome.
pub open spec fn resolved_view(res: Result<ResolvedPath, Refusal>) -> Result<
    Seq<Seq<char>>,
    Refusal,
> {
    match res {
        Ok(path) => Ok(path@),
        Err(refusal) => Err(refusal),
    }
}

/// The view of what canonicalization returned.
pub open spec fn canonical_view(canonical: Option<Vec<String>>) -> Option<Seq<Seq<char>>> {
    match canonical {
        Some(path) => Some(path.deep_view()),
        None => None,
    }
}

/// The path to join onto the served root and canonicalize for `requested`.
pub fn relative_target(requested: &str) -> (relative: String)
    ensures
        relative@ == relative_of(requested@),
{
    let len = requested.unicode_len();
    if len > 0 && requested.get_char(0) == '/' {
        let rest = requested.substring_char(1, len);
        String::from_str(rest)
    } else {
        String::from_str(requested)
    }
}

/// Tells whether the canonical `path` is `root` or lies below it. The comparison is by whole
/// components: `/root-evil` is not inside `/root`.
pub fn is_within(root: &Vec<String>, path: &Vec<String>) -> (inside: bool)
    ensures
        inside == within(root.deep_view(), path.deep_view()),
{
    if root.len() > path.len() {
        return false;
    }
    let mut i: usize = 0;
    while i < root.len()
        invariant
            i <= root.len() <= path.len(),
            forall|j: int| 0 <= j < i ==> root@[j]@ == path@[j]@,
        decreases root.len() - i,
    {
        if root[i] != path[i] {
            assert(root.deep_view()[i as int] != path.deep_view()[i as int]);
            return false;
        }
        i = i + 1;
    }
    assert(root.deep_view() =~= path.deep_view().subrange(0, root.deep_view().len() as int));
    true
}

/// Judges the outcome of canonicalization: a path that does not exist is not found, one that
/// exists outside `root` is forbidden, and one inside `root` is resolved.
pub fn resolve(root: &ServerRoot, canonical: Option<Vec<String>>) -> (res: Result<
    ResolvedPath,
    Refusal,
>)
    ensures
        resolved_view(res) == resolution(root@, canonical_view(canonical)),
{
    match canonical {
        None => Err(Refusal::NotFound),
        Some(path) => {
            if is_within(&root.components, &path) {
                Ok(ResolvedPath { components: path })
            } else {
                Err(Refusal::Forbidden)
            }
        },
    }
}

impl ResolvedPath {
    /// A second copy of the path.
    pub fn duplicate(&self) -> (copy: ResolvedPath)
        ensures
            copy@ == self@,
    {
        let mut components: Vec<String> = Vec::new();
        let mut i: usize = 0;
        while i < self.components.len()
            invariant
                i <= self.components.len(),
                components.len() == i,
                forall|j: int| 0 <= j < i ==> components@[j]@ == self.components@[j]@,
            decreases self.components.len() - i,
        {
            components.push(self.components[i].clone());
            i = i + 1;
        }
        ResolvedPath { components }
    }
}

impl Refusal {
    /// The status code that tells the client of the refusal.
    pub open spec fn code(self) -> nat {
        match self {
            Refusal::NotFound => 404,
            Refusal::Forbidden => 403,
        }
    }

    /// The reason phrase that goes with the status code.
    pub open spec fn phrase(self) -> Seq<char> {
        match self {
            Refusal::NotFound => "Not Found"@,
            Refusal::Forbidden => "Forbidden"@,
        }
    }

    /// The status code that tells the client of the refusal: 404 or 403.
    pub fn status_code(self) -> (code: u16)
        ensures
            code == self.code(),
    {
        match self {
            Refusal::NotFound => 404,
            Refusal::Forbidden => 403,
        }
    }

    /// The reason phrase that goes with the status code.
    pub fn reason(self) -> (phrase: &'static str)
        ensures
            phrase@ == self.phrase(),
    {
        match self {
            Refusal::NotFound => "Not Found",
            Refusal::Forbidden => "Forbidden",
        }
    }
}

} // verus!
