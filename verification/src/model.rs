//! Data model of the panel: diagnostics grouped by file, and the externally
//! owned collapse flags.
//!
//! File paths are kept as byte strings, ordered and compared byte-wise, the
//! way the platform orders them. Message text is kept already split into
//! display lines, one `String` per row.

use vstd::prelude::*;

verus! {

/// Severity class of a diagnostic. The index is always filtered to a single
/// class before anything is measured, painted or hit-tested.
#[derive(Clone, Copy, PartialEq, Eq, Structural, Debug)]
pub enum Severity {
    Error,
    Warning,
    Information,
    Hint,
}

/// A position inside a source file: zero-based line and column.
#[derive(Clone, Copy, PartialEq, Eq, Structural, Debug)]
pub struct Position {
    pub line: u32,
    pub character: u32,
}

/// A secondary location attached to a diagnostic, pointing at another
/// contributing file and position.
#[derive(Debug)]
pub struct RelatedInfo {
    /// Target file path; `None` when the target URI could not be resolved to
    /// a path. Such an entry is still rendered, but clicking it cannot jump.
    pub path: Option<Vec<u8>>,
    /// Position inside the target file.
    pub position: Position,
    /// Message text, one element per display line.
    pub message: Vec<String>,
}

/// One diagnostic of a file: a severity, the start of the source range it
/// points at, its message split into display lines, and its related
/// locations in source order.
#[derive(Debug)]
pub struct Diagnostic {
    pub severity: Severity,
    pub start: Position,
    pub message: Vec<String>,
    pub related: Vec<RelatedInfo>,
}

/// A file together with its diagnostics, already filtered to one severity.
#[derive(Debug)]
pub struct FileGroup {
    pub path: Vec<u8>,
    pub diagnostics: Vec<Diagnostic>,
}

/// Externally owned per-file collapse flags. A file is collapsed exactly when
/// its path is listed; files never listed are expanded. This core only reads
/// the flags; toggling is done by whoever owns the value.
#[derive(Debug)]
pub struct CollapseState {
    pub collapsed: Vec<Vec<u8>>,
}

impl CollapseState {
    /// A state in which every file is expanded.
    pub fn all_expanded() -> (r: CollapseState)
        ensures
            forall|p: Seq<u8>| !r.is_collapsed(p),
    {
        CollapseState { collapsed: Vec::new() }
    }

    /// Whether the file at `path` is collapsed.
    pub open spec fn is_collapsed(self, path: Seq<u8>) -> bool {
        exists|i: int| 0 <= i < self.collapsed@.len() && self.collapsed@[i]@ == path
    }

    /// Whether the file at `path` is collapsed.
    pub fn check_collapsed(&self, path: &Vec<u8>) -> (r: bool)
        ensures
            r == self.is_collapsed(path@),
    {
        let mut i: usize = 0;
        while i < self.collapsed.len()
            invariant
                0 <= i <= self.collapsed@.len(),
                forall|j: int| 0 <= j < i ==> self.collapsed@[j]@ != path@,
            decreases self.collapsed@.len() - i,
        {
            if bytes_eq(&self.collapsed[i], path) {
                return true;
            }
            i = i + 1;
        }
        false
    }
}

/// Byte-wise equality of two byte strings.
pub fn bytes_eq(a: &Vec<u8>, b: &Vec<u8>) -> (r: bool)
    ensures
        r == (a@ == b@),
{
    if a.len() != b.len() {
        return false;
    }
    let mut i: usize = 0;
    while i < a.len()
        invariant
            a@.len() == b@.len(),
            0 <= i <= a@.len(),
            forall|j: int| 0 <= j < i ==> a@[j] == b@[j],
        decreases a@.len() - i,
    {
        if a[i] != b[i] {
            return false;
        }
        i = i + 1;
    }
    proof {
        assert(a@ =~= b@);
    }
    true
}

/// Copy of a byte string, made without relying on anything unverified.
pub fn bytes_copy(a: &Vec<u8>) -> (r: Vec<u8>)
    ensures
        r@ == a@,
{
    let mut r: Vec<u8> = Vec::new();
    let mut i: usize = 0;
    while i < a.len()
        invariant
            0 <= i <= a@.len(),
            r@ =~= a@.take(i as int),
        decreases a@.len() - i,
    {
        r.push(a[i]);
        i = i + 1;
    }
    proof {
        assert(r@ =~= a@);
    }
    r
}

} // verus!
