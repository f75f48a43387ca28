//! Byte-string path helpers for the displayed labels: the file name shown on
//! a header row, and the parent-folder label, relativized to the workspace
//! root. Paths use `/` as their separator byte.

use vstd::prelude::*;

verus! {

/// The separator byte, `/`.
pub open spec fn sep() -> u8 {
    47u8
}

/// The suffix after the last separator: the displayed file name.
pub open spec fn file_name_spec(p: Seq<u8>) -> Seq<u8>
    decreases p.len(),
{
    if p.len() == 0 {
        Seq::empty()
    } else if p.last() == sep() {
        Seq::empty()
    } else {
        file_name_spec(p.drop_last()).push(p.last())
    }
}

/// The prefix before the last separator: the displayed folder.
pub open spec fn folder_spec(p: Seq<u8>) -> Seq<u8>
    decreases p.len(),
{
    if p.len() == 0 {
        Seq::empty()
    } else if p.last() == sep() {
        p.drop_last()
    } else {
        folder_spec(p.drop_last())
    }
}

/// The path relative to a workspace root: with the root and its separator
/// stripped when the root is a proper prefix, empty when the path is the
/// root itself, and unchanged otherwise.
pub open spec fn relative_spec(p: Seq<u8>, ws: Seq<u8>) -> Seq<u8> {
    if ws.len() < p.len() && p.take(ws.len() as int) == ws && p[ws.len() as int] == sep() {
        p.skip(ws.len() as int + 1)
    } else if p == ws {
        Seq::empty()
    } else {
        p
    }
}

/// The folder label of a file header row: the parent folder of the path,
/// relative to the workspace root when one is given.
pub open spec fn folder_label_spec(p: Seq<u8>, ws: Option<Seq<u8>>) -> Seq<u8> {
    match ws {
        Some(w) => folder_spec(relative_spec(p, w)),
        None => folder_spec(p),
    }
}

/// With no separator at or after `start` and a separator (or nothing) just
/// before it, the file name is the suffix from `start` and the folder is
/// what precedes the separator.
proof fn lemma_split_point(p: Seq<u8>, start: int)
    requires
        0 <= start <= p.len(),
        start == 0 || p[start - 1] == sep(),
        forall|j: int| start <= j < p.len() ==> p[j] != sep(),
    ensures
        file_name_spec(p) == p.skip(start),
        folder_spec(p) == if start == 0 {
            Seq::<u8>::empty()
        } else {
            p.take(start - 1)
        },
    decreases p.len(),
{
    if p.len() == 0 {
        assert(p.skip(0) =~= Seq::<u8>::empty());
    } else if p.last() == sep() {
        assert(start == p.len());
        assert(p.skip(start) =~= Seq::<u8>::empty());
        assert(p.take(start - 1) =~= p.drop_last());
    } else {
        assert(start < p.len());
        lemma_split_point(p.drop_last(), start);
        assert(p.drop_last().skip(start) =~= p.skip(start).drop_last());
        assert(p.skip(start) =~= p.drop_last().skip(start).push(p.last()));
        if start != 0 {
            assert(p.drop_last().take(start - 1) =~= p.take(start - 1));
        }
    }
}

/// The position after the last separator, `0` when there is none.
fn split_point(p: &Vec<u8>) -> (start: usize)
    ensures
        0 <= start <= p@.len(),
        start == 0 || p@[start as int - 1] == sep(),
        forall|j: int| start <= j < p@.len() ==> p@[j] != sep(),
{
    let mut i: usize = p.len();
    while i > 0
        invariant
            0 <= i <= p@.len(),
            forall|j: int| i <= j < p@.len() ==> p@[j] != sep(),
        decreases i,
    {
        if p[i - 1] == 47 {
            return i;
        }
        i = i - 1;
    }
    0
}

/// Copy of the range `[from, to)` of a byte string.
fn bytes_range(p: &Vec<u8>, from: usize, to: usize) -> (r: Vec<u8>)
    requires
        0 <= from <= to <= p@.len(),
    ensures
        r@ == p@.subrange(from as int, to as int),
{
    let mut r: Vec<u8> = Vec::new();
    let mut i: usize = from;
    while i < to
        invariant
            from <= i <= to <= p@.len(),
            r@ =~= p@.subrange(from as int, i as int),
        decreases to - i,
    {
        r.push(p[i]);
        i = i + 1;
    }
    proof {
        assert(r@ =~= p@.subrange(from as int, to as int));
    }
    r
}

/// The displayed file name of a path.
pub fn file_name(p: &Vec<u8>) -> (r: Vec<u8>)
    ensures
        r@ == file_name_spec(p@),
{
    let start = split_point(p);
    proof {
        lemma_split_point(p@, start as int);
        assert(p@.subrange(start as int, p@.len() as int) =~= p@.skip(start as int));
    }
    bytes_range(p, start, p.len())
}

/// The displayed folder of a path, already made relative.
fn folder_of(p: &Vec<u8>) -> (r: Vec<u8>)
    ensures
        r@ == folder_spec(p@),
{
    let start = split_point(p);
    if start == 0 {
        proof {
            lemma_split_point(p@, 0);
        }
        Vec::new()
    } else {
        proof {
            lemma_split_point(p@, start as int);
            assert(p@.subrange(0, start as int - 1) =~= p@.take(start as int - 1));
        }
        bytes_range(p, 0, start - 1)
    }
}

/// The path made relative to a workspace root.
fn relative_to(p: &Vec<u8>, ws: &Vec<u8>) -> (r: Vec<u8>)
    ensures
        r@ == relative_spec(p@, ws@),
{
    let mut i: usize = 0;
    let shared = if ws.len() <= p.len() {
        ws.len()
    } else {
        p.len()
    };
    while i < shared
        invariant
            0 <= i <= shared,
            shared == if ws@.len() <= p@.len() {
                ws@.len() as int
            } else {
                p@.len() as int
            },
            forall|j: int| 0 <= j < i ==> p@[j] == ws@[j],
        decreases shared - i,
    {
        if p[i] != ws[i] {
            // the root is not a prefix: the path stays as it is
            proof {
                assert(p@.take(ws@.len() as int) != ws@ || ws@.len() > p@.len()) by {
                    if ws@.len() <= p@.len() {
                        assert(p@.take(ws@.len() as int)[i as int] != ws@[i as int]);
                    }
                }
                assert(p@ != ws@);
            }
            proof {
                assert(p@.subrange(0, p@.len() as int) =~= p@);
            }
            return bytes_range(p, 0, p.len());
        }
        i = i + 1;
    }
    if ws.len() < p.len() {
        proof {
            assert(p@.take(ws@.len() as int) =~= ws@);
        }
        if p[ws.len()] == 47 {
            let r = bytes_range(p, ws.len() + 1, p.len());
            proof {
                assert(p@.subrange(ws@.len() as int + 1, p@.len() as int) =~= p@.skip(
                    ws@.len() as int + 1,
                ));
            }
            r
        } else {
            proof {
                assert(p@.subrange(0, p@.len() as int) =~= p@);
            }
            bytes_range(p, 0, p.len())
        }
    } else if ws.len() == p.len() {
        proof {
            assert(p@ =~= ws@);
        }
        Vec::new()
    } else {
        proof {
            assert(p@ != ws@);
            assert(ws@.len() > p@.len());
            assert(p@.subrange(0, p@.len() as int) =~= p@);
        }
        bytes_range(p, 0, p.len())
    }
}

/// The folder label of a file header row: the parent folder, relative to the
/// workspace root when one is given; empty when there is nothing to show.
pub fn folder_label(p: &Vec<u8>, workspace: Option<&Vec<u8>>) -> (r: Vec<u8>)
    ensures
        r@ == folder_label_spec(
            p@,
            match workspace {
                Some(w) => Some(w@),
                None => None,
            },
        ),
{
    match workspace {
        Some(w) => {
            let rel = relative_to(p, w);
            folder_of(&rel)
        },
        None => folder_of(p),
    }
}

} // verus!
