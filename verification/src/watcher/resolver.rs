//! The path resolver: from the literal paths and glob patterns that were
//! asked for to the entries to watch.
//!
//! Resolution happens once, against what exists at that moment. A glob
//! names only the files that match it then; files that appear later are
//! seen only if a directory above them is watched too.

use vstd::prelude::*;
use crate::indexer::entry::same_path;
use crate::watcher::{TargetKind, WatchTarget, WatchTargetView, SEPARATOR};

verus! {

/// The wildcard for a run of bytes.
pub const STAR: u8 = 42;

/// The wildcard for a single byte.
pub const QUESTION: u8 = 63;

/// Whether a pattern holds a wildcard, which makes it a glob.
pub open spec fn has_wildcard(pattern: Seq<u8>) -> bool {
    exists|i: int| 0 <= i < pattern.len() && (#[trigger] pattern[i] == STAR || pattern[i] == QUESTION)
}

/// Whether a pattern starts with `**/`.
pub open spec fn starts_deep_dir(pattern: Seq<u8>) -> bool {
    pattern.len() >= 3 && pattern[0] == STAR && pattern[1] == STAR && pattern[2] == SEPARATOR
}

/// Whether a pattern starts with `**`.
pub open spec fn starts_deep(pattern: Seq<u8>) -> bool {
    pattern.len() >= 2 && pattern[0] == STAR && pattern[1] == STAR
}

/// Whether a glob pattern accepts a path.
///
/// `?` stands for one byte and `*` for any run of bytes, neither crossing
/// a separator; `**` stands for any run of bytes; `**/` stands for any
/// number of whole directories, none included. Every other byte stands
/// for itself.
pub open spec fn accepts(pattern: Seq<u8>, path: Seq<u8>) -> bool
    decreases pattern.len(), path.len(), 1int,
{
    if pattern.len() == 0 {
        path.len() == 0
    } else if starts_deep_dir(pattern) {
        accepts(pattern.skip(3), path) || accepts_below(pattern, path)
    } else if starts_deep(pattern) {
        accepts(pattern.skip(2), path) || (path.len() > 0 && accepts(pattern, path.skip(1)))
    } else if pattern[0] == STAR {
        accepts(pattern.skip(1), path) || (path.len() > 0 && path[0] != SEPARATOR && accepts(
            pattern,
            path.skip(1),
        ))
    } else if pattern[0] == QUESTION {
        path.len() > 0 && path[0] != SEPARATOR && accepts(pattern.skip(1), path.skip(1))
    } else {
        path.len() > 0 && path[0] == pattern[0] && accepts(pattern.skip(1), path.skip(1))
    }
}

/// For a pattern that starts with `**/`: whether it accepts what stands
/// behind one of the separators of `path`, that is, below one of the
/// directories that `path` goes through.
pub open spec fn accepts_below(pattern: Seq<u8>, path: Seq<u8>) -> bool
    decreases pattern.len(), path.len(), 0int,
{
    path.len() > 0 && if path[0] == SEPARATOR {
        accepts(pattern, path.skip(1))
    } else {
        accepts_below(pattern, path.skip(1))
    }
}

/// Something found on disk.
#[derive(Debug, PartialEq, Eq)]
pub struct Found {
    pub path: Vec<u8>,
    pub kind: TargetKind,
}

/// Mathematical value of a [`Found`].
pub struct FoundView {
    pub path: Seq<u8>,
    pub kind: TargetKind,
}

impl View for Found {
    type V = FoundView;

    open spec fn view(&self) -> FoundView {
        FoundView { path: self.path@, kind: self.kind }
    }
}

/// The mathematical values of a run of finds.
pub open spec fn found_views(existing: Seq<Found>) -> Seq<FoundView> {
    existing.map_values(|found: Found| found@)
}

/// Whether a pattern names something found on disk: a literal path names
/// the entry at that path, file or directory; a glob names the files, and
/// only the files, that it accepts.
pub open spec fn names(pattern: Seq<u8>, found: FoundView) -> bool {
    if has_wildcard(pattern) {
        found.kind == TargetKind::File && accepts(pattern, found.path)
    } else {
        found.path == pattern
    }
}

/// The targets that a pattern resolves to among the first `n` finds, in
/// the order they were found.
pub open spec fn resolved(pattern: Seq<u8>, existing: Seq<FoundView>, n: int) -> Seq<
    WatchTargetView,
>
    decreases n,
{
    if n <= 0 {
        Seq::empty()
    } else {
        let earlier = resolved(pattern, existing, n - 1);
        if names(pattern, existing[n - 1]) {
            earlier.push(
                WatchTargetView { path: existing[n - 1].path, kind: existing[n - 1].kind, pattern },
            )
        } else {
            earlier
        }
    }
}

/// Where the first wildcard of a pattern stands; its length where it has
/// none.
pub open spec fn first_wildcard(pattern: Seq<u8>) -> int
    decreases pattern.len(),
{
    if pattern.len() == 0 {
        0
    } else if pattern[0] == STAR || pattern[0] == QUESTION {
        0
    } else {
        1 + first_wildcard(pattern.skip(1))
    }
}

/// How many bytes of a pattern's first `n` stand before its last
/// separator among them, that separator included; zero where there is
/// none.
pub open spec fn through_last_separator(pattern: Seq<u8>, n: int) -> int
    decreases n,
{
    if n <= 0 {
        0
    } else if pattern[n - 1] == SEPARATOR {
        n
    } else {
        through_last_separator(pattern, n - 1)
    }
}

/// The directory below which everything a glob can name lies: the
/// pattern up to the last separator before its first wildcard. The
/// separator itself stays only where it is the whole directory (the
/// root). A pattern whose first component holds a wildcard has none, and
/// the answer is empty.
pub open spec fn search_root(pattern: Seq<u8>) -> Seq<u8> {
    let cut = through_last_separator(pattern, first_wildcard(pattern));
    if cut <= 1 {
        pattern.take(cut)
    } else {
        pattern.take(cut - 1)
    }
}

/// A pattern without wildcards accepts its own text and nothing else, so
/// that a literal path means the same whether it is read as a path or as a
/// glob.
pub proof fn law_literal_accepts_itself(pattern: Seq<u8>, path: Seq<u8>)
    requires
        !has_wildcard(pattern),
    ensures
        accepts(pattern, path) <==> path == pattern,
    decreases pattern.len(),
{
    if pattern.len() == 0 {
        assert(path.len() == 0 <==> path =~= pattern);
    } else {
        assert(!(pattern[0] == STAR || pattern[0] == QUESTION));
        let rest = pattern.skip(1);
        assert forall|i: int| 0 <= i < rest.len() implies !(#[trigger] rest[i] == STAR || rest[i]
            == QUESTION) by {
            assert(!(pattern[i + 1] == STAR || pattern[i + 1] == QUESTION));
        }
        if path.len() > 0 {
            law_literal_accepts_itself(rest, path.skip(1));
            if path[0] == pattern[0] && path.skip(1) == rest {
                assert(path =~= pattern) by {
                    assert forall|i: int| 0 <= i < path.len() implies path[i] == pattern[i] by {
                        if i > 0 {
                            assert(path.skip(1)[i - 1] == path[i]);
                            assert(rest[i - 1] == pattern[i]);
                        }
                    }
                    assert(path.len() == path.skip(1).len() + 1);
                }
            }
            if path == pattern {
                assert(path.skip(1) =~= rest);
            }
        }
    }
}

/// Whether a pattern is a glob.
pub fn is_glob(pattern: &Vec<u8>) -> (glob: bool)
    ensures
        glob == has_wildcard(pattern@),
{
    let mut i: usize = 0;
    while i < pattern.len()
        invariant
            i <= pattern.len(),
            forall|k: int| 0 <= k < i ==> !(#[trigger] pattern@[k] == STAR || pattern@[k] == QUESTION),
        decreases pattern.len() - i,
    {
        if pattern[i] == STAR || pattern[i] == QUESTION {
            return true;
        }
        i += 1;
    }
    false
}

/// Whether `pattern` from position `p` on accepts `path` from position
/// `s` on.
fn accepts_from(pattern: &Vec<u8>, p: usize, path: &Vec<u8>, s: usize) -> (accepted: bool)
    requires
        p <= pattern.len(),
        s <= path.len(),
    ensures
        accepted == accepts(pattern@.skip(p as int), path@.skip(s as int)),
    decreases pattern.len() - p, path.len() - s, 1int,
{
    let ghost rest = pattern@.skip(p as int);
    let ghost tail = path@.skip(s as int);
    if p == pattern.len() {
        return s == path.len();
    }
    let head = pattern[p];
    let deep = head == STAR && pattern.len() - p >= 2 && pattern[p + 1] == STAR;
    let deep_dir = deep && pattern.len() - p >= 3 && pattern[p + 2] == SEPARATOR;
    proof {
        assert(rest[0] == head);
        if pattern.len() - p >= 2 {
            assert(rest[1] == pattern@[p + 1]);
        }
        if pattern.len() - p >= 3 {
            assert(rest[2] == pattern@[p + 2]);
        }
        assert(deep == starts_deep(rest));
        assert(deep_dir == starts_deep_dir(rest));
        if s < path.len() {
            assert(tail[0] == path@[s as int]);
            assert(tail.skip(1) =~= path@.skip(s + 1));
        }
    }
    if deep_dir {
        assert(rest.skip(3) =~= pattern@.skip(p + 3));
        accepts_from(pattern, p + 3, path, s) || accepts_below_from(pattern, p, path, s)
    } else if deep {
        assert(rest.skip(2) =~= pattern@.skip(p + 2));
        accepts_from(pattern, p + 2, path, s) || (s < path.len() && accepts_from(
            pattern,
            p,
            path,
            s + 1,
        ))
    } else if head == STAR {
        assert(rest.skip(1) =~= pattern@.skip(p + 1));
        accepts_from(pattern, p + 1, path, s) || (s < path.len() && path[s] != SEPARATOR
            && accepts_from(pattern, p, path, s + 1))
    } else if head == QUESTION {
        assert(rest.skip(1) =~= pattern@.skip(p + 1));
        s < path.len() && path[s] != SEPARATOR && accepts_from(pattern, p + 1, path, s + 1)
    } else {
        assert(rest.skip(1) =~= pattern@.skip(p + 1));
        s < path.len() && path[s] == head && accepts_from(pattern, p + 1, path, s + 1)
    }
}

/// For a pattern that starts with `**/` at position `p`: whether it
/// accepts what stands behind one of the separators of `path` from
/// position `s` on.
fn accepts_below_from(pattern: &Vec<u8>, p: usize, path: &Vec<u8>, s: usize) -> (accepted: bool)
    requires
        p <= pattern.len(),
        s <= path.len(),
    ensures
        accepted == accepts_below(pattern@.skip(p as int), path@.skip(s as int)),
    decreases pattern.len() - p, path.len() - s, 0int,
{
    let ghost tail = path@.skip(s as int);
    if s == path.len() {
        return false;
    }
    proof {
        assert(tail[0] == path@[s as int]);
        assert(tail.skip(1) =~= path@.skip(s + 1));
    }
    if path[s] == SEPARATOR {
        accepts_from(pattern, p, path, s + 1)
    } else {
        accepts_below_from(pattern, p, path, s + 1)
    }
}

/// Whether a glob pattern accepts a path: see [`accepts`].
pub fn glob_accepts(pattern: &Vec<u8>, path: &Vec<u8>) -> (accepted: bool)
    ensures
        accepted == accepts(pattern@, path@),
{
    assert(pattern@.skip(0) =~= pattern@);
    assert(path@.skip(0) =~= path@);
    accepts_from(pattern, 0, path, 0)
}

/// Resolves one pattern against what exists on disk: see [`resolved`].
pub fn resolve(pattern: &Vec<u8>, existing: &Vec<Found>) -> (targets: Vec<WatchTarget>)
    ensures
        crate::watcher::target_views(targets@) == resolved(
            pattern@,
            found_views(existing@),
            existing@.len() as int,
        ),
{
    let ghost all = found_views(existing@);
    let glob = is_glob(pattern);
    let mut targets: Vec<WatchTarget> = Vec::new();
    assert(crate::watcher::target_views(targets@) =~= Seq::<WatchTargetView>::empty());
    let mut i: usize = 0;
    while i < existing.len()
        invariant
            i <= existing.len(),
            all == found_views(existing@),
            glob == has_wildcard(pattern@),
            crate::watcher::target_views(targets@) == resolved(pattern@, all, i as int),
        decreases existing.len() - i,
    {
        let found = &existing[i];
        assert(all[i as int] == found@);
        let named = if glob {
            found.kind == TargetKind::File && glob_accepts(pattern, &found.path)
        } else {
            same_path(&found.path, pattern)
        };
        if named {
            let ghost before = crate::watcher::target_views(targets@);
            targets.push(
                WatchTarget { path: found.path.clone(), kind: found.kind, pattern: pattern.clone() },
            );
            assert(crate::watcher::target_views(targets@) =~= before.push(
                WatchTargetView { path: found@.path, kind: found@.kind, pattern: pattern@ },
            ));
        }
        i += 1;
    }
    targets
}

/// The directory to search for what a glob names: see [`search_root`].
pub fn glob_root(pattern: &Vec<u8>) -> (root: Vec<u8>)
    ensures
        root@ == search_root(pattern@),
{
    let mut wild: usize = 0;
    assert(pattern@.skip(0) =~= pattern@);
    while wild < pattern.len() && pattern[wild] != STAR && pattern[wild] != QUESTION
        invariant
            wild <= pattern.len(),
            first_wildcard(pattern@) == wild + first_wildcard(pattern@.skip(wild as int)),
        decreases pattern.len() - wild,
    {
        proof {
            let rest = pattern@.skip(wild as int);
            assert(rest[0] == pattern@[wild as int]);
            assert(rest.skip(1) =~= pattern@.skip(wild + 1));
        }
        wild += 1;
    }
    proof {
        let rest = pattern@.skip(wild as int);
        if wild < pattern.len() {
            assert(rest[0] == pattern@[wild as int]);
        }
        assert(first_wildcard(rest) == 0);
    }
    let mut cut: usize = wild;
    while cut > 0 && pattern[cut - 1] != SEPARATOR
        invariant
            cut <= wild <= pattern.len(),
            through_last_separator(pattern@, wild as int) == through_last_separator(
                pattern@,
                cut as int,
            ),
        decreases cut,
    {
        cut -= 1;
    }
    let keep: usize = if cut <= 1 {
        cut
    } else {
        cut - 1
    };
    let mut root: Vec<u8> = Vec::new();
    let mut i: usize = 0;
    while i < keep
        invariant
            i <= keep <= pattern.len(),
            root@ == pattern@.take(i as int),
        decreases keep - i,
    {
        root.push(pattern[i]);
        assert(root@ =~= pattern@.take(i + 1));
        i += 1;
    }
    root
}

} // verus!
