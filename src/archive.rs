//! Archive planning: from a walk of a staged directory tree, the entries of a
//! reproducible tar archive (and the members of an ar archive), in walk order.

use vstd::prelude::*;
use vstd::string::*;

use crate::paths::{escapes, escapes_root};

verus! {

/// The permission bits of every directory entry.
pub const DIR_MODE: u32 = 0o755;

/// The permission bits of a file whose platform reports none.
pub const DEFAULT_FILE_MODE: u32 = 0o644;

/// One item of a walk of the staged tree, root first and each directory before
/// its contents; `path` is relative to the root (empty for the root itself).
pub struct WalkEntry {
    pub path: String,
    pub is_dir: bool,
    pub size: u64,
    /// The POSIX permission bits, where the platform has them.
    pub mode: Option<u32>,
    /// Seconds since the Unix epoch.
    pub mtime: u64,
}

#[derive(Clone, Copy, Debug, PartialEq, Eq, Structural)]
pub enum EntryKind {
    File,
    Directory,
}

/// One header of the archive: the bytes of a file entry follow it.
pub struct ArchiveEntry {
    pub path: String,
    pub kind: EntryKind,
    pub size: u64,
    pub mode: u32,
    pub mtime: u64,
}

/// An archive entry over plain values.
pub struct EntryView {
    pub path: Seq<char>,
    pub kind: EntryKind,
    pub size: u64,
    pub mode: u32,
    pub mtime: u64,
}

#[derive(Debug)]
pub enum ArchiveError {
    /// The bytes written for a file differ from its declared size; it holds the path.
    SizeMismatch(String),
    /// An entry's path would leave the extraction root; it holds the path.
    UnsafePath(String),
    /// A directory comes after an entry inside it; it holds the directory's path.
    OutOfOrder(String),
}

/// Why a walk cannot be planned, over plain values.
pub enum PlanFailure {
    UnsafePath(Seq<char>),
    OutOfOrder(Seq<char>),
}

pub open spec fn entry_view(e: ArchiveEntry) -> EntryView {
    EntryView { path: e.path@, kind: e.kind, size: e.size, mode: e.mode, mtime: e.mtime }
}

pub open spec fn entries_view(es: Seq<ArchiveEntry>) -> Seq<EntryView> {
    es.map_values(|e: ArchiveEntry| entry_view(e))
}

/// A path with every host separator `sep` turned into `/`. Other characters are
/// kept, so on Unix (`sep` is `/`) a `\` in a file name stays as it is.
pub open spec fn normalize(p: Seq<char>, sep: char) -> Seq<char> {
    p.map_values(|c: char| if c == sep { '/' } else { c })
}

/// The archive entry for an item of the walk: directories get size 0 and
/// `DIR_MODE`; files keep their size, and their mode or `DEFAULT_FILE_MODE`.
pub open spec fn plan_of(w: WalkEntry, sep: char) -> EntryView {
    if w.is_dir {
        EntryView { path: normalize(w.path@, sep), kind: EntryKind::Directory, size: 0, mode: DIR_MODE, mtime: w.mtime }
    } else {
        EntryView {
            path: normalize(w.path@, sep),
            kind: EntryKind::File,
            size: w.size,
            mode: match w.mode {
                Some(m) => m,
                None => DEFAULT_FILE_MODE,
            },
            mtime: w.mtime,
        }
    }
}

/// The entries of a walk, in order, without the root.
pub open spec fn planned(walk: Seq<WalkEntry>, sep: char) -> Seq<EntryView>
    decreases walk.len(),
{
    if walk.len() == 0 {
        Seq::empty()
    } else if walk.last().path@.len() == 0 {
        planned(walk.drop_last(), sep)
    } else {
        planned(walk.drop_last(), sep).push(plan_of(walk.last(), sep))
    }
}

/// Whether `p` lies inside the directory `d`.
pub open spec fn inside(d: Seq<char>, p: Seq<char>) -> bool {
    d.len() < p.len() && p.subrange(0, d.len() as int) == d && p[d.len() as int] == '/'
}

/// Whether no directory entry comes after an entry inside it.
pub open spec fn dirs_first(es: Seq<EntryView>) -> bool {
    forall|i: int, j: int|
        0 <= i < j < es.len() && es[j].kind == EntryKind::Directory ==> !inside(
            #[trigger] es[j].path,
            #[trigger] es[i].path,
        )
}

/// `p` with every host separator `sep` turned into `/`.
pub fn normalize_path(p: &str, sep: char) -> (r: String)
    ensures
        r@ == normalize(p@, sep),
{
    proof {
        reveal_strlit("/");
    }
    let n = p.unicode_len();
    let mut r = String::new();
    let mut i: usize = 0;
    while i < n
        invariant
            n == p@.len(),
            i <= n,
            "/"@ == seq!['/'],
            r@ == normalize(p@.subrange(0, i as int), sep),
        decreases n - i,
    {
        let c = p.get_char(i);
        if c == sep {
            r.append("/");
        } else {
            r.append(p.substring_char(i, i + 1));
        }
        assert(r@ =~= normalize(p@.subrange(0, i + 1), sep));
        i = i + 1;
    }
    assert(p@.subrange(0, n as int) =~= p@);
    r
}

/// Whether some entry of `es` lies inside the directory `d`.
pub open spec fn holds_inside(es: Seq<EntryView>, d: Seq<char>) -> bool {
    exists|i: int| 0 <= i < es.len() && inside(d, #[trigger] es[i].path)
}

/// The planned entries of a walk; or, for the first planned entry that is
/// wrong, `UnsafePath` where its path would leave the extraction root (see
/// `escapes_root`, with `/` as the only separator) and `OutOfOrder` where it is
/// a directory that comes after an entry inside it.
pub open spec fn plan_result(walk: Seq<WalkEntry>, sep: char) -> Result<Seq<EntryView>, PlanFailure>
    decreases walk.len(),
{
    if walk.len() == 0 {
        Ok(Seq::empty())
    } else {
        match plan_result(walk.drop_last(), sep) {
            Err(f) => Err(f),
            Ok(prev) => {
                let v = plan_of(walk.last(), sep);
                if walk.last().path@.len() == 0 {
                    Ok(prev)
                } else if escapes_root(v.path, '/') {
                    Err(PlanFailure::UnsafePath(v.path))
                } else if v.kind == EntryKind::Directory && holds_inside(prev, v.path) {
                    Err(PlanFailure::OutOfOrder(v.path))
                } else {
                    Ok(prev.push(v))
                }
            },
        }
    }
}

/// Whether an executable plan agrees with one over plain values.
pub open spec fn plan_agrees(r: Result<Vec<ArchiveEntry>, ArchiveError>, e: Result<Seq<EntryView>, PlanFailure>) -> bool {
    match r {
        Ok(es) => e == Ok::<Seq<EntryView>, PlanFailure>(entries_view(es@)),
        Err(ArchiveError::UnsafePath(p)) => e == Err::<Seq<EntryView>, PlanFailure>(PlanFailure::UnsafePath(p@)),
        Err(ArchiveError::OutOfOrder(p)) => e == Err::<Seq<EntryView>, PlanFailure>(PlanFailure::OutOfOrder(p@)),
        Err(ArchiveError::SizeMismatch(_)) => false,
    }
}

/// Whether `p` lies inside the directory `d` (see `inside`).
pub fn is_inside(d: &str, p: &str) -> (r: bool)
    ensures
        r == inside(d@, p@),
{
    let n = d.unicode_len();
    let m = p.unicode_len();
    if n >= m || p.get_char(n) != '/' {
        return false;
    }
    let mut i: usize = 0;
    while i < n
        invariant
            n == d@.len(),
            m == p@.len(),
            n < m,
            i <= n,
            p@.subrange(0, i as int) == d@.subrange(0, i as int),
        decreases n - i,
    {
        if p.get_char(i) != d.get_char(i) {
            assert(p@.subrange(0, n as int)[i as int] != d@[i as int]);
            return false;
        }
        assert(p@.subrange(0, i + 1) =~= p@.subrange(0, i as int).push(p@[i as int]));
        assert(d@.subrange(0, i + 1) =~= d@.subrange(0, i as int).push(d@[i as int]));
        i = i + 1;
    }
    assert(d@.subrange(0, n as int) =~= d@);
    true
}

/// The tar entries of a walk of the staged tree, in walk order, without the root,
/// with the host separator `sep` turned into `/`; or the failure of the first
/// wrong entry (see `plan_result`).
pub fn plan_entries(walk: &Vec<WalkEntry>, sep: char) -> (r: Result<Vec<ArchiveEntry>, ArchiveError>)
    ensures
        plan_agrees(r, plan_result(walk@, sep)),
{
    let mut out: Vec<ArchiveEntry> = Vec::new();
    let mut k: usize = 0;
    assert(walk@.subrange(0, 0) =~= Seq::<WalkEntry>::empty());
    assert(entries_view(out@) =~= Seq::<EntryView>::empty());
    while k < walk.len()
        invariant
            k <= walk@.len(),
            plan_result(walk@.subrange(0, k as int), sep) == Ok::<Seq<EntryView>, PlanFailure>(entries_view(out@)),
        decreases walk@.len() - k,
    {
        let w = &walk[k];
        assert(walk@.subrange(0, k + 1).drop_last() =~= walk@.subrange(0, k as int));
        assert(walk@.subrange(0, k + 1).last() == walk@[k as int]);
        if w.path.as_str().unicode_len() > 0 {
            let path = normalize_path(w.path.as_str(), sep);
            if escapes(path.as_str(), '/') {
                proof {
                    lemma_plan_failure_stays(walk@, k as int, sep);
                }
                return Err(ArchiveError::UnsafePath(path));
            }
            if w.is_dir {
                let mut m: usize = 0;
                while m < out.len()
                    invariant
                        k < walk@.len(),
                        *w == walk@[k as int],
                        w.is_dir,
                        w.path@.len() > 0,
                        path@ == normalize(w.path@, sep),
                        !escapes_root(path@, '/'),
                        walk@.subrange(0, k + 1).drop_last() == walk@.subrange(0, k as int),
                        walk@.subrange(0, k + 1).last() == walk@[k as int],
                        plan_result(walk@.subrange(0, k as int), sep) == Ok::<Seq<EntryView>, PlanFailure>(
                            entries_view(out@),
                        ),
                        m <= out@.len(),
                        forall|j: int| 0 <= j < m ==> !inside(path@, #[trigger] entries_view(out@)[j].path),
                    decreases out@.len() - m,
                {
                    if is_inside(path.as_str(), out[m].path.as_str()) {
                        proof {
                            assert(inside(path@, entries_view(out@)[m as int].path));
                            lemma_plan_failure_stays(walk@, k as int, sep);
                        }
                        return Err(ArchiveError::OutOfOrder(path));
                    }
                    m = m + 1;
                }
            }
            let e = if w.is_dir {
                ArchiveEntry { path, kind: EntryKind::Directory, size: 0, mode: DIR_MODE, mtime: w.mtime }
            } else {
                let mode = match w.mode {
                    Some(m) => m,
                    None => DEFAULT_FILE_MODE,
                };
                ArchiveEntry { path, kind: EntryKind::File, size: w.size, mode, mtime: w.mtime }
            };
            let ghost before = out@;
            out.push(e);
            assert(entries_view(out@) =~= entries_view(before).push(entry_view(e)));
        }
        k = k + 1;
    }
    assert(walk@.subrange(0, walk@.len() as int) =~= walk@);
    Ok(out)
}

proof fn lemma_plan_failure_stays(walk: Seq<WalkEntry>, k: int, sep: char)
    requires
        0 <= k < walk.len(),
        plan_result(walk.subrange(0, k + 1), sep) is Err,
    ensures
        plan_result(walk, sep) == plan_result(walk.subrange(0, k + 1), sep),
    decreases walk.len() - k,
{
    if k + 1 < walk.len() {
        assert(walk.subrange(0, k + 2).drop_last() =~= walk.subrange(0, k + 1));
        lemma_plan_failure_stays(walk, k + 1, sep);
    } else {
        assert(walk.subrange(0, k + 1) =~= walk);
    }
}

/// A successful plan holds exactly the planned entries, none of their paths
/// leaves the extraction root (none starts with `/` or has a `..` component),
/// and no directory comes after an entry inside it.
pub proof fn plan_stays_inside(walk: Seq<WalkEntry>, sep: char)
    requires
        plan_result(walk, sep) is Ok,
    ensures
        plan_result(walk, sep)->Ok_0 == planned(walk, sep),
        forall|i: int| 0 <= i < planned(walk, sep).len() ==> !escapes_root(#[trigger] planned(walk, sep)[i].path, '/'),
        dirs_first(planned(walk, sep)),
    decreases walk.len(),
{
    if walk.len() > 0 {
        let q = walk.drop_last();
        plan_stays_inside(q, sep);
    }
}

/// On a host whose separator is `/`, a path is planned as it is, a `\` in a
/// file name included.
pub proof fn unix_paths_kept(p: Seq<char>)
    ensures
        normalize(p, '/') == p,
{
    assert(normalize(p, '/') =~= p);
}

/// Fails unless the bytes written for a file entry are as many as it declares.
pub fn check_entry_size(e: &ArchiveEntry, written: u64) -> (r: Result<(), ArchiveError>)
    ensures
        r is Ok <==> written == e.size,
        r matches Err(ArchiveError::SizeMismatch(p)) ==> p@ == e.path@,
{
    if written == e.size {
        Ok(())
    } else {
        Err(ArchiveError::SizeMismatch(e.path.clone()))
    }
}

/// The paths of the files of a walk, in order: the members of an ar archive.
pub open spec fn ar_members_of(walk: Seq<WalkEntry>) -> Seq<Seq<char>>
    decreases walk.len(),
{
    if walk.len() == 0 {
        Seq::empty()
    } else if walk.last().is_dir {
        ar_members_of(walk.drop_last())
    } else {
        ar_members_of(walk.drop_last()).push(walk.last().path@)
    }
}

pub fn ar_members(walk: &Vec<WalkEntry>) -> (r: Vec<String>)
    ensures
        r@.map_values(|s: String| s@) == ar_members_of(walk@),
{
    let mut out: Vec<String> = Vec::new();
    let mut k: usize = 0;
    assert(walk@.subrange(0, 0) =~= Seq::<WalkEntry>::empty());
    assert(out@.map_values(|s: String| s@) =~= Seq::<Seq<char>>::empty());
    while k < walk.len()
        invariant
            k <= walk@.len(),
            out@.map_values(|s: String| s@) == ar_members_of(walk@.subrange(0, k as int)),
        decreases walk@.len() - k,
    {
        assert(walk@.subrange(0, k + 1).drop_last() =~= walk@.subrange(0, k as int));
        if !walk[k].is_dir {
            let ghost before = out@;
            out.push(walk[k].path.clone());
            assert(out@.map_values(|s: String| s@) =~= before.map_values(|s: String| s@).push(walk@[k as int].path@));
        }
        k = k + 1;
    }
    assert(walk@.subrange(0, walk@.len() as int) =~= walk@);
    out
}

/// Every item of the walk but the root has an entry in the archive, under its
/// path with `/` separators, of its kind, and for a file with its size and
/// modification time.
pub proof fn planned_keeps_walk(walk: Seq<WalkEntry>, k: int, sep: char)
    requires
        0 <= k < walk.len(),
        walk[k].path@.len() > 0,
    ensures
        exists|i: int|
            0 <= i < planned(walk, sep).len() && (#[trigger] planned(walk, sep)[i]).path == normalize(walk[k].path@, sep)
                && (planned(walk, sep)[i].kind == EntryKind::Directory <==> walk[k].is_dir)
                && planned(walk, sep)[i].mtime == walk[k].mtime
                && (!walk[k].is_dir ==> planned(walk, sep)[i].size == walk[k].size),
    decreases walk.len(),
{
    let q = walk.drop_last();
    if k < walk.len() - 1 {
        assert(q[k] == walk[k]);
        planned_keeps_walk(q, k, sep);
        let i = choose|i: int|
            0 <= i < planned(q, sep).len() && (#[trigger] planned(q, sep)[i]).path == normalize(q[k].path@, sep)
                && (planned(q, sep)[i].kind == EntryKind::Directory <==> q[k].is_dir)
                && planned(q, sep)[i].mtime == q[k].mtime
                && (!q[k].is_dir ==> planned(q, sep)[i].size == q[k].size);
        assert(planned(walk, sep)[i] == planned(q, sep)[i]);
    } else {
        let i = planned(q, sep).len() as int;
        assert(planned(walk, sep)[i] == plan_of(walk[k], sep));
    }
}

} // verus!
