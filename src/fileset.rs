//! File-set resolution: each entry selects paths of the source tree with a glob
//! pattern and exclusions, and maps them below an expanded destination.

use vstd::prelude::*;
use vstd::string::*;

use crate::glob::{glob_match, glob_matches, match_root, match_root_len};
use crate::paths::{escapes, escapes_root};
use crate::placeholder::{expand, expand_spec, MacroContext, MacroError};

verus! {

/// One copy rule: paths matching `from` (and none of `exclude`) go below `to`.
pub struct FileSetEntry {
    pub from: String,
    pub to: String,
    pub exclude: Vec<String>,
    /// Whether a pattern that matches nothing is accepted.
    pub optional: bool,
}

/// A file to copy: `source` under the source root, `destination` within the
/// staging root.
pub struct ResolvedCopy {
    pub source: String,
    pub destination: String,
}

#[derive(Debug)]
pub enum ResolveError {
    /// No layer supplies a file set.
    FilesNotSet,
    /// A required pattern matched no path; it holds the pattern.
    NoMatch(String),
    /// An expanded destination leaves the staging root; it holds the destination.
    UnsafeDestination(String),
    /// A destination names an unknown placeholder; it holds the field.
    UnknownMacro(String),
}

/// The error kinds of resolution, over plain values.
pub enum ResolveFailure {
    FilesNotSet,
    NoMatch(Seq<char>),
    UnsafeDestination(Seq<char>),
    UnknownMacro(Seq<char>),
}

pub open spec fn failure_of(e: ResolveError) -> ResolveFailure {
    match e {
        ResolveError::FilesNotSet => ResolveFailure::FilesNotSet,
        ResolveError::NoMatch(p) => ResolveFailure::NoMatch(p@),
        ResolveError::UnsafeDestination(d) => ResolveFailure::UnsafeDestination(d@),
        ResolveError::UnknownMacro(f) => ResolveFailure::UnknownMacro(f@),
    }
}

/// A copy as a pair (source, destination).
pub open spec fn copy_view(c: ResolvedCopy) -> (Seq<char>, Seq<char>) {
    (c.source@, c.destination@)
}

pub open spec fn copies_view(v: Seq<ResolvedCopy>) -> Seq<(Seq<char>, Seq<char>)> {
    v.map_values(|c: ResolvedCopy| copy_view(c))
}

/// Whether an executable resolution result agrees with a result over plain values.
pub open spec fn resolution_agrees(
    r: Result<Vec<ResolvedCopy>, ResolveError>,
    e: Result<Seq<(Seq<char>, Seq<char>)>, ResolveFailure>,
) -> bool {
    match r {
        Ok(v) => e == Ok::<Seq<(Seq<char>, Seq<char>)>, ResolveFailure>(copies_view(v@)),
        Err(x) => e == Err::<Seq<(Seq<char>, Seq<char>)>, ResolveFailure>(failure_of(x)),
    }
}

/// `base` and `rel` joined by one `/` (none is added after an empty base or a
/// trailing `/`).
pub open spec fn join_path(base: Seq<char>, rel: Seq<char>) -> Seq<char> {
    if base.len() == 0 || base.last() == '/' {
        base + rel
    } else {
        base + seq!['/'] + rel
    }
}

/// Destinations come from configuration that may be used on any host, so both
/// `/` and `\` count as separators when checking that one stays inside the
/// staging root.
pub open spec fn dest_escapes(d: Seq<char>) -> bool {
    escapes_root(d, '\\')
}

/// Whether the entry selects the path: the pattern matches and no exclusion does.
pub open spec fn selects(e: FileSetEntry, path: Seq<char>) -> bool {
    glob_match(e.from@, path) && !(exists|k: int|
        0 <= k < e.exclude@.len() && glob_match(#[trigger] e.exclude@[k]@, path))
}

/// The part of a selected path below the pattern's match root.
pub open spec fn below_root(pattern: Seq<char>, path: Seq<char>) -> Seq<char> {
    if match_root_len(pattern) <= path.len() {
        path.subrange(match_root_len(pattern) as int, path.len() as int)
    } else {
        path
    }
}

/// The copies an entry yields from the candidate paths, in their order, given
/// the expanded destination `to`.
pub open spec fn entry_copies(
    e: FileSetEntry,
    to: Seq<char>,
    src_root: Seq<char>,
    paths: Seq<Seq<char>>,
) -> Seq<(Seq<char>, Seq<char>)>
    decreases paths.len(),
{
    if paths.len() == 0 {
        Seq::empty()
    } else {
        let prev = entry_copies(e, to, src_root, paths.drop_last());
        let p = paths.last();
        if selects(e, p) {
            prev.push((join_path(src_root, p), join_path(to, below_root(e.from@, p))))
        } else {
            prev
        }
    }
}

/// Whether the entry selects none of the paths.
pub open spec fn selects_none(e: FileSetEntry, paths: Seq<Seq<char>>) -> bool {
    forall|k: int| 0 <= k < paths.len() ==> !selects(e, #[trigger] paths[k])
}

/// What one entry resolves to over the candidate paths. An entry that selects
/// nothing yields no copies if it is optional and fails with `NoMatch` if not,
/// whatever its destination; otherwise its destination is expanded and checked.
pub open spec fn resolve_entry_spec(
    e: FileSetEntry,
    src_root: Seq<char>,
    paths: Seq<Seq<char>>,
    ctx: MacroContext,
) -> Result<Seq<(Seq<char>, Seq<char>)>, ResolveFailure> {
    if selects_none(e, paths) {
        if e.optional {
            Ok(Seq::empty())
        } else {
            Err(ResolveFailure::NoMatch(e.from@))
        }
    } else {
        match expand_spec(e.to@, ctx) {
            Err(f) => Err(ResolveFailure::UnknownMacro(f)),
            Ok(to) => if dest_escapes(to) {
                Err(ResolveFailure::UnsafeDestination(to))
            } else {
                Ok(entry_copies(e, to, src_root, paths))
            },
        }
    }
}

/// What a list of entries resolves to: the copies of each entry in turn, or the
/// failure of the first entry that fails.
pub open spec fn resolve_entries_spec(
    es: Seq<FileSetEntry>,
    src_root: Seq<char>,
    paths: Seq<Seq<char>>,
    ctx: MacroContext,
) -> Result<Seq<(Seq<char>, Seq<char>)>, ResolveFailure>
    decreases es.len(),
{
    if es.len() == 0 {
        Ok(Seq::empty())
    } else {
        match resolve_entries_spec(es.drop_last(), src_root, paths, ctx) {
            Err(x) => Err(x),
            Ok(prev) => match resolve_entry_spec(es.last(), src_root, paths, ctx) {
                Err(x) => Err(x),
                Ok(cs) => Ok(prev + cs),
            },
        }
    }
}

/// The index of the first layer that supplies a file set.
pub open spec fn first_layer_spec(layers: Seq<Option<Vec<FileSetEntry>>>) -> Option<int>
    decreases layers.len(),
{
    if layers.len() == 0 {
        None
    } else if layers[0] is Some {
        Some(0)
    } else {
        match first_layer_spec(layers.drop_first()) {
            Some(k) => Some(k + 1),
            None => None,
        }
    }
}

/// What resolution over layered file sets yields: the first layer that supplies a
/// file set wins; with none, `FilesNotSet`.
pub open spec fn resolve_layers_spec(
    layers: Seq<Option<Vec<FileSetEntry>>>,
    src_root: Seq<char>,
    paths: Seq<Seq<char>>,
    ctx: MacroContext,
) -> Result<Seq<(Seq<char>, Seq<char>)>, ResolveFailure> {
    match first_layer_spec(layers) {
        None => Err(ResolveFailure::FilesNotSet),
        Some(k) => resolve_entries_spec(layers[k]->Some_0@, src_root, paths, ctx),
    }
}

/// `base` and `rel` joined as `join_path` says.
pub fn join(base: &str, rel: &str) -> (r: String)
    ensures
        r@ == join_path(base@, rel@),
{
    let n = base.unicode_len();
    let mut r = base.to_owned();
    if n > 0 && base.get_char(n - 1) != '/' {
        proof {
            reveal_strlit("/");
        }
        r.append("/");
    }
    r.append(rel);
    proof {
        if n > 0 && base@.last() != '/' {
            assert(r@ =~= base@ + seq!['/'] + rel@);
        }
    }
    r
}

/// Whether `e` selects `path` (see `selects`).
pub fn entry_selects(e: &FileSetEntry, path: &str) -> (r: bool)
    ensures
        r == selects(*e, path@),
{
    if !glob_matches(e.from.as_str(), path) {
        return false;
    }
    let mut k: usize = 0;
    while k < e.exclude.len()
        invariant
            k <= e.exclude@.len(),
            forall|m: int| 0 <= m < k ==> !glob_match(#[trigger] e.exclude@[m]@, path@),
        decreases e.exclude@.len() - k,
    {
        if glob_matches(e.exclude[k].as_str(), path) {
            return false;
        }
        k = k + 1;
    }
    true
}

/// The copies that one entry yields from the candidate paths (relative to
/// `src_root`, in walk order).
pub fn resolve_entry(e: &FileSetEntry, src_root: &str, paths: &Vec<String>, ctx: &MacroContext) -> (r:
    Result<Vec<ResolvedCopy>, ResolveError>)
    ensures
        resolution_agrees(r, resolve_entry_spec(*e, src_root@, paths@.map_values(|p: String| p@), *ctx)),
{
    let ghost ps = paths@.map_values(|p: String| p@);
    let mut any = false;
    let mut k: usize = 0;
    while k < paths.len() && !any
        invariant
            k <= paths@.len(),
            ps == paths@.map_values(|p: String| p@),
            any ==> !selects_none(*e, ps),
            !any ==> forall|m: int| 0 <= m < k ==> !selects(*e, #[trigger] ps[m]),
        decreases paths@.len() - k,
    {
        assert(ps[k as int] == paths@[k as int]@);
        if entry_selects(e, paths[k].as_str()) {
            any = true;
        }
        k = k + 1;
    }
    if !any {
        if e.optional {
            let none: Vec<ResolvedCopy> = Vec::new();
            assert(copies_view(none@) =~= Seq::<(Seq<char>, Seq<char>)>::empty());
            return Ok(none);
        } else {
            return Err(ResolveError::NoMatch(e.from.clone()));
        }
    }
    let to = match expand(e.to.as_str(), ctx) {
        Ok(to) => to,
        Err(MacroError::UnknownMacro(f)) => {
            return Err(ResolveError::UnknownMacro(f));
        },
    };
    if escapes(to.as_str(), '\\') {
        return Err(ResolveError::UnsafeDestination(to));
    }
    let root = match_root(e.from.as_str());
    let mut out: Vec<ResolvedCopy> = Vec::new();
    let mut k: usize = 0;
    while k < paths.len()
        invariant
            k <= paths@.len(),
            ps == paths@.map_values(|p: String| p@),
            root == match_root_len(e.from@),
            copies_view(out@) == entry_copies(*e, to@, src_root@, ps.subrange(0, k as int)),
        decreases paths@.len() - k,
    {
        let p = paths[k].as_str();
        assert(ps.subrange(0, k + 1).drop_last() =~= ps.subrange(0, k as int));
        if entry_selects(e, p) {
            let n = p.unicode_len();
            let rel = if root <= n {
                p.substring_char(root, n)
            } else {
                p
            };
            let c = ResolvedCopy { source: join(src_root, p), destination: join(to.as_str(), rel) };
            let ghost before = out@;
            out.push(c);
            assert(copies_view(out@) =~= copies_view(before).push(copy_view(c)));
        }
        k = k + 1;
    }
    assert(ps.subrange(0, paths@.len() as int) =~= ps);
    Ok(out)
}

/// The copies of every entry in turn, or the first entry's failure.
pub fn resolve_entries(es: &Vec<FileSetEntry>, src_root: &str, paths: &Vec<String>, ctx: &MacroContext) -> (r:
    Result<Vec<ResolvedCopy>, ResolveError>)
    ensures
        resolution_agrees(r, resolve_entries_spec(es@, src_root@, paths@.map_values(|p: String| p@), *ctx)),
{
    let ghost ps = paths@.map_values(|p: String| p@);
    let mut out: Vec<ResolvedCopy> = Vec::new();
    let mut k: usize = 0;
    assert(es@.subrange(0, 0) =~= Seq::<FileSetEntry>::empty());
    assert(copies_view(out@) =~= Seq::<(Seq<char>, Seq<char>)>::empty());
    while k < es.len()
        invariant
            k <= es@.len(),
            ps == paths@.map_values(|p: String| p@),
            resolve_entries_spec(es@.subrange(0, k as int), src_root@, ps, *ctx)
                == Ok::<Seq<(Seq<char>, Seq<char>)>, ResolveFailure>(copies_view(out@)),
        decreases es@.len() - k,
    {
        assert(es@.subrange(0, k + 1).drop_last() =~= es@.subrange(0, k as int));
        let mut cs = match resolve_entry(&es[k], src_root, paths, ctx) {
            Ok(cs) => cs,
            Err(x) => {
                proof {
                    lemma_failure_stays(es@, k as int, src_root@, ps, *ctx);
                }
                return Err(x);
            },
        };
        let ghost before = out@;
        let ghost added = cs@;
        out.append(&mut cs);
        assert(copies_view(out@) =~= copies_view(before) + copies_view(added));
        k = k + 1;
    }
    assert(es@.subrange(0, es@.len() as int) =~= es@);
    Ok(out)
}

proof fn lemma_failure_stays(
    es: Seq<FileSetEntry>,
    k: int,
    src_root: Seq<char>,
    paths: Seq<Seq<char>>,
    ctx: MacroContext,
)
    requires
        0 <= k < es.len(),
        resolve_entries_spec(es.subrange(0, k + 1), src_root, paths, ctx) is Err,
    ensures
        resolve_entries_spec(es, src_root, paths, ctx) == resolve_entries_spec(
            es.subrange(0, k + 1),
            src_root,
            paths,
            ctx,
        ),
    decreases es.len() - k,
{
    if k + 1 < es.len() {
        assert(es.subrange(0, k + 2).drop_last() =~= es.subrange(0, k + 1));
        lemma_failure_stays(es, k + 1, src_root, paths, ctx);
    } else {
        assert(es.subrange(0, k + 1) =~= es);
    }
}

/// The index of the first layer that supplies a file set.
pub fn first_layer(layers: &Vec<Option<Vec<FileSetEntry>>>) -> (r: Option<usize>)
    ensures
        first_layer_spec(layers@) == match r {
            Some(k) => Some(k as int),
            None => None::<int>,
        },
        r matches Some(k) ==> k < layers@.len() && layers@[k as int] is Some,
{
    let mut k: usize = 0;
    while k < layers.len()
        invariant
            k <= layers@.len(),
            forall|m: int| 0 <= m < k ==> layers@[m] is None,
        decreases layers@.len() - k,
    {
        if layers[k].is_some() {
            proof {
                lemma_first_layer(layers@, k as int);
            }
            return Some(k);
        }
        k = k + 1;
    }
    proof {
        lemma_first_layer(layers@, k as int);
    }
    None
}

proof fn lemma_first_layer(layers: Seq<Option<Vec<FileSetEntry>>>, k: int)
    requires
        0 <= k <= layers.len(),
        forall|m: int| 0 <= m < k ==> layers[m] is None,
        k < layers.len() ==> layers[k] is Some,
    ensures
        first_layer_spec(layers) == if k < layers.len() { Some(k) } else { None::<int> },
    decreases layers.len(),
{
    if layers.len() > 0 && k > 0 {
        let rest = layers.drop_first();
        assert forall|m: int| 0 <= m < k - 1 implies rest[m] is None by {
            assert(rest[m] == layers[m + 1]);
        }
        lemma_first_layer(rest, k - 1);
    }
}

/// Resolves the file set of the first layer that supplies one (an entry's own
/// before its target's, say), or fails with `FilesNotSet`.
pub fn resolve_layers(
    layers: &Vec<Option<Vec<FileSetEntry>>>,
    src_root: &str,
    paths: &Vec<String>,
    ctx: &MacroContext,
) -> (r: Result<Vec<ResolvedCopy>, ResolveError>)
    ensures
        resolution_agrees(r, resolve_layers_spec(layers@, src_root@, paths@.map_values(|p: String| p@), *ctx)),
{
    match first_layer(layers) {
        None => Err(ResolveError::FilesNotSet),
        Some(k) => match &layers[k] {
            Some(es) => resolve_entries(es, src_root, paths, ctx),
            None => Err(ResolveError::FilesNotSet),
        },
    }
}

/// A required entry whose pattern selects none of the paths fails with
/// `NoMatch`, and an optional one yields no copies.
pub proof fn unmatched_entry_outcome(
    e: FileSetEntry,
    src_root: Seq<char>,
    paths: Seq<Seq<char>>,
    ctx: MacroContext,
)
    requires
        forall|k: int| 0 <= k < paths.len() ==> !selects(e, #[trigger] paths[k]),
    ensures
        !e.optional ==> resolve_entry_spec(e, src_root, paths, ctx) == Err::<
            Seq<(Seq<char>, Seq<char>)>,
            ResolveFailure,
        >(ResolveFailure::NoMatch(e.from@)),
        e.optional ==> resolve_entry_spec(e, src_root, paths, ctx) == Ok::<
            Seq<(Seq<char>, Seq<char>)>,
            ResolveFailure,
        >(Seq::empty()),
{
}

/// Whether a later copy has the same destination as copy `i` (the later one wins).
pub open spec fn is_overwritten(cs: Seq<(Seq<char>, Seq<char>)>, i: int) -> bool {
    exists|j: int| i < j < cs.len() && (#[trigger] cs[j]).1 == cs[i].1
}

/// The indices below `n` of the copies that a later copy overwrites, in order.
pub open spec fn overwritten_below(cs: Seq<(Seq<char>, Seq<char>)>, n: int) -> Seq<int>
    decreases n,
{
    if n <= 0 {
        Seq::empty()
    } else if is_overwritten(cs, n - 1) {
        overwritten_below(cs, n - 1).push(n - 1)
    } else {
        overwritten_below(cs, n - 1)
    }
}

/// The indices of the copies whose destination a later copy writes again, in
/// order: with last-writer-wins, those copies do not survive.
pub fn overwritten(copies: &Vec<ResolvedCopy>) -> (r: Vec<usize>)
    ensures
        r@.map_values(|i: usize| i as int) == overwritten_below(copies_view(copies@), copies@.len() as int),
{
    let ghost cs = copies_view(copies@);
    let n = copies.len();
    let mut out: Vec<usize> = Vec::new();
    let mut i: usize = 0;
    assert(out@.map_values(|i: usize| i as int) =~= Seq::<int>::empty());
    while i < n
        invariant
            n == copies@.len(),
            cs == copies_view(copies@),
            i <= n,
            out@.map_values(|i: usize| i as int) == overwritten_below(cs, i as int),
        decreases n - i,
    {
        let mut found = false;
        let mut j: usize = i + 1;
        while j < n
            invariant
                n == copies@.len(),
                cs == copies_view(copies@),
                i < j <= n,
                i < n,
                found <==> exists|m: int| i < m < j && (#[trigger] cs[m]).1 == cs[i as int].1,
            decreases n - j,
        {
            if crate::text::same_text(copies[j].destination.as_str(), copies[i].destination.as_str()) {
                found = true;
            }
            proof {
                assert(cs[j as int].1 == copies@[j as int].destination@);
                assert(cs[i as int].1 == copies@[i as int].destination@);
            }
            j = j + 1;
        }
        proof {
            assert(found == is_overwritten(cs, i as int));
        }
        if found {
            let ghost before = out@;
            out.push(i);
            assert(out@.map_values(|i: usize| i as int) =~= before.map_values(|i: usize| i as int).push(i as int));
        }
        i = i + 1;
    }
    out
}

} // verus!
