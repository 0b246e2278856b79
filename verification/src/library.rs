//! The in-memory index of a music library.
//!
//! The index knows the library's base path, the set of directories (held
//! relative to the base) under which audio was found, and, for each
//! directory that directly holds audio (keyed by its full path), the set of
//! audio files inside it.  The scanner fills the index one step at a time
//! through the mutators here, checking the cancellation flag between steps;
//! [`MusicLibrary::scanTree`] is the whole walk over a listed directory
//! tree, and its contract states the pruning invariant: a directory is
//! registered exactly when it or some descendant directly holds audio.

use vstd::prelude::*;

use crate::paths::TrackPath;
use crate::paths::displaySpec;
use crate::paths::isPrefixOf;
use crate::paths::isStrictPrefixOf;
use crate::paths::pathLt;
use crate::paths::pathLtIrreflexiveLemma;
use crate::paths::pathLtTransitiveLemma;
use crate::paths::pathLtTrichotomyLemma;

verus! {

/// The icon a library's root directory is listed with.
pub fn defaultTreeIcon() -> (r: String)
    ensures
        r@ == "\u{2570} "@,
{
    "\u{2570} ".to_owned()
}

/// The icon a directory inside the library is listed with.
pub fn defaultLeafIcon() -> (r: String)
    ensures
        r@ == "\u{251c} "@,
{
    "\u{251c} ".to_owned()
}

/// The audio files directly inside one directory: the directory by its
/// full path, and each file by its full path.
pub struct DirFiles {
    /// The directory's full path.
    pub dir: TrackPath,
    /// The audio files directly inside it.
    pub files: Vec<TrackPath>,
}

impl DirFiles {
    /// The files, as component paths.
    pub open spec fn filesSpec(self) -> Seq<Seq<Seq<char>>> {
        Seq::new(self.files@.len(), |i: int| self.files@[i]@)
    }
}

/// One entry of a listed directory: a file's name, and whether the audio
/// engine recognises it as audio.
pub struct FsFile {
    /// The file's name.
    pub name: String,
    /// The engine's verdict on it.
    pub audio: bool,
}

/// A listed directory tree: the directory's name, the files directly in it
/// (with the engine's verdicts already attached), and its subdirectories.
pub struct FsDir {
    /// The directory's name.
    pub name: String,
    /// The files directly inside, in listing order.
    pub files: Vec<FsFile>,
    /// The subdirectories, in listing order.
    pub subdirs: Vec<FsDir>,
}

/// The names of the audio files among `files`, in listing order.
pub open spec fn audioNamesOf(files: Seq<FsFile>) -> Seq<Seq<char>>
    decreases files.len(),
{
    if files.len() == 0 {
        Seq::empty()
    } else {
        let rest = audioNamesOf(files.drop_last());
        if files.last().audio {
            rest.push(files.last().name@)
        } else {
            rest
        }
    }
}

/// At least one of `files` is audio.
pub open spec fn hasDirectAudio(files: Seq<FsFile>) -> bool {
    audioNamesOf(files).len() > 0
}

/// The tree holds at least one audio file, here or in some descendant.
pub open spec fn treeHasAudio(t: FsDir) -> bool
    decreases t,
{
    hasDirectAudio(t.files@) || exists|i: int|
        0 <= i < t.subdirs@.len() && treeHasAudio(#[trigger] t.subdirs@[i])
}

/// Sibling names are distinct, throughout the tree.
pub open spec fn wfTree(t: FsDir) -> bool
    decreases t,
{
    &&& forall|i: int, j: int|
        0 <= i < j < t.subdirs@.len() ==> (#[trigger] t.subdirs@[i]).name@ != (
        #[trigger] t.subdirs@[j]).name@
    &&& forall|i: int, j: int|
        0 <= i < j < t.files@.len() ==> (#[trigger] t.files@[i]).name@ != (
        #[trigger] t.files@[j]).name@
    &&& forall|i: int| 0 <= i < t.subdirs@.len() ==> wfTree(#[trigger] t.subdirs@[i])
}

/// The tree in `forest` named `name`, if any.
pub open spec fn subdirNamed(forest: Seq<FsDir>, name: Seq<char>) -> Option<FsDir> {
    if exists|i: int| 0 <= i < forest.len() && (#[trigger] forest[i]).name@ == name {
        Option::Some(
            forest[choose|i: int|
                0 <= i < forest.len() && (#[trigger] forest[i]).name@ == name],
        )
    } else {
        Option::None
    }
}

/// The subtree reached from `forest` along the components of `q`.
pub open spec fn forestSubtree(forest: Seq<FsDir>, q: Seq<Seq<char>>) -> Option<FsDir>
    decreases q.len(),
{
    if q.len() == 0 {
        Option::None
    } else {
        match subdirNamed(forest, q[0]) {
            Option::Some(d) => if q.len() == 1 {
                Option::Some(d)
            } else {
                forestSubtree(d.subdirs@, q.skip(1))
            },
            Option::None => Option::None,
        }
    }
}

/// The subtree at `q` exists and holds audio somewhere.
pub open spec fn forestSubtreeHasAudio(forest: Seq<FsDir>, q: Seq<Seq<char>>) -> bool {
    match forestSubtree(forest, q) {
        Option::Some(d) => treeHasAudio(d),
        Option::None => false,
    }
}

/// The subtree at `q` exists and directly holds audio.
pub open spec fn forestSubtreeDirectAudio(forest: Seq<FsDir>, q: Seq<Seq<char>>) -> bool {
    match forestSubtree(forest, q) {
        Option::Some(d) => hasDirectAudio(d.files@),
        Option::None => false,
    }
}

/// The names of the audio files directly in the subtree at `q`.
pub open spec fn forestAudioNamesAt(forest: Seq<FsDir>, q: Seq<Seq<char>>) -> Seq<Seq<char>> {
    match forestSubtree(forest, q) {
        Option::Some(d) => audioNamesOf(d.files@),
        Option::None => Seq::empty(),
    }
}

/// The paths of `v`, as component sequences.
pub open spec fn pathSeqView(v: Seq<TrackPath>) -> Seq<Seq<Seq<char>>> {
    Seq::new(v.len(), |i: int| v[i]@)
}

/// The groups of `files`, as pairs of key and contents.
pub open spec fn groupsViewOf(files: Seq<DirFiles>) -> Seq<
    (Seq<Seq<char>>, Seq<Seq<Seq<char>>>),
> {
    Seq::new(files.len(), |i: int| (files[i].dir@, files[i].filesSpec()))
}

/// Persisted index contents are usable when the directories are listed
/// once each and sorted, no directory has two groups, and each group
/// lists its files once each and sorted.
pub open spec fn cacheDataWellFormed(dirs: Seq<TrackPath>, files: Seq<DirFiles>) -> bool {
    &&& forall|i: int, j: int|
        0 <= i < j < pathSeqView(dirs).len() ==> #[trigger] pathSeqView(dirs)[i]
            != #[trigger] pathSeqView(dirs)[j]
    &&& forall|i: int, j: int|
        0 <= i < j < pathSeqView(dirs).len() ==> pathLt(
            #[trigger] pathSeqView(dirs)[i],
            #[trigger] pathSeqView(dirs)[j],
        )
    &&& forall|i: int, j: int|
        0 <= i < j < groupsViewOf(files).len() ==> (#[trigger] groupsViewOf(files)[i]).0 != (
        #[trigger] groupsViewOf(files)[j]).0
    &&& forall|g: int, i: int, j: int|
        0 <= g < groupsViewOf(files).len() && 0 <= i < j < (
        #[trigger] groupsViewOf(files)[g]).1.len() ==> (#[trigger] groupsViewOf(files)[g].1[i])
            != (#[trigger] groupsViewOf(files)[g].1[j])
    &&& forall|g: int, i: int, j: int|
        0 <= g < groupsViewOf(files).len() && 0 <= i < j < (
        #[trigger] groupsViewOf(files)[g]).1.len() ==> pathLt(
            #[trigger] groupsViewOf(files)[g].1[i],
            #[trigger] groupsViewOf(files)[g].1[j],
        )
}

/// What a cache file holds: the library's base path, its registered
/// directories, and its file groups.
pub struct CachedIndex {
    /// The library's base path.
    pub basePath: TrackPath,
    /// The registered directories, relative to the base.
    pub dirs: Vec<TrackPath>,
    /// The file groups.
    pub files: Vec<DirFiles>,
}

/// A path's final component, or nothing's worth of text without one.
pub open spec fn fileNameOf(p: Seq<Seq<char>>) -> Seq<char> {
    if p.len() > 0 {
        p.last()
    } else {
        Seq::empty()
    }
}

/// `n` repetitions of the tree-drawing pipe.
pub open spec fn pipes(n: nat) -> Seq<char>
    decreases n,
{
    if n == 0 {
        Seq::empty()
    } else {
        pipes((n - 1) as nat) + seq!['\u{2502}', ' ']
    }
}

/// The listing line of one registered directory: a space, one pipe per
/// level of depth below the first, the leaf icon, and the directory's own
/// name.
pub open spec fn dirLineSpec(leafIcon: Seq<char>, p: Seq<Seq<char>>) -> Seq<char> {
    let depth = if p.len() >= 1 {
        (p.len() - 1) as nat
    } else {
        0nat
    };
    seq![' '] + pipes(depth) + leafIcon + fileNameOf(p)
}

/// `f` is the full path of one of the audio files `names` inside the
/// directory `k`.
pub open spec fn isAudioPathOf(k: Seq<Seq<char>>, names: Seq<Seq<char>>, f: Seq<Seq<char>>) -> bool {
    exists|m: int| 0 <= m < names.len() && f == k.push(#[trigger] names[m])
}

/// With distinct sibling names, the lookup finds exactly the sibling that
/// carries the name.
proof fn subdirNamedUniqueLemma(forest: Seq<FsDir>, i: int)
    requires
        forall|a: int, b: int|
            0 <= a < b < forest.len() ==> (#[trigger] forest[a]).name@ != (
            #[trigger] forest[b]).name@,
        0 <= i < forest.len(),
    ensures
        subdirNamed(forest, forest[i].name@) == Option::Some(forest[i]),
{
    let n = forest[i].name@;
    assert(0 <= i < forest.len() && forest[i].name@ == n);
    let c = choose|j: int| 0 <= j < forest.len() && (#[trigger] forest[j]).name@ == n;
    if c < i {
        assert(forest[c].name@ != forest[i].name@);
    } else if i < c {
        assert(forest[i].name@ != forest[c].name@);
    }
}

/// A name carried by none of the siblings finds nothing.
proof fn subdirNamedAbsentLemma(forest: Seq<FsDir>, n: Seq<char>)
    requires
        forall|a: int| 0 <= a < forest.len() ==> (#[trigger] forest[a]).name@ != n,
    ensures
        subdirNamed(forest, n) is None,
{
}

/// Looking up a path in a forest extended by one tree with a fresh name:
/// paths entering the new tree resolve inside it, all others as before.
proof fn forestExtendLemma(forest: Seq<FsDir>, t: FsDir, q: Seq<Seq<char>>)
    requires
        q.len() >= 1,
        forall|a: int, b: int|
            0 <= a < b < forest.len() ==> (#[trigger] forest[a]).name@ != (
            #[trigger] forest[b]).name@,
        forall|a: int| 0 <= a < forest.len() ==> (#[trigger] forest[a]).name@ != t.name@,
    ensures
        forestSubtree(forest.push(t), q) == if q[0] == t.name@ {
            if q.len() == 1 {
                Option::Some(t)
            } else {
                forestSubtree(t.subdirs@, q.skip(1))
            }
        } else {
            forestSubtree(forest, q)
        },
{
    let forest2 = forest.push(t);
    assert forall|a: int, b: int|
        0 <= a < b < forest2.len() implies (#[trigger] forest2[a]).name@ != (
    #[trigger] forest2[b]).name@ by {
        if b < forest.len() {
            assert(forest2[a] == forest[a] && forest2[b] == forest[b]);
        } else {
            assert(forest2[a] == forest[a] && forest2[b] == t);
        }
    }
    if q[0] == t.name@ {
        assert(forest2[forest.len() as int] == t);
        subdirNamedUniqueLemma(forest2, forest.len() as int);
    } else {
        if exists|i: int| 0 <= i < forest.len() && (#[trigger] forest[i]).name@ == q[0] {
            let i = choose|i: int| 0 <= i < forest.len() && (#[trigger] forest[i]).name@ == q[0];
            assert(forest2[i] == forest[i]);
            subdirNamedUniqueLemma(forest2, i);
            subdirNamedUniqueLemma(forest, i);
        } else {
            assert forall|a: int| 0 <= a < forest2.len() implies (#[trigger] forest2[a]).name@
                != q[0] by {
                if a < forest.len() {
                    assert(forest2[a] == forest[a]);
                } else {
                    assert(forest2[a] == t);
                }
            }
            subdirNamedAbsentLemma(forest2, q[0]);
            subdirNamedAbsentLemma(forest, q[0]);
        }
    }
}

/// A subtree holding audio means the sibling its path starts at holds
/// audio.
proof fn forestSubtreeAudioUpLemma(forest: Seq<FsDir>, q: Seq<Seq<char>>)
    requires
        q.len() >= 1,
        forestSubtreeHasAudio(forest, q) || forestSubtreeDirectAudio(forest, q),
    ensures
        exists|i: int| 0 <= i < forest.len() && treeHasAudio(#[trigger] forest[i]),
    decreases q.len(),
{
    let d = match subdirNamed(forest, q[0]) {
        Option::Some(d) => d,
        Option::None => arbitrary(),
    };
    let c = choose|i: int| 0 <= i < forest.len() && (#[trigger] forest[i]).name@ == q[0];
    if q.len() == 1 {
        assert(treeHasAudio(forest[c]));
    } else {
        forestSubtreeAudioUpLemma(d.subdirs@, q.skip(1));
        assert(treeHasAudio(d));
        assert(treeHasAudio(forest[c]));
    }
}

/// A tree holds audio exactly when it directly holds an audio file or the
/// subtree at some deeper path does.
pub proof fn treeAudioDecompositionLemma(t: FsDir)
    requires
        wfTree(t),
    ensures
        treeHasAudio(t) <==> (hasDirectAudio(t.files@) || exists|q: Seq<Seq<char>>|
            q.len() >= 1 && #[trigger] forestSubtreeHasAudio(t.subdirs@, q)),
{
    if treeHasAudio(t) && !hasDirectAudio(t.files@) {
        let i = choose|i: int| 0 <= i < t.subdirs@.len() && treeHasAudio(#[trigger] t.subdirs@[i]);
        subdirNamedUniqueLemma(t.subdirs@, i);
        let q = seq![t.subdirs@[i].name@];
        assert(forestSubtree(t.subdirs@, q) == Option::Some(t.subdirs@[i]));
        assert(forestSubtreeHasAudio(t.subdirs@, q));
    }
    if exists|q: Seq<Seq<char>>| q.len() >= 1 && #[trigger] forestSubtreeHasAudio(t.subdirs@, q) {
        let q = choose|q: Seq<Seq<char>>|
            q.len() >= 1 && #[trigger] forestSubtreeHasAudio(t.subdirs@, q);
        forestSubtreeAudioUpLemma(t.subdirs@, q);
    }
}

/// How paths relate to the one-component extension `rel.push(n)`.
proof fn childPathLemma(rel: Seq<Seq<char>>, n: Seq<char>, p: Seq<Seq<char>>)
    ensures
        isPrefixOf(rel.push(n), p) <==> (isStrictPrefixOf(rel, p) && p[rel.len() as int] == n),
        isStrictPrefixOf(rel, p) ==> p.skip(rel.len() as int).len() == p.len() - rel.len()
            && p.skip(rel.len() as int)[0] == p[rel.len() as int],
        isPrefixOf(rel.push(n), p) ==> p.skip(rel.len() as int + 1) == p.skip(
            rel.len() as int,
        ).skip(1),
{
    let child = rel.push(n);
    if isPrefixOf(child, p) {
        assert(child =~= p.subrange(0, child.len() as int));
        assert forall|i: int| 0 <= i < rel.len() implies rel[i] == p[i] by {
            assert(child[i] == p.subrange(0, child.len() as int)[i]);
        }
        assert(rel =~= p.subrange(0, rel.len() as int));
        assert(child[rel.len() as int] == p.subrange(0, child.len() as int)[rel.len() as int]);
        assert(p[rel.len() as int] == n);
        assert(p.skip(rel.len() as int + 1) =~= p.skip(rel.len() as int).skip(1));
    }
    if isStrictPrefixOf(rel, p) && p[rel.len() as int] == n {
        assert forall|i: int| 0 <= i < child.len() implies child[i] == p.subrange(
            0,
            child.len() as int,
        )[i] by {
            if i < rel.len() {
                assert(rel[i] == p.subrange(0, rel.len() as int)[i]);
            }
        }
        assert(child =~= p.subrange(0, child.len() as int));
    }
}

/// What a finished walk of `forest` below `rel` did to the registered
/// directories: exactly the audio-bearing subtrees were added.
pub open spec fn scannedDirsSpec(
    before: MusicLibrary,
    after: MusicLibrary,
    forest: Seq<FsDir>,
    rel: Seq<Seq<char>>,
) -> bool {
    forall|p: Seq<Seq<char>>|
        #[trigger] after.containsDirSpec(p) <==> (before.containsDirSpec(p) || (isStrictPrefixOf(
            rel,
            p,
        ) && forestSubtreeHasAudio(forest, p.skip(rel.len() as int))))
}

/// What a finished walk did to the file groups: a group appeared exactly
/// for the walked directory itself (when it directly holds audio) and for
/// every subtree directly holding audio, each holding exactly the full
/// paths of its audio files (listed in path order, as `wellFormed` has
/// it); groups from before the walk are untouched.
pub open spec fn scannedGroupsSpec(
    before: MusicLibrary,
    after: MusicLibrary,
    files: Seq<FsFile>,
    forest: Seq<FsDir>,
    absRel: Seq<Seq<char>>,
) -> bool {
    &&& forall|k: Seq<Seq<char>>|
        #[trigger] after.hasGroupSpec(k) <==> (before.hasGroupSpec(k) || (k == absRel
            && hasDirectAudio(files)) || (isStrictPrefixOf(absRel, k) && forestSubtreeDirectAudio(
            forest,
            k.skip(absRel.len() as int),
        )))
    &&& forall|k: Seq<Seq<char>>|
        before.hasGroupSpec(k) ==> #[trigger] after.groupFilesSpec(k) == before.groupFilesSpec(k)
    &&& forall|k: Seq<Seq<char>>, f: Seq<Seq<char>>|
        !before.hasGroupSpec(k) && after.hasGroupSpec(k) ==> (#[trigger] after.groupContainsSpec(
            k,
            f,
        ) <==> isAudioPathOf(
            k,
            if k == absRel {
                audioNamesOf(files)
            } else {
                forestAudioNamesAt(forest, k.skip(absRel.len() as int))
            },
            f,
        ))
}

/// The index of a music library.
pub struct MusicLibrary {
    basePath: TrackPath,
    dirs: Vec<TrackPath>,
    files: Vec<DirFiles>,
    cancelRequested: bool,
    treeNodeIcon: String,
    treeLeafIcon: String,
}

impl MusicLibrary {
    /// The library's base path.
    pub closed spec fn basePathSpec(self) -> Seq<Seq<char>> {
        self.basePath@
    }

    /// The registered directories, relative to the base, in listing order.
    pub closed spec fn dirsSpec(self) -> Seq<Seq<Seq<char>>> {
        Seq::new(self.dirs@.len(), |i: int| self.dirs@[i]@)
    }

    /// The file groups: each directory that directly holds audio, with its
    /// files, in no promised order.
    pub closed spec fn groupsSpec(self) -> Seq<(Seq<Seq<char>>, Seq<Seq<Seq<char>>>)> {
        Seq::new(self.files@.len(), |i: int| (self.files@[i].dir@, self.files@[i].filesSpec()))
    }

    /// Whether the scanner has been asked to stop.
    pub closed spec fn cancelSpec(self) -> bool {
        self.cancelRequested
    }

    /// The icon the root is listed with.
    pub closed spec fn nodeIconSpec(self) -> Seq<char> {
        self.treeNodeIcon@
    }

    /// The icon other directories are listed with.
    pub closed spec fn leafIconSpec(self) -> Seq<char> {
        self.treeLeafIcon@
    }

    /// `p` is one of the registered directories.
    pub open spec fn containsDirSpec(self, p: Seq<Seq<char>>) -> bool {
        exists|i: int| 0 <= i < self.dirsSpec().len() && #[trigger] self.dirsSpec()[i] == p
    }

    /// Some registered directory lies strictly below `p`.
    pub open spec fn hasDirUnderSpec(self, p: Seq<Seq<char>>) -> bool {
        exists|i: int|
            0 <= i < self.dirsSpec().len() && isStrictPrefixOf(p, #[trigger] self.dirsSpec()[i])
    }

    /// There is a file group for the directory `k`.
    pub open spec fn hasGroupSpec(self, k: Seq<Seq<char>>) -> bool {
        exists|i: int| 0 <= i < self.groupsSpec().len() && (#[trigger] self.groupsSpec()[i]).0 == k
    }

    /// The files of the group for directory `k` (meaningful when
    /// `hasGroupSpec(k)` holds).
    pub open spec fn groupFilesSpec(self, k: Seq<Seq<char>>) -> Seq<Seq<Seq<char>>> {
        (self.groupsSpec()[choose|i: int|
            0 <= i < self.groupsSpec().len() && (#[trigger] self.groupsSpec()[i]).0 == k]).1
    }

    /// The group for `k` holds the file `f`.
    pub open spec fn groupContainsSpec(self, k: Seq<Seq<char>>, f: Seq<Seq<char>>) -> bool {
        exists|j: int|
            0 <= j < self.groupFilesSpec(k).len() && #[trigger] self.groupFilesSpec(k)[j] == f
    }

    /// No directory is registered twice.
    pub open spec fn dirsDistinctSpec(self) -> bool {
        forall|i: int, j: int|
            0 <= i < j < self.dirsSpec().len() ==> #[trigger] self.dirsSpec()[i]
                != #[trigger] self.dirsSpec()[j]
    }

    /// Each directory has at most one file group, and no file is listed
    /// twice within a group.
    pub open spec fn groupsDistinctSpec(self) -> bool {
        &&& forall|i: int, j: int|
            0 <= i < j < self.groupsSpec().len() ==> (#[trigger] self.groupsSpec()[i]).0 != (
            #[trigger] self.groupsSpec()[j]).0
        &&& forall|g: int, i: int, j: int|
            0 <= g < self.groupsSpec().len() && 0 <= i < j < (
            #[trigger] self.groupsSpec()[g]).1.len() ==> (#[trigger] self.groupsSpec()[g].1[i])
                != (#[trigger] self.groupsSpec()[g].1[j])
    }

    /// The registered directories are kept in strictly increasing path
    /// order, as they are shown.
    pub open spec fn dirsOrderedSpec(self) -> bool {
        forall|i: int, j: int|
            0 <= i < j < self.dirsSpec().len() ==> pathLt(
                #[trigger] self.dirsSpec()[i],
                #[trigger] self.dirsSpec()[j],
            )
    }

    /// Each file group is kept in strictly increasing path order, as it is
    /// shown.
    pub open spec fn groupFilesOrderedSpec(self) -> bool {
        forall|g: int, i: int, j: int|
            0 <= g < self.groupsSpec().len() && 0 <= i < j < (
            #[trigger] self.groupsSpec()[g]).1.len() ==> pathLt(
                #[trigger] self.groupsSpec()[g].1[i],
                #[trigger] self.groupsSpec()[g].1[j],
            )
    }

    /// Directories are registered once and kept sorted; each directory has
    /// at most one file group; each group lists its files once, sorted.
    pub open spec fn wellFormed(self) -> bool {
        &&& self.dirsDistinctSpec()
        &&& self.dirsOrderedSpec()
        &&& self.groupsDistinctSpec()
        &&& self.groupFilesOrderedSpec()
    }

    /// Distinctness of the registered directories carries over to any
    /// index that lists the same directories.
    proof fn dirsDistinctTransferLemma(a: MusicLibrary, b: MusicLibrary)
        requires
            a.dirsDistinctSpec(),
            a.dirsSpec() == b.dirsSpec(),
        ensures
            b.dirsDistinctSpec(),
    {
        assert forall|i: int, j: int|
            0 <= i < j < b.dirsSpec().len() implies #[trigger] b.dirsSpec()[i]
            != #[trigger] b.dirsSpec()[j] by {
            assert(b.dirsSpec()[i] == a.dirsSpec()[i]);
            assert(b.dirsSpec()[j] == a.dirsSpec()[j]);
        }
    }

    /// Distinctness of the file groups carries over to any index that
    /// lists the same groups.
    proof fn groupsDistinctTransferLemma(a: MusicLibrary, b: MusicLibrary)
        requires
            a.groupsDistinctSpec(),
            a.groupsSpec() == b.groupsSpec(),
        ensures
            b.groupsDistinctSpec(),
    {
        assert forall|i: int, j: int|
            0 <= i < j < b.groupsSpec().len() implies (#[trigger] b.groupsSpec()[i]).0 != (
        #[trigger] b.groupsSpec()[j]).0 by {
            assert(b.groupsSpec()[i] == a.groupsSpec()[i]);
            assert(b.groupsSpec()[j] == a.groupsSpec()[j]);
        }
        assert forall|g: int, i: int, j: int|
            0 <= g < b.groupsSpec().len() && 0 <= i < j < (
        #[trigger] b.groupsSpec()[g]).1.len() implies (#[trigger] b.groupsSpec()[g].1[i]) != (
        #[trigger] b.groupsSpec()[g].1[j]) by {
            assert(b.groupsSpec()[g] == a.groupsSpec()[g]);
        }
    }

    /// Order of the registered directories carries over to any index that
    /// lists the same directories.
    proof fn dirsOrderedTransferLemma(a: MusicLibrary, b: MusicLibrary)
        requires
            a.dirsOrderedSpec(),
            a.dirsSpec() == b.dirsSpec(),
        ensures
            b.dirsOrderedSpec(),
    {
        assert forall|i: int, j: int|
            0 <= i < j < b.dirsSpec().len() implies pathLt(
            #[trigger] b.dirsSpec()[i],
            #[trigger] b.dirsSpec()[j],
        ) by {
            assert(b.dirsSpec()[i] == a.dirsSpec()[i]);
            assert(b.dirsSpec()[j] == a.dirsSpec()[j]);
        }
    }

    /// Order within the file groups carries over to any index that lists
    /// the same groups.
    proof fn groupsOrderedTransferLemma(a: MusicLibrary, b: MusicLibrary)
        requires
            a.groupFilesOrderedSpec(),
            a.groupsSpec() == b.groupsSpec(),
        ensures
            b.groupFilesOrderedSpec(),
    {
        assert forall|g: int, i: int, j: int|
            0 <= g < b.groupsSpec().len() && 0 <= i < j < (
        #[trigger] b.groupsSpec()[g]).1.len() implies pathLt(
            #[trigger] b.groupsSpec()[g].1[i],
            #[trigger] b.groupsSpec()[g].1[j],
        ) by {
            assert(b.groupsSpec()[g] == a.groupsSpec()[g]);
        }
    }

    /// Two indexes with the same files under a key agree on what that key
    /// holds.
    proof fn sameFilesSameContainsLemma(a: MusicLibrary, b: MusicLibrary, k: Seq<Seq<char>>)
        requires
            a.groupFilesSpec(k) == b.groupFilesSpec(k),
        ensures
            forall|f: Seq<Seq<char>>|
                #[trigger] a.groupContainsSpec(k, f) == b.groupContainsSpec(k, f),
    {
        assert forall|f: Seq<Seq<char>>|
            #[trigger] a.groupContainsSpec(k, f) == b.groupContainsSpec(k, f) by {
            if a.groupContainsSpec(k, f) {
                let j = choose|j: int|
                    0 <= j < a.groupFilesSpec(k).len() && #[trigger] a.groupFilesSpec(k)[j] == f;
                assert(b.groupFilesSpec(k)[j] == f);
            }
            if b.groupContainsSpec(k, f) {
                let j = choose|j: int|
                    0 <= j < b.groupFilesSpec(k).len() && #[trigger] b.groupFilesSpec(k)[j] == f;
                assert(a.groupFilesSpec(k)[j] == f);
            }
        }
    }

    /// No directory registered and no file group yet.
    pub open spec fn isEmptyIndex(self) -> bool {
        self.dirsSpec().len() == 0 && self.groupsSpec().len() == 0
    }

    /// `a` and `b` agree on everything but the registered directories.
    pub open spec fn sameApartFromDirs(a: MusicLibrary, b: MusicLibrary) -> bool {
        &&& a.basePathSpec() == b.basePathSpec()
        &&& a.groupsSpec() == b.groupsSpec()
        &&& a.cancelSpec() == b.cancelSpec()
        &&& a.nodeIconSpec() == b.nodeIconSpec()
        &&& a.leafIconSpec() == b.leafIconSpec()
    }

    /// `a` and `b` agree on everything but the file groups.
    pub open spec fn sameApartFromGroups(a: MusicLibrary, b: MusicLibrary) -> bool {
        &&& a.basePathSpec() == b.basePathSpec()
        &&& a.dirsSpec() == b.dirsSpec()
        &&& a.cancelSpec() == b.cancelSpec()
        &&& a.nodeIconSpec() == b.nodeIconSpec()
        &&& a.leafIconSpec() == b.leafIconSpec()
    }

    /// A fresh, empty index rooted at `basePath`, with no cancellation
    /// requested.  The caller starts a scan right after this; a directory
    /// that cannot be listed at all is its concern.
    pub fn fromPath(basePath: TrackPath) -> (r: MusicLibrary)
        ensures
            r.wellFormed(),
            r.isEmptyIndex(),
            r.basePathSpec() == basePath@,
            !r.cancelSpec(),
            r.nodeIconSpec() == "\u{2570} "@,
            r.leafIconSpec() == "\u{251c} "@,
    {
        MusicLibrary {
            basePath,
            dirs: Vec::new(),
            files: Vec::new(),
            cancelRequested: false,
            treeNodeIcon: defaultTreeIcon(),
            treeLeafIcon: defaultLeafIcon(),
        }
    }

    /// An index that lists the same directories and groups as the given
    /// data is well formed exactly when the data is.
    proof fn cacheEquivalenceLemma(self, dirs: Seq<TrackPath>, files: Seq<DirFiles>)
        requires
            self.dirsSpec() == pathSeqView(dirs),
            self.groupsSpec() == groupsViewOf(files),
        ensures
            self.wellFormed() == cacheDataWellFormed(dirs, files),
    {
        if cacheDataWellFormed(dirs, files) {
            assert forall|i: int, j: int|
                0 <= i < j < self.dirsSpec().len() implies #[trigger] self.dirsSpec()[i]
                != #[trigger] self.dirsSpec()[j] by {
                assert(self.dirsSpec()[i] == pathSeqView(dirs)[i]);
                assert(self.dirsSpec()[j] == pathSeqView(dirs)[j]);
            }
            assert forall|i: int, j: int|
                0 <= i < j < self.groupsSpec().len() implies (#[trigger] self.groupsSpec()[i]).0
                != (#[trigger] self.groupsSpec()[j]).0 by {
                assert(self.groupsSpec()[i] == groupsViewOf(files)[i]);
                assert(self.groupsSpec()[j] == groupsViewOf(files)[j]);
            }
            assert forall|g: int, i: int, j: int|
                0 <= g < self.groupsSpec().len() && 0 <= i < j < (
            #[trigger] self.groupsSpec()[g]).1.len() implies (#[trigger] self.groupsSpec()[g].1[i])
                != (#[trigger] self.groupsSpec()[g].1[j]) by {
                assert(self.groupsSpec()[g] == groupsViewOf(files)[g]);
            }
            assert forall|i: int, j: int|
                0 <= i < j < self.dirsSpec().len() implies pathLt(
                #[trigger] self.dirsSpec()[i],
                #[trigger] self.dirsSpec()[j],
            ) by {
                assert(self.dirsSpec()[i] == pathSeqView(dirs)[i]);
                assert(self.dirsSpec()[j] == pathSeqView(dirs)[j]);
            }
            assert forall|g: int, i: int, j: int|
                0 <= g < self.groupsSpec().len() && 0 <= i < j < (
            #[trigger] self.groupsSpec()[g]).1.len() implies pathLt(
                #[trigger] self.groupsSpec()[g].1[i],
                #[trigger] self.groupsSpec()[g].1[j],
            ) by {
                assert(self.groupsSpec()[g] == groupsViewOf(files)[g]);
            }
        }
        if self.wellFormed() {
            assert forall|i: int, j: int|
                0 <= i < j < pathSeqView(dirs).len() implies #[trigger] pathSeqView(dirs)[i]
                != #[trigger] pathSeqView(dirs)[j] by {
                assert(pathSeqView(dirs)[i] == self.dirsSpec()[i]);
                assert(pathSeqView(dirs)[j] == self.dirsSpec()[j]);
            }
            assert forall|i: int, j: int|
                0 <= i < j < groupsViewOf(files).len() implies (
            #[trigger] groupsViewOf(files)[i]).0 != (#[trigger] groupsViewOf(files)[j]).0 by {
                assert(groupsViewOf(files)[i] == self.groupsSpec()[i]);
                assert(groupsViewOf(files)[j] == self.groupsSpec()[j]);
            }
            assert forall|g: int, i: int, j: int|
                0 <= g < groupsViewOf(files).len() && 0 <= i < j < (
            #[trigger] groupsViewOf(files)[g]).1.len() implies (
            #[trigger] groupsViewOf(files)[g].1[i]) != (
            #[trigger] groupsViewOf(files)[g].1[j]) by {
                assert(groupsViewOf(files)[g] == self.groupsSpec()[g]);
            }
            assert forall|i: int, j: int|
                0 <= i < j < pathSeqView(dirs).len() implies pathLt(
                #[trigger] pathSeqView(dirs)[i],
                #[trigger] pathSeqView(dirs)[j],
            ) by {
                assert(pathSeqView(dirs)[i] == self.dirsSpec()[i]);
                assert(pathSeqView(dirs)[j] == self.dirsSpec()[j]);
            }
            assert forall|g: int, i: int, j: int|
                0 <= g < groupsViewOf(files).len() && 0 <= i < j < (
            #[trigger] groupsViewOf(files)[g]).1.len() implies pathLt(
                #[trigger] groupsViewOf(files)[g].1[i],
                #[trigger] groupsViewOf(files)[g].1[j],
            ) by {
                assert(groupsViewOf(files)[g] == self.groupsSpec()[g]);
            }
        }
    }

    /// Rebuild an index from previously persisted contents.  It succeeds
    /// exactly when the data is usable (directories sorted and listed once
    /// each, no directory with two groups, each group's files sorted and
    /// listed once each); the caller falls back to a fresh index and a new
    /// scan otherwise.
    pub fn fromCache(cached: CachedIndex) -> (r: Option<MusicLibrary>)
        ensures
            r is Some <==> cacheDataWellFormed(cached.dirs@, cached.files@),
            match r {
                Option::Some(lib) => {
                    &&& lib.wellFormed()
                    &&& lib.basePathSpec() == cached.basePath@
                    &&& !lib.cancelSpec()
                    &&& lib.dirsSpec() == pathSeqView(cached.dirs@)
                    &&& lib.groupsSpec() == groupsViewOf(cached.files@)
                    &&& lib.nodeIconSpec() == "\u{2570} "@
                    &&& lib.leafIconSpec() == "\u{251c} "@
                },
                Option::None => true,
            },
    {
        let ghost dirsGhost = cached.dirs@;
        let ghost filesGhost = cached.files@;
        let lib = MusicLibrary {
            basePath: cached.basePath,
            dirs: cached.dirs,
            files: cached.files,
            cancelRequested: false,
            treeNodeIcon: defaultTreeIcon(),
            treeLeafIcon: defaultLeafIcon(),
        };
        proof {
            assert(lib.dirsSpec() =~= pathSeqView(dirsGhost));
            assert(lib.groupsSpec() =~= groupsViewOf(filesGhost));
            lib.cacheEquivalenceLemma(dirsGhost, filesGhost);
        }
        if lib.checkWellFormed() {
            Some(lib)
        } else {
            None
        }
    }

    /// Open a library: from usable cached contents when some are given,
    /// else fresh and empty at `fallbackBase` — never a failure, so a
    /// missing or corrupt cache only costs a new scan.
    pub fn open(fallbackBase: TrackPath, cached: Option<CachedIndex>) -> (r: MusicLibrary)
        ensures
            r.wellFormed(),
            !r.cancelSpec(),
            r.nodeIconSpec() == "\u{2570} "@,
            r.leafIconSpec() == "\u{251c} "@,
            match cached {
                Option::Some(c) => if cacheDataWellFormed(c.dirs@, c.files@) {
                    &&& r.basePathSpec() == c.basePath@
                    &&& r.dirsSpec() == pathSeqView(c.dirs@)
                    &&& r.groupsSpec() == groupsViewOf(c.files@)
                } else {
                    &&& r.isEmptyIndex()
                    &&& r.basePathSpec() == fallbackBase@
                },
                Option::None => r.isEmptyIndex() && r.basePathSpec() == fallbackBase@,
            },
    {
        match cached {
            Some(c) => {
                match Self::fromCache(c) {
                    Some(lib) => lib,
                    None => Self::fromPath(fallbackBase),
                }
            },
            None => Self::fromPath(fallbackBase),
        }
    }

    /// Decide [`MusicLibrary::wellFormed`] by checking every pair.
    pub fn checkWellFormed(&self) -> (r: bool)
        ensures
            r == self.wellFormed(),
    {
        let mut i: usize = 0;
        while i < self.dirs.len()
            invariant
                i <= self.dirs@.len(),
                forall|a: int, b: int|
                    0 <= a < b < self.dirsSpec().len() && b < i ==> pathLt(
                        #[trigger] self.dirsSpec()[a],
                        #[trigger] self.dirsSpec()[b],
                    ),
            decreases self.dirs@.len() - i,
        {
            let mut j: usize = 0;
            while j < i
                invariant
                    j <= i < self.dirs@.len(),
                    forall|a: int|
                        0 <= a < j ==> pathLt(
                            #[trigger] self.dirsSpec()[a],
                            self.dirsSpec()[i as int],
                        ),
                decreases i - j,
            {
                if !self.dirs[j].pathLess(&self.dirs[i]) {
                    proof {
                        assert(!pathLt(self.dirsSpec()[j as int], self.dirsSpec()[i as int]));
                    }
                    return false;
                }
                proof {
                    assert(pathLt(self.dirsSpec()[j as int], self.dirsSpec()[i as int]));
                }
                j = j + 1;
            }
            i = i + 1;
        }
        proof {
            assert forall|a: int, b: int|
                0 <= a < b < self.dirsSpec().len() implies #[trigger] self.dirsSpec()[a]
                != #[trigger] self.dirsSpec()[b] by {
                pathLtIrreflexiveLemma(self.dirsSpec()[a]);
            }
        }
        let mut i: usize = 0;
        while i < self.files.len()
            invariant
                i <= self.files@.len(),
                forall|a: int, b: int|
                    0 <= a < b < self.groupsSpec().len() && b < i ==> (
                    #[trigger] self.groupsSpec()[a]).0 != (#[trigger] self.groupsSpec()[b]).0,
                forall|g: int, a: int, b: int|
                    0 <= g < i && 0 <= a < b < (#[trigger] self.groupsSpec()[g]).1.len() ==> pathLt(
                        #[trigger] self.groupsSpec()[g].1[a],
                        #[trigger] self.groupsSpec()[g].1[b],
                    ),
            decreases self.files@.len() - i,
        {
            let mut j: usize = 0;
            while j < i
                invariant
                    j <= i < self.files@.len(),
                    forall|a: int|
                        0 <= a < j ==> (#[trigger] self.groupsSpec()[a]).0 != self.groupsSpec()[i as int].0,
                decreases i - j,
            {
                if self.files[j].dir.sameAs(&self.files[i].dir) {
                    proof {
                        assert((self.groupsSpec()[j as int]).0 == (self.groupsSpec()[i as int]).0);
                    }
                    return false;
                }
                j = j + 1;
            }
            let mut a: usize = 0;
            while a < self.files[i].files.len()
                invariant
                    i < self.files@.len(),
                    a <= self.files@[i as int].files@.len(),
                    forall|x: int, y: int|
                        0 <= x < y < self.groupsSpec()[i as int].1.len() && y < a ==> pathLt(
                            #[trigger] self.groupsSpec()[i as int].1[x],
                            #[trigger] self.groupsSpec()[i as int].1[y],
                        ),
                decreases self.files@[i as int].files@.len() - a,
            {
                let mut b: usize = 0;
                while b < a
                    invariant
                        i < self.files@.len(),
                        b <= a < self.files@[i as int].files@.len(),
                        forall|x: int|
                            0 <= x < b ==> pathLt(
                                #[trigger] self.groupsSpec()[i as int].1[x],
                                self.groupsSpec()[i as int].1[a as int],
                            ),
                    decreases a - b,
                {
                    if !self.files[i].files[b].pathLess(&self.files[i].files[a]) {
                        proof {
                            let gi = i as int;
                            assert(!pathLt(
                                self.groupsSpec()[gi].1[b as int],
                                self.groupsSpec()[gi].1[a as int],
                            ));
                        }
                        return false;
                    }
                    proof {
                        let gi = i as int;
                        assert(pathLt(
                            self.groupsSpec()[gi].1[b as int],
                            self.groupsSpec()[gi].1[a as int],
                        ));
                    }
                    b = b + 1;
                }
                a = a + 1;
            }
            i = i + 1;
        }
        proof {
            assert forall|g: int, a: int, b: int|
                0 <= g < self.groupsSpec().len() && 0 <= a < b < (
            #[trigger] self.groupsSpec()[g]).1.len() implies (
            #[trigger] self.groupsSpec()[g].1[a]) != (#[trigger] self.groupsSpec()[g].1[b]) by {
                pathLtIrreflexiveLemma(self.groupsSpec()[g].1[a]);
            }
        }
        true
    }

    /// Two indexes listing the same groups agree on every group question.
    proof fn groupsCongruenceLemma(a: MusicLibrary, b: MusicLibrary)
        requires
            a.groupsDistinctSpec(),
            a.groupsSpec() == b.groupsSpec(),
        ensures
            forall|k: Seq<Seq<char>>| #[trigger] a.hasGroupSpec(k) == b.hasGroupSpec(k),
            forall|k: Seq<Seq<char>>|
                a.hasGroupSpec(k) ==> #[trigger] a.groupFilesSpec(k) == b.groupFilesSpec(k),
    {
        Self::groupsDistinctTransferLemma(a, b);
        assert forall|k: Seq<Seq<char>>| #[trigger] a.hasGroupSpec(k) == b.hasGroupSpec(k) by {
            if a.hasGroupSpec(k) {
                let m = choose|m: int|
                    0 <= m < a.groupsSpec().len() && (#[trigger] a.groupsSpec()[m]).0 == k;
                assert((b.groupsSpec()[m]).0 == k);
            }
            if b.hasGroupSpec(k) {
                let m = choose|m: int|
                    0 <= m < b.groupsSpec().len() && (#[trigger] b.groupsSpec()[m]).0 == k;
                assert((a.groupsSpec()[m]).0 == k);
            }
        }
        assert forall|k: Seq<Seq<char>>|
            a.hasGroupSpec(k) implies #[trigger] a.groupFilesSpec(k) == b.groupFilesSpec(k) by {
            let m = choose|m: int|
                0 <= m < a.groupsSpec().len() && (#[trigger] a.groupsSpec()[m]).0 == k;
            a.groupIndexLemma(k, m);
            assert((b.groupsSpec()[m]).0 == k);
            b.groupIndexLemma(k, m);
        }
    }

    /// With a well-formed index, any position whose group is keyed `k` is
    /// the position [`MusicLibrary::groupFilesSpec`] speaks about.
    proof fn groupIndexLemma(self, k: Seq<Seq<char>>, i: int)
        requires
            self.groupsDistinctSpec(),
            0 <= i < self.groupsSpec().len(),
            (self.groupsSpec()[i]).0 == k,
        ensures
            self.hasGroupSpec(k),
            self.groupFilesSpec(k) == (self.groupsSpec()[i]).1,
    {
        assert(self.hasGroupSpec(k));
        let c = choose|j: int|
            0 <= j < self.groupsSpec().len() && (#[trigger] self.groupsSpec()[j]).0 == k;
        if c < i {
            assert((self.groupsSpec()[c]).0 != (self.groupsSpec()[i]).0);
        } else if i < c {
            assert((self.groupsSpec()[i]).0 != (self.groupsSpec()[c]).0);
        }
    }

    /// The files under any directory key are listed in strictly
    /// increasing path order: the entry at a position is the position-th
    /// smallest.
    pub proof fn groupFilesSortedLemma(self, k: Seq<Seq<char>>)
        requires
            self.wellFormed(),
            self.hasGroupSpec(k),
        ensures
            forall|i: int, j: int|
                0 <= i < j < self.groupFilesSpec(k).len() ==> pathLt(
                    #[trigger] self.groupFilesSpec(k)[i],
                    #[trigger] self.groupFilesSpec(k)[j],
                ),
    {
        let m = choose|m: int|
            0 <= m < self.groupsSpec().len() && (#[trigger] self.groupsSpec()[m]).0 == k;
        self.groupIndexLemma(k, m);
        assert forall|i: int, j: int|
            0 <= i < j < self.groupFilesSpec(k).len() implies pathLt(
            #[trigger] self.groupFilesSpec(k)[i],
            #[trigger] self.groupFilesSpec(k)[j],
        ) by {
            assert(pathLt(self.groupsSpec()[m].1[i], self.groupsSpec()[m].1[j]));
        }
    }

    /// Whether `rel` is registered.
    pub fn containsDir(&self, rel: &TrackPath) -> (r: bool)
        ensures
            r == self.containsDirSpec(rel@),
    {
        let mut i: usize = 0;
        while i < self.dirs.len()
            invariant
                i <= self.dirs@.len(),
                forall|j: int| 0 <= j < i ==> #[trigger] self.dirsSpec()[j] != rel@,
            decreases self.dirs@.len() - i,
        {
            if self.dirs[i].sameAs(rel) {
                proof {
                    assert(self.dirsSpec()[i as int] == rel@);
                }
                return true;
            }
            proof {
                assert(self.dirsSpec()[i as int] != rel@);
            }
            i = i + 1;
        }
        false
    }

    /// Some registered directory lies strictly below `rel`.
    pub fn anyDirStrictlyUnder(&self, rel: &TrackPath) -> (r: bool)
        ensures
            r == self.hasDirUnderSpec(rel@),
    {
        let mut i: usize = 0;
        while i < self.dirs.len()
            invariant
                i <= self.dirs@.len(),
                forall|j: int|
                    0 <= j < i ==> !isStrictPrefixOf(rel@, #[trigger] self.dirsSpec()[j]),
            decreases self.dirs@.len() - i,
        {
            if self.dirs[i].startsWith(rel) && rel.segmentCount() < self.dirs[i].segmentCount() {
                proof {
                    assert(isStrictPrefixOf(rel@, self.dirsSpec()[i as int]));
                }
                return true;
            }
            proof {
                assert(!isStrictPrefixOf(rel@, self.dirsSpec()[i as int]));
            }
            i = i + 1;
        }
        false
    }

    /// Register `rel` (a path relative to the base) at its place in the
    /// listing order; nothing changes if it already is registered.
    pub fn insertDir(&mut self, rel: &TrackPath)
        requires
            old(self).wellFormed(),
        ensures
            final(self).wellFormed(),
            Self::sameApartFromDirs(*final(self), *old(self)),
            forall|p: Seq<Seq<char>>|
                final(self).containsDirSpec(p) <==> (old(self).containsDirSpec(p) || p == rel@),
    {
        if self.containsDir(rel) {
            return ;
        }
        let pos = self.findDirInsertPosition(rel);
        let ghost oldDirs = self.dirsSpec();
        let ghost posInt = pos as int;
        proof {
            assert forall|j: int| posInt <= j < oldDirs.len() implies pathLt(
                rel@,
                #[trigger] oldDirs[j],
            ) by {
                assert(old(self).dirsSpec()[posInt] == oldDirs[posInt]);
                assert(oldDirs[posInt] != rel@);
                pathLtTrichotomyLemma(rel@, oldDirs[posInt]);
                assert(pathLt(rel@, oldDirs[posInt]));
                if j > posInt {
                    assert(pathLt(oldDirs[posInt], oldDirs[j]));
                    pathLtTransitiveLemma(rel@, oldDirs[posInt], oldDirs[j]);
                }
            }
        }
        let dup = rel.duplicate();
        let ghost dupGhost = dup;
        self.dirs.insert(pos, dup);
        proof {
            old(self).dirs@.insert_ensures(posInt, dupGhost);
            oldDirs.insert_ensures(posInt, rel@);
            assert forall|j: int| 0 <= j < self.dirsSpec().len() implies self.dirsSpec()[j]
                == oldDirs.insert(posInt, rel@)[j] by {
                if j < posInt {
                    assert(self.dirs@[j] == old(self).dirs@[j]);
                } else if j == posInt {
                    assert(self.dirs@[j] == dupGhost);
                } else {
                    assert(self.dirs@[j] == old(self).dirs@[j - 1]);
                }
            }
            assert(self.dirsSpec() =~= oldDirs.insert(posInt, rel@));
            assert forall|p: Seq<Seq<char>>|
                self.containsDirSpec(p) <==> (old(self).containsDirSpec(p) || p == rel@) by {
                if self.containsDirSpec(p) {
                    let m = choose|m: int|
                        0 <= m < self.dirsSpec().len() && #[trigger] self.dirsSpec()[m] == p;
                    if m < posInt {
                        assert(old(self).dirsSpec()[m] == p);
                    } else if m > posInt {
                        assert(old(self).dirsSpec()[m - 1] == p);
                    }
                }
                if old(self).containsDirSpec(p) {
                    let m = choose|m: int|
                        0 <= m < old(self).dirsSpec().len() && #[trigger] old(self).dirsSpec()[m]
                            == p;
                    if m < posInt {
                        assert(self.dirsSpec()[m] == p);
                    } else {
                        assert(self.dirsSpec()[m + 1] == p);
                    }
                }
                if p == rel@ {
                    assert(self.dirsSpec()[posInt] == p);
                }
            }
            assert forall|i: int, j: int|
                0 <= i < j < self.dirsSpec().len() implies pathLt(
                #[trigger] self.dirsSpec()[i],
                #[trigger] self.dirsSpec()[j],
            ) by {
                let i0 = if i < posInt {
                    i
                } else {
                    i - 1
                };
                let j0 = if j < posInt {
                    j
                } else {
                    j - 1
                };
                if i == posInt {
                    assert(self.dirsSpec()[j] == oldDirs[j0]);
                    assert(pathLt(rel@, oldDirs[j0]));
                } else if j == posInt {
                    assert(self.dirsSpec()[i] == oldDirs[i0]);
                    assert(pathLt(oldDirs[i0], rel@));
                } else {
                    assert(self.dirsSpec()[i] == oldDirs[i0]);
                    assert(self.dirsSpec()[j] == oldDirs[j0]);
                    assert(pathLt(oldDirs[i0], oldDirs[j0]));
                }
            }
            assert forall|i: int, j: int|
                0 <= i < j < self.dirsSpec().len() implies #[trigger] self.dirsSpec()[i]
                != #[trigger] self.dirsSpec()[j] by {
                pathLtIrreflexiveLemma(self.dirsSpec()[i]);
            }
            Self::groupsDistinctTransferLemma(*old(self), *self);
            Self::groupsOrderedTransferLemma(*old(self), *self);
        }
    }

    /// The position `rel` belongs at in the listing order: everything
    /// before it comes earlier.
    fn findDirInsertPosition(&self, rel: &TrackPath) -> (r: usize)
        ensures
            r <= self.dirsSpec().len(),
            forall|i: int| 0 <= i < r ==> pathLt(#[trigger] self.dirsSpec()[i], rel@),
            r < self.dirsSpec().len() ==> !pathLt(self.dirsSpec()[r as int], rel@),
    {
        let mut pos: usize = 0;
        while pos < self.dirs.len()
            invariant
                pos <= self.dirs@.len(),
                forall|i: int| 0 <= i < pos ==> pathLt(#[trigger] self.dirsSpec()[i], rel@),
            decreases self.dirs@.len() - pos,
        {
            if !self.dirs[pos].pathLess(rel) {
                proof {
                    assert(!pathLt(self.dirsSpec()[pos as int], rel@));
                }
                return pos;
            }
            proof {
                assert(pathLt(self.dirsSpec()[pos as int], rel@));
            }
            pos = pos + 1;
        }
        pos
    }

    /// Drop `rel` from the registered directories, if it is there.
    pub fn removeDir(&mut self, rel: &TrackPath)
        requires
            old(self).wellFormed(),
        ensures
            final(self).wellFormed(),
            Self::sameApartFromDirs(*final(self), *old(self)),
            forall|p: Seq<Seq<char>>|
                final(self).containsDirSpec(p) <==> (old(self).containsDirSpec(p) && p != rel@),
    {
        let found = self.findDirIndex(rel);
        if let Some(i) = found {
            let ghost oldDirs = self.dirsSpec();
            let ghost idx = i as int;
            self.dirs.remove(i);
            proof {
                assert forall|j: int| 0 <= j < self.dirsSpec().len() implies self.dirsSpec()[j]
                    == oldDirs.remove(idx)[j] by {
                    if j < idx {
                        assert(self.dirs@[j] == old(self).dirs@[j]);
                    } else {
                        assert(self.dirs@[j] == old(self).dirs@[j + 1]);
                    }
                }
                assert(self.dirsSpec() =~= oldDirs.remove(idx));
                assert forall|p: Seq<Seq<char>>|
                    self.containsDirSpec(p) <==> (old(self).containsDirSpec(p) && p != rel@) by {
                    if self.containsDirSpec(p) {
                        let m = choose|m: int|
                            0 <= m < self.dirsSpec().len() && #[trigger] self.dirsSpec()[m] == p;
                        if m < idx {
                            assert(old(self).dirsSpec()[m] == p);
                            if p == rel@ {
                                assert(old(self).dirsSpec()[m] == old(self).dirsSpec()[idx]);
                            }
                        } else {
                            assert(old(self).dirsSpec()[m + 1] == p);
                            if p == rel@ {
                                assert(old(self).dirsSpec()[idx] == old(self).dirsSpec()[m + 1]);
                            }
                        }
                    }
                    if old(self).containsDirSpec(p) && p != rel@ {
                        let m = choose|m: int|
                            0 <= m < old(self).dirsSpec().len() && #[trigger] old(
                                self,
                            ).dirsSpec()[m] == p;
                        if m < idx {
                            assert(self.dirsSpec()[m] == p);
                        } else if m > idx {
                            assert(self.dirsSpec()[m - 1] == p);
                        } else {
                            assert(p == rel@);
                        }
                    }
                }
                assert forall|a: int, b: int|
                    0 <= a < b < self.dirsSpec().len() implies self.dirsSpec()[a]
                    != self.dirsSpec()[b] by {
                    let a0 = if a < idx {
                        a
                    } else {
                        a + 1
                    };
                    let b0 = if b < idx {
                        b
                    } else {
                        b + 1
                    };
                    assert(self.dirsSpec()[a] == oldDirs[a0]);
                    assert(self.dirsSpec()[b] == oldDirs[b0]);
                }
                assert forall|a: int, b: int|
                    0 <= a < b < self.dirsSpec().len() implies pathLt(
                    #[trigger] self.dirsSpec()[a],
                    #[trigger] self.dirsSpec()[b],
                ) by {
                    let a0 = if a < idx {
                        a
                    } else {
                        a + 1
                    };
                    let b0 = if b < idx {
                        b
                    } else {
                        b + 1
                    };
                    assert(self.dirsSpec()[a] == oldDirs[a0]);
                    assert(self.dirsSpec()[b] == oldDirs[b0]);
                    assert(pathLt(oldDirs[a0], oldDirs[b0]));
                }
                Self::groupsDistinctTransferLemma(*old(self), *self);
                Self::groupsOrderedTransferLemma(*old(self), *self);
            }
        }
    }

    /// The position of `rel` among the registered directories, if any.
    fn findDirIndex(&self, rel: &TrackPath) -> (r: Option<usize>)
        ensures
            match r {
                Option::Some(i) => i < self.dirsSpec().len() && self.dirsSpec()[i as int] == rel@,
                Option::None => !self.containsDirSpec(rel@),
            },
    {
        let mut i: usize = 0;
        while i < self.dirs.len()
            invariant
                i <= self.dirs@.len(),
                forall|j: int| 0 <= j < i ==> #[trigger] self.dirsSpec()[j] != rel@,
            decreases self.dirs@.len() - i,
        {
            if self.dirs[i].sameAs(rel) {
                proof {
                    assert(self.dirsSpec()[i as int] == rel@);
                }
                return Some(i);
            }
            proof {
                assert(self.dirsSpec()[i as int] != rel@);
            }
            i = i + 1;
        }
        None
    }

    /// The position of the group keyed by the full path `dir`, if any.
    fn findGroupIndex(&self, dir: &TrackPath) -> (r: Option<usize>)
        ensures
            match r {
                Option::Some(i) => i < self.groupsSpec().len() && (self.groupsSpec()[i as int]).0
                    == dir@,
                Option::None => !self.hasGroupSpec(dir@),
            },
    {
        let mut i: usize = 0;
        while i < self.files.len()
            invariant
                i <= self.files@.len(),
                forall|j: int| 0 <= j < i ==> (#[trigger] self.groupsSpec()[j]).0 != dir@,
            decreases self.files@.len() - i,
        {
            if self.files[i].dir.sameAs(dir) {
                proof {
                    assert((self.groupsSpec()[i as int]).0 == dir@);
                }
                return Some(i);
            }
            proof {
                assert((self.groupsSpec()[i as int]).0 != dir@);
            }
            i = i + 1;
        }
        None
    }

    /// Whether a file group exists for the full path `dir`.
    pub fn hasFilesFor(&self, dir: &TrackPath) -> (r: bool)
        ensures
            r == self.hasGroupSpec(dir@),
    {
        match self.findGroupIndex(dir) {
            Some(i) => {
                proof {
                    assert((self.groupsSpec()[i as int]).0 == dir@);
                }
                true
            },
            None => false,
        }
    }

    /// Whether the group at position `gi` holds the file `file`.
    fn groupHasFile(&self, gi: usize, file: &TrackPath) -> (r: bool)
        requires
            gi < self.groupsSpec().len(),
        ensures
            r == exists|j: int|
                0 <= j < (self.groupsSpec()[gi as int]).1.len() && (#[trigger] self.groupsSpec()[gi as int].1[j]) == file@,
    {
        let mut j: usize = 0;
        while j < self.files[gi].files.len()
            invariant
                gi < self.files@.len(),
                j <= self.files@[gi as int].files@.len(),
                forall|m: int|
                    0 <= m < j ==> (#[trigger] self.groupsSpec()[gi as int].1[m]) != file@,
            decreases self.files@[gi as int].files@.len() - j,
        {
            if self.files[gi].files[j].sameAs(file) {
                proof {
                    assert(self.groupsSpec()[gi as int].1[j as int] == file@);
                }
                return true;
            }
            proof {
                assert(self.groupsSpec()[gi as int].1[j as int] != file@);
            }
            j = j + 1;
        }
        false
    }

    /// Record the audio file `file` (by its full path) as lying directly
    /// inside the directory `dir` (by its full path).  The group is
    /// created on its first file; files are kept in listing order, and a
    /// file already recorded is not repeated.
    pub fn insertAudioFile(&mut self, dir: &TrackPath, file: &TrackPath)
        requires
            old(self).wellFormed(),
        ensures
            final(self).wellFormed(),
            Self::sameApartFromGroups(*final(self), *old(self)),
            forall|k: Seq<Seq<char>>|
                final(self).hasGroupSpec(k) <==> (old(self).hasGroupSpec(k) || k == dir@),
            forall|k: Seq<Seq<char>>|
                k != dir@ && old(self).hasGroupSpec(k) ==> final(self).groupFilesSpec(k) == old(
                    self,
                ).groupFilesSpec(k),
            forall|f: Seq<Seq<char>>|
                final(self).groupContainsSpec(dir@, f) <==> ((old(self).hasGroupSpec(dir@) && old(
                    self,
                ).groupContainsSpec(dir@, f)) || f == file@),
    {
        match self.findGroupIndex(dir) {
            None => {
                let mut newFiles: Vec<TrackPath> = Vec::new();
                newFiles.push(file.duplicate());
                let group = DirFiles { dir: dir.duplicate(), files: newFiles };
                let ghost oldGroups = self.groupsSpec();
                let ghost newLen = self.files@.len();
                self.files.push(group);
                proof {
                    assert(self.files@[newLen as int].filesSpec() =~= seq![file@]);
                    assert forall|m: int| 0 <= m < self.groupsSpec().len() implies self.groupsSpec()[m]
                        == oldGroups.push((dir@, seq![file@]))[m] by {
                        if m < oldGroups.len() {
                            assert(self.files@[m] == old(self).files@[m]);
                        }
                    }
                    assert(self.groupsSpec() =~= oldGroups.push((dir@, seq![file@])));
                    Self::dirsDistinctTransferLemma(*old(self), *self);
                    Self::dirsOrderedTransferLemma(*old(self), *self);
                    assert forall|i: int, j: int|
                        0 <= i < j < self.groupsSpec().len() implies (
                    #[trigger] self.groupsSpec()[i]).0 != (#[trigger] self.groupsSpec()[j]).0 by {
                        assert(self.groupsSpec()[i] == oldGroups[i]);
                        if j == oldGroups.len() {
                            assert((old(self).groupsSpec()[i]).0 != dir@);
                        } else {
                            assert(self.groupsSpec()[j] == oldGroups[j]);
                        }
                    }
                    assert forall|g: int, i: int, j: int|
                        0 <= g < self.groupsSpec().len() && 0 <= i < j < (
                    #[trigger] self.groupsSpec()[g]).1.len() implies (
                    #[trigger] self.groupsSpec()[g].1[i]) != (
                    #[trigger] self.groupsSpec()[g].1[j]) by {
                        if g < oldGroups.len() {
                            assert(self.groupsSpec()[g] == oldGroups[g]);
                        }
                    }
                    assert forall|g: int, i: int, j: int|
                        0 <= g < self.groupsSpec().len() && 0 <= i < j < (
                    #[trigger] self.groupsSpec()[g]).1.len() implies pathLt(
                        #[trigger] self.groupsSpec()[g].1[i],
                        #[trigger] self.groupsSpec()[g].1[j],
                    ) by {
                        if g < oldGroups.len() {
                            assert(self.groupsSpec()[g] == oldGroups[g]);
                            assert(pathLt(oldGroups[g].1[i], oldGroups[g].1[j]));
                        }
                    }
                    assert forall|k: Seq<Seq<char>>|
                        self.hasGroupSpec(k) <==> (old(self).hasGroupSpec(k) || k == dir@) by {
                        if self.hasGroupSpec(k) {
                            let m = choose|m: int|
                                0 <= m < self.groupsSpec().len() && (
                                #[trigger] self.groupsSpec()[m]).0 == k;
                            if m < oldGroups.len() {
                                assert((old(self).groupsSpec()[m]).0 == k);
                            }
                        }
                        if old(self).hasGroupSpec(k) {
                            let m = choose|m: int|
                                0 <= m < old(self).groupsSpec().len() && (#[trigger] old(
                                    self,
                                ).groupsSpec()[m]).0 == k;
                            assert((self.groupsSpec()[m]).0 == k);
                        }
                        if k == dir@ {
                            assert((self.groupsSpec()[newLen as int]).0 == k);
                        }
                    }
                    assert forall|k: Seq<Seq<char>>|
                        k != dir@ && old(self).hasGroupSpec(k) implies self.groupFilesSpec(k)
                        == old(self).groupFilesSpec(k) by {
                        let m = choose|m: int|
                            0 <= m < old(self).groupsSpec().len() && (#[trigger] old(
                                self,
                            ).groupsSpec()[m]).0 == k;
                        old(self).groupIndexLemma(k, m);
                        assert((self.groupsSpec()[m]).0 == k);
                        self.groupIndexLemma(k, m);
                    }
                    self.groupIndexLemma(dir@, newLen as int);
                    assert(self.groupFilesSpec(dir@) == seq![file@]);
                    assert forall|f: Seq<Seq<char>>|
                        self.groupContainsSpec(dir@, f) <==> ((old(self).hasGroupSpec(dir@)
                            && old(self).groupContainsSpec(dir@, f)) || f == file@) by {
                        assert(!old(self).hasGroupSpec(dir@));
                        if f == file@ {
                            assert(self.groupFilesSpec(dir@)[0] == f);
                        }
                    }
                }
            },
            Some(gi) => {
                proof {
                    self.groupIndexLemma(dir@, gi as int);
                }
                if self.groupHasFile(gi, file) {
                    proof {
                        assert(old(self).groupContainsSpec(dir@, file@));
                        assert forall|k: Seq<Seq<char>>|
                            self.hasGroupSpec(k) <==> (old(self).hasGroupSpec(k) || k
                                == dir@) by {
                            if k == dir@ {
                                assert((self.groupsSpec()[gi as int]).0 == k);
                            }
                        }
                    }
                } else {
                    let pos = self.findFileInsertPosition(gi, file);
                    let ghost oldGroups = self.groupsSpec();
                    let ghost oldFilesOfGroup = (self.groupsSpec()[gi as int]).1;
                    let ghost posInt = pos as int;
                    proof {
                        assert forall|j: int|
                            posInt <= j < oldFilesOfGroup.len() implies pathLt(
                            file@,
                            #[trigger] oldFilesOfGroup[j],
                        ) by {
                            assert(oldFilesOfGroup[posInt] != file@);
                            pathLtTrichotomyLemma(file@, oldFilesOfGroup[posInt]);
                            assert(pathLt(file@, oldFilesOfGroup[posInt]));
                            if j > posInt {
                                assert(pathLt(oldFilesOfGroup[posInt], oldFilesOfGroup[j]));
                                pathLtTransitiveLemma(
                                    file@,
                                    oldFilesOfGroup[posInt],
                                    oldFilesOfGroup[j],
                                );
                            }
                        }
                    }
                    let dup = file.duplicate();
                    let ghost dupGhost = dup;
                    self.files[gi].files.insert(pos, dup);
                    proof {
                        old(self).files@[gi as int].files@.insert_ensures(posInt, dupGhost);
                        oldFilesOfGroup.insert_ensures(posInt, file@);
                        assert forall|j: int|
                            0 <= j < self.files@[gi as int].filesSpec().len() implies self.files@[gi as int].filesSpec()[j]
                            == oldFilesOfGroup.insert(posInt, file@)[j] by {
                            if j < posInt {
                                assert(self.files@[gi as int].files@[j] == old(
                                    self,
                                ).files@[gi as int].files@[j]);
                            } else if j == posInt {
                                assert(self.files@[gi as int].files@[j] == dupGhost);
                            } else {
                                assert(self.files@[gi as int].files@[j] == old(
                                    self,
                                ).files@[gi as int].files@[j - 1]);
                            }
                        }
                        assert(self.files@[gi as int].filesSpec() =~= oldFilesOfGroup.insert(
                            posInt,
                            file@,
                        ));
                        let ghost newFilesOfGroup = oldFilesOfGroup.insert(posInt, file@);
                        assert forall|m: int|
                            0 <= m < self.groupsSpec().len() implies self.groupsSpec()[m]
                            == oldGroups.update(gi as int, (dir@, newFilesOfGroup))[m] by {
                            if m != gi {
                                assert(self.files@[m] == old(self).files@[m]);
                            }
                        }
                        assert(self.groupsSpec() =~= oldGroups.update(
                            gi as int,
                            (dir@, newFilesOfGroup),
                        ));
                        Self::dirsDistinctTransferLemma(*old(self), *self);
                        Self::dirsOrderedTransferLemma(*old(self), *self);
                        assert forall|i: int, j: int|
                            0 <= i < j < self.groupsSpec().len() implies (
                        #[trigger] self.groupsSpec()[i]).0 != (
                        #[trigger] self.groupsSpec()[j]).0 by {
                            assert((self.groupsSpec()[i]).0 == (old(self).groupsSpec()[i]).0);
                            assert((self.groupsSpec()[j]).0 == (old(self).groupsSpec()[j]).0);
                        }
                        assert forall|g: int, i: int, j: int|
                            0 <= g < self.groupsSpec().len() && 0 <= i < j < (
                        #[trigger] self.groupsSpec()[g]).1.len() implies pathLt(
                            #[trigger] self.groupsSpec()[g].1[i],
                            #[trigger] self.groupsSpec()[g].1[j],
                        ) by {
                            if g != gi {
                                assert(self.groupsSpec()[g] == oldGroups[g]);
                                assert(pathLt(oldGroups[g].1[i], oldGroups[g].1[j]));
                            } else {
                                assert((self.groupsSpec()[g]).1 == newFilesOfGroup);
                                let i0 = if i < posInt {
                                    i
                                } else {
                                    i - 1
                                };
                                let j0 = if j < posInt {
                                    j
                                } else {
                                    j - 1
                                };
                                if i == posInt {
                                    assert(newFilesOfGroup[j] == oldFilesOfGroup[j0]);
                                    assert(pathLt(file@, oldFilesOfGroup[j0]));
                                } else if j == posInt {
                                    assert(newFilesOfGroup[i] == oldFilesOfGroup[i0]);
                                    assert(pathLt(oldFilesOfGroup[i0], file@));
                                } else {
                                    assert(newFilesOfGroup[i] == oldFilesOfGroup[i0]);
                                    assert(newFilesOfGroup[j] == oldFilesOfGroup[j0]);
                                    assert(pathLt(oldFilesOfGroup[i0], oldFilesOfGroup[j0]));
                                }
                            }
                        }
                        assert forall|g: int, i: int, j: int|
                            0 <= g < self.groupsSpec().len() && 0 <= i < j < (
                        #[trigger] self.groupsSpec()[g]).1.len() implies (
                        #[trigger] self.groupsSpec()[g].1[i]) != (
                        #[trigger] self.groupsSpec()[g].1[j]) by {
                            assert(pathLt(self.groupsSpec()[g].1[i], self.groupsSpec()[g].1[j]));
                            pathLtIrreflexiveLemma(self.groupsSpec()[g].1[i]);
                        }
                        assert forall|k: Seq<Seq<char>>|
                            self.hasGroupSpec(k) <==> (old(self).hasGroupSpec(k) || k
                                == dir@) by {
                            if self.hasGroupSpec(k) {
                                let m = choose|m: int|
                                    0 <= m < self.groupsSpec().len() && (
                                    #[trigger] self.groupsSpec()[m]).0 == k;
                                assert((old(self).groupsSpec()[m]).0 == k);
                            }
                            if old(self).hasGroupSpec(k) {
                                let m = choose|m: int|
                                    0 <= m < old(self).groupsSpec().len() && (#[trigger] old(
                                        self,
                                    ).groupsSpec()[m]).0 == k;
                                assert((self.groupsSpec()[m]).0 == k);
                            }
                        }
                        assert forall|k: Seq<Seq<char>>|
                            k != dir@ && old(self).hasGroupSpec(k) implies self.groupFilesSpec(k)
                            == old(self).groupFilesSpec(k) by {
                            let m = choose|m: int|
                                0 <= m < old(self).groupsSpec().len() && (#[trigger] old(
                                    self,
                                ).groupsSpec()[m]).0 == k;
                            old(self).groupIndexLemma(k, m);
                            assert((self.groupsSpec()[m]).0 == k);
                            self.groupIndexLemma(k, m);
                        }
                        self.groupIndexLemma(dir@, gi as int);
                        assert(self.groupFilesSpec(dir@) == newFilesOfGroup);
                        old(self).groupIndexLemma(dir@, gi as int);
                        assert(old(self).groupFilesSpec(dir@) == oldFilesOfGroup);
                        assert forall|f: Seq<Seq<char>>|
                            self.groupContainsSpec(dir@, f) <==> ((old(self).hasGroupSpec(dir@)
                                && old(self).groupContainsSpec(dir@, f)) || f == file@) by {
                            if self.groupContainsSpec(dir@, f) {
                                let m = choose|m: int|
                                    0 <= m < self.groupFilesSpec(dir@).len()
                                        && #[trigger] self.groupFilesSpec(dir@)[m] == f;
                                if m < posInt {
                                    assert(oldFilesOfGroup[m] == f);
                                } else if m > posInt {
                                    assert(oldFilesOfGroup[m - 1] == f);
                                }
                            }
                            if old(self).groupContainsSpec(dir@, f) {
                                let m = choose|m: int|
                                    0 <= m < old(self).groupFilesSpec(dir@).len()
                                        && #[trigger] old(self).groupFilesSpec(dir@)[m] == f;
                                if m < posInt {
                                    assert(self.groupFilesSpec(dir@)[m] == f);
                                } else {
                                    assert(self.groupFilesSpec(dir@)[m + 1] == f);
                                }
                            }
                            if f == file@ {
                                assert(self.groupFilesSpec(dir@)[posInt] == f);
                            }
                        }
                    }
                }
            },
        }
    }

    /// The position `file` belongs at in the listing order of the group at
    /// position `gi`: everything before it comes earlier.
    fn findFileInsertPosition(&self, gi: usize, file: &TrackPath) -> (r: usize)
        requires
            gi < self.groupsSpec().len(),
        ensures
            r <= (self.groupsSpec()[gi as int]).1.len(),
            forall|i: int|
                0 <= i < r ==> pathLt(#[trigger] self.groupsSpec()[gi as int].1[i], file@),
            r < (self.groupsSpec()[gi as int]).1.len() ==> !pathLt(
                self.groupsSpec()[gi as int].1[r as int],
                file@,
            ),
    {
        let mut pos: usize = 0;
        while pos < self.files[gi].files.len()
            invariant
                gi < self.files@.len(),
                pos <= self.files@[gi as int].files@.len(),
                forall|i: int|
                    0 <= i < pos ==> pathLt(#[trigger] self.groupsSpec()[gi as int].1[i], file@),
            decreases self.files@[gi as int].files@.len() - pos,
        {
            if !self.files[gi].files[pos].pathLess(file) {
                proof {
                    assert(!pathLt(self.groupsSpec()[gi as int].1[pos as int], file@));
                }
                return pos;
            }
            proof {
                assert(pathLt(self.groupsSpec()[gi as int].1[pos as int], file@));
            }
            pos = pos + 1;
        }
        pos
    }

    /// Walk the files of one listed directory, recording each audio file
    /// under the directory's full path `absRelPath`.
    fn discoverFiles(&mut self, tree: &FsDir, absRelPath: &TrackPath)
        requires
            old(self).wellFormed(),
            wfTree(*tree),
            forall|k: Seq<Seq<char>>|
                old(self).hasGroupSpec(k) ==> !isPrefixOf(absRelPath@, k),
        ensures
            final(self).wellFormed(),
            final(self).basePathSpec() == old(self).basePathSpec(),
            final(self).dirsSpec() == old(self).dirsSpec(),
            final(self).cancelSpec() == old(self).cancelSpec(),
            final(self).nodeIconSpec() == old(self).nodeIconSpec(),
            final(self).leafIconSpec() == old(self).leafIconSpec(),
            forall|k: Seq<Seq<char>>|
                final(self).hasGroupSpec(k) <==> (old(self).hasGroupSpec(k) || (k == absRelPath@
                    && hasDirectAudio(tree.files@))),
            forall|k: Seq<Seq<char>>|
                old(self).hasGroupSpec(k) ==> final(self).groupFilesSpec(k) == old(
                    self,
                ).groupFilesSpec(k),
            forall|f: Seq<Seq<char>>|
                hasDirectAudio(tree.files@) ==> (#[trigger] final(self).groupContainsSpec(
                    absRelPath@,
                    f,
                ) <==> isAudioPathOf(absRelPath@, audioNamesOf(tree.files@), f)),
    {
        let ghost absRel = absRelPath@;
        proof {
            assert(absRel.subrange(0, absRel.len() as int) =~= absRel);
            assert(isPrefixOf(absRel, absRel));
        }
        let mut i: usize = 0;
        while i < tree.files.len()
            invariant
                self.wellFormed(),
                wfTree(*tree),
                i <= tree.files@.len(),
                absRel == absRelPath@,
                isPrefixOf(absRel, absRel),
                forall|k: Seq<Seq<char>>|
                    old(self).hasGroupSpec(k) ==> !isPrefixOf(absRel, k),
                self.basePathSpec() == old(self).basePathSpec(),
                self.dirsSpec() == old(self).dirsSpec(),
                self.cancelSpec() == old(self).cancelSpec(),
                self.nodeIconSpec() == old(self).nodeIconSpec(),
                self.leafIconSpec() == old(self).leafIconSpec(),
                forall|k: Seq<Seq<char>>|
                    #[trigger] self.hasGroupSpec(k) <==> (old(self).hasGroupSpec(k) || (k == absRel
                        && hasDirectAudio(tree.files@.subrange(0, i as int)))),
                forall|k: Seq<Seq<char>>|
                    old(self).hasGroupSpec(k) ==> #[trigger] self.groupFilesSpec(k) == old(
                        self,
                    ).groupFilesSpec(k),
                forall|f: Seq<Seq<char>>|
                    hasDirectAudio(tree.files@.subrange(0, i as int)) ==> (
                    #[trigger] self.groupContainsSpec(absRel, f) <==> isAudioPathOf(
                        absRel,
                        audioNamesOf(tree.files@.subrange(0, i as int)),
                        f,
                    )),
            decreases tree.files@.len() - i,
        {
            let ghost prefixNow = tree.files@.subrange(0, i as int);
            let ghost prefixNext = tree.files@.subrange(0, i + 1);
            proof {
                assert(prefixNext.drop_last() =~= prefixNow);
                assert(prefixNext.last() == tree.files@[i as int]);
            }
            if tree.files[i].audio {
                let entryName = &tree.files[i].name;
                let ghost fileName = tree.files@[i as int].name@;
                proof {
                    assert(entryName@ == fileName);
                }
                let filePath = absRelPath.child(entryName);
                proof {
                    assert(filePath@ =~= absRel + seq![fileName]);
                    assert(absRel + seq![fileName] =~= absRel.push(fileName));
                    assert(audioNamesOf(prefixNext) == audioNamesOf(prefixNow).push(fileName));
                }
                let ghost preInsert = *self;
                self.insertAudioFile(absRelPath, &filePath);
                proof {
                    assert forall|k: Seq<Seq<char>>|
                        #[trigger] self.hasGroupSpec(k) <==> (old(self).hasGroupSpec(k) || (k
                            == absRel && hasDirectAudio(prefixNext))) by {}
                    assert forall|f: Seq<Seq<char>>|
                        #[trigger] self.groupContainsSpec(absRel, f) <==> isAudioPathOf(
                        absRel,
                        audioNamesOf(prefixNext),
                        f,
                    ) by {
                        if self.groupContainsSpec(absRel, f) {
                            if f == filePath@ {
                                assert(f == absRel.push(audioNamesOf(prefixNext)[audioNamesOf(
                                    prefixNow,
                                ).len() as int]));
                            } else {
                                assert(preInsert.hasGroupSpec(absRel)
                                    && preInsert.groupContainsSpec(absRel, f));
                                assert(hasDirectAudio(prefixNow));
                                let m = choose|m: int|
                                    0 <= m < audioNamesOf(prefixNow).len() && f == absRel.push(
                                        #[trigger] audioNamesOf(prefixNow)[m],
                                    );
                                assert(audioNamesOf(prefixNext)[m] == audioNamesOf(prefixNow)[m]);
                                assert(f == absRel.push(audioNamesOf(prefixNext)[m]));
                            }
                        }
                        if isAudioPathOf(absRel, audioNamesOf(prefixNext), f) {
                            let m = choose|m: int|
                                0 <= m < audioNamesOf(prefixNext).len() && f == absRel.push(
                                    #[trigger] audioNamesOf(prefixNext)[m],
                                );
                            if m < audioNamesOf(prefixNow).len() {
                                assert(audioNamesOf(prefixNext)[m] == audioNamesOf(prefixNow)[m]);
                                assert(isAudioPathOf(absRel, audioNamesOf(prefixNow), f));
                                assert(hasDirectAudio(prefixNow));
                                assert(preInsert.groupContainsSpec(absRel, f));
                            } else {
                                assert(audioNamesOf(prefixNext)[m] == fileName);
                                assert(f == filePath@);
                            }
                        }
                    }
                }
            } else {
                proof {
                    assert(audioNamesOf(prefixNext) == audioNamesOf(prefixNow));
                }
            }
            i = i + 1;
        }
        proof {
            assert(tree.files@.subrange(0, tree.files@.len() as int) =~= tree.files@);
        }
    }

    /// Walk one listed directory tree below the relative path `rel`: record
    /// the audio files here, then, for each subdirectory, register it
    /// optimistically, walk it, and remove it again when neither it nor any
    /// descendant was left holding audio.
    #[verifier::rlimit(60)]
    fn discover(&mut self, tree: &FsDir, rel: &TrackPath)
        requires
            old(self).wellFormed(),
            wfTree(*tree),
            forall|p: Seq<Seq<char>>| old(self).containsDirSpec(p) ==> !isStrictPrefixOf(rel@, p),
            forall|k: Seq<Seq<char>>|
                old(self).hasGroupSpec(k) ==> !isPrefixOf(old(self).basePathSpec() + rel@, k),
        ensures
            final(self).wellFormed(),
            final(self).basePathSpec() == old(self).basePathSpec(),
            final(self).cancelSpec() == old(self).cancelSpec(),
            final(self).nodeIconSpec() == old(self).nodeIconSpec(),
            final(self).leafIconSpec() == old(self).leafIconSpec(),
            scannedDirsSpec(*old(self), *final(self), tree.subdirs@, rel@),
            scannedGroupsSpec(
                *old(self),
                *final(self),
                tree.files@,
                tree.subdirs@,
                old(self).basePathSpec() + rel@,
            ),
        decreases *tree,
    {
        let ghost absRel = old(self).basePathSpec() + rel@;
        let absRelPath = self.basePath.join(rel);
        proof {
            assert(absRelPath@ == absRel);
        }
        self.discoverFiles(tree, &absRelPath);
        proof {
            assert forall|p: Seq<Seq<char>>|
                #[trigger] self.containsDirSpec(p) <==> (old(self).containsDirSpec(p) || (
                isStrictPrefixOf(rel@, p) && forestSubtreeHasAudio(
                    tree.subdirs@.subrange(0, 0),
                    p.skip(rel@.len() as int),
                ))) by {
                assert(forestSubtree(tree.subdirs@.subrange(0, 0), p.skip(rel@.len() as int))
                    is None);
            }
            assert forall|k: Seq<Seq<char>>|
                !(isStrictPrefixOf(absRel, k) && forestSubtreeDirectAudio(
                    tree.subdirs@.subrange(0, 0),
                    k.skip(absRel.len() as int),
                )) by {
                assert(forestSubtree(tree.subdirs@.subrange(0, 0), k.skip(absRel.len() as int))
                    is None);
            }
        }
        let mut j: usize = 0;
        while j < tree.subdirs.len()
            invariant
                self.wellFormed(),
                wfTree(*tree),
                j <= tree.subdirs@.len(),
                absRel == old(self).basePathSpec() + rel@,
                absRelPath@ == absRel,
                self.basePathSpec() == old(self).basePathSpec(),
                self.cancelSpec() == old(self).cancelSpec(),
                self.nodeIconSpec() == old(self).nodeIconSpec(),
                self.leafIconSpec() == old(self).leafIconSpec(),
                forall|p: Seq<Seq<char>>|
                    old(self).containsDirSpec(p) ==> !isStrictPrefixOf(rel@, p),
                forall|k: Seq<Seq<char>>| old(self).hasGroupSpec(k) ==> !isPrefixOf(absRel, k),
                scannedDirsSpec(*old(self), *self, tree.subdirs@.subrange(0, j as int), rel@),
                scannedGroupsSpec(
                    *old(self),
                    *self,
                    tree.files@,
                    tree.subdirs@.subrange(0, j as int),
                    absRel,
                ),
            decreases tree.subdirs@.len() - j,
        {
            let ghost preChild = *self;
            let ghost forestJ = tree.subdirs@.subrange(0, j as int);
            let ghost forestJ1 = tree.subdirs@.subrange(0, j + 1);
            let ghost child = tree.subdirs@[j as int];
            let ghost childName = child.name@;
            let subdir = &tree.subdirs[j];
            let childRel = rel.child(&subdir.name);
            let ghost childRelV = rel@.push(childName);
            let ghost absChildV = absRel.push(childName);
            proof {
                assert(rel@ + seq![childName] =~= childRelV);
                assert(childRel@ == childRelV);
                assert(absRel + seq![childName] =~= absChildV);
                assert(forestJ1 =~= forestJ.push(child));
                assert forall|a: int, b: int|
                    0 <= a < b < forestJ.len() implies (#[trigger] forestJ[a]).name@ != (
                #[trigger] forestJ[b]).name@ by {
                    assert(forestJ[a] == tree.subdirs@[a]);
                    assert(forestJ[b] == tree.subdirs@[b]);
                }
                assert forall|a: int| 0 <= a < forestJ.len() implies (#[trigger] forestJ[a]).name@
                    != childName by {
                    assert(forestJ[a] == tree.subdirs@[a]);
                    assert(tree.subdirs@[a].name@ != tree.subdirs@[j as int].name@);
                }
                childPathLemma(rel@, childName, childRelV);
                assert(childRelV.subrange(0, childRelV.len() as int) =~= childRelV);
                assert(isPrefixOf(childRelV, childRelV));
                assert(isStrictPrefixOf(rel@, childRelV));
                childPathLemma(absRel, childName, absChildV);
                assert(absChildV.subrange(0, absChildV.len() as int) =~= absChildV);
                assert(isPrefixOf(absChildV, absChildV));
                assert(isStrictPrefixOf(absRel, absChildV));
                subdirNamedAbsentLemma(forestJ, childName);
                assert(wfTree(child));
            }
            self.insertDir(&childRel);
            let ghost s1 = *self;
            proof {
                Self::groupsCongruenceLemma(preChild, s1);
                // membership after the optimistic insert
                assert forall|p: Seq<Seq<char>>|
                    s1.containsDirSpec(p) <==> (preChild.containsDirSpec(p) || p
                        == childRelV) by {}
                // no directory sits strictly below the child yet
                assert forall|p: Seq<Seq<char>>| s1.containsDirSpec(p) implies !isStrictPrefixOf(
                    childRelV,
                    p,
                ) by {
                    if isStrictPrefixOf(childRelV, p) {
                        childPathLemma(rel@, childName, p);
                        assert(isStrictPrefixOf(rel@, p));
                        assert(p != childRelV);
                        if preChild.containsDirSpec(p) {
                            assert(!old(self).containsDirSpec(p));
                            let q = p.skip(rel@.len() as int);
                            assert(q[0] == p[rel@.len() as int]);
                            assert(q[0] == childName);
                            assert(forestSubtree(forestJ, q) is None);
                            assert(!forestSubtreeHasAudio(forestJ, q));
                            assert(false);
                        }
                    }
                }
                // no file group sits at or below the child's full path yet
                assert forall|k: Seq<Seq<char>>| s1.hasGroupSpec(k) implies !isPrefixOf(
                    absChildV,
                    k,
                ) by {
                    if isPrefixOf(absChildV, k) {
                        assert(preChild.hasGroupSpec(k) == s1.hasGroupSpec(k));
                        childPathLemma(absRel, childName, k);
                        assert(isStrictPrefixOf(absRel, k));
                        assert(isPrefixOf(absRel, k));
                        assert(!old(self).hasGroupSpec(k));
                        assert(k != absRel);
                        let q = k.skip(absRel.len() as int);
                        assert(q[0] == k[absRel.len() as int]);
                        assert(q[0] == childName);
                        assert(forestSubtree(forestJ, q) is None);
                        assert(!forestSubtreeDirectAudio(forestJ, q));
                        assert(false);
                    }
                }
                assert(s1.basePathSpec() + childRelV =~= absChildV);
                assert(decreases_to!(*tree => tree.subdirs@[j as int]));
            }
            self.discover(subdir, &childRel);
            let ghost s2 = *self;
            let absChildPath = absRelPath.child(&subdir.name);
            proof {
                assert(absRel + seq![childName] =~= absChildV);
                assert(absChildPath@ == absChildV);
            }
            let hasOwn = self.hasFilesFor(&absChildPath);
            let hasSub = self.anyDirStrictlyUnder(&childRel);
            proof {
                // what the two checks mean for the child's subtree
                assert(!s1.hasGroupSpec(absChildV));
                assert(hasOwn == hasDirectAudio(child.files@));
                assert(hasSub == (exists|q: Seq<Seq<char>>|
                    q.len() >= 1 && #[trigger] forestSubtreeHasAudio(child.subdirs@, q))) by {
                    if hasSub {
                        let m = choose|m: int|
                            0 <= m < s2.dirsSpec().len() && isStrictPrefixOf(
                                childRelV,
                                #[trigger] s2.dirsSpec()[m],
                            );
                        let p = s2.dirsSpec()[m];
                        assert(s2.containsDirSpec(p));
                        assert(!s1.containsDirSpec(p));
                        let q = p.skip(childRelV.len() as int);
                        assert(forestSubtreeHasAudio(child.subdirs@, q));
                        assert(q.len() >= 1);
                    }
                    if exists|q: Seq<Seq<char>>|
                        q.len() >= 1 && #[trigger] forestSubtreeHasAudio(child.subdirs@, q) {
                        let q = choose|q: Seq<Seq<char>>|
                            q.len() >= 1 && #[trigger] forestSubtreeHasAudio(child.subdirs@, q);
                        let p = childRelV + q;
                        assert(childRelV =~= p.subrange(0, childRelV.len() as int));
                        assert(isStrictPrefixOf(childRelV, p));
                        assert(p.skip(childRelV.len() as int) =~= q);
                        assert(forestSubtreeHasAudio(child.subdirs@, p.skip(
                            childRelV.len() as int,
                        )));
                        assert(s2.containsDirSpec(p));
                        let m = choose|m: int|
                            0 <= m < s2.dirsSpec().len() && #[trigger] s2.dirsSpec()[m] == p;
                        assert(isStrictPrefixOf(childRelV, s2.dirsSpec()[m]));
                        assert(s2.hasDirUnderSpec(childRelV));
                    }
                }
                treeAudioDecompositionLemma(child);
                assert((hasOwn || hasSub) == treeHasAudio(child));
            }
            if !hasOwn && !hasSub {
                self.removeDir(&childRel);
            }
            proof {
                Self::groupsCongruenceLemma(s2, *self);
                // directories after this child, against the longer forest
                assert forall|p: Seq<Seq<char>>|
                    #[trigger] self.containsDirSpec(p) <==> (old(self).containsDirSpec(p) || (
                    isStrictPrefixOf(rel@, p) && forestSubtreeHasAudio(
                        forestJ1,
                        p.skip(rel@.len() as int),
                    ))) by {
                    childPathLemma(rel@, childName, p);
                    if isStrictPrefixOf(rel@, p) {
                        let q = p.skip(rel@.len() as int);
                        assert(q.len() >= 1);
                        assert(q[0] == p[rel@.len() as int]);
                        forestExtendLemma(forestJ, child, q);
                        if p == childRelV {
                            assert(q =~= seq![childName]);
                            assert(forestSubtree(forestJ1, q) == Option::Some(child));
                            assert(forestSubtreeHasAudio(forestJ1, q) == treeHasAudio(child));
                            assert(s1.containsDirSpec(childRelV));
                            assert(self.containsDirSpec(p) == treeHasAudio(child));
                            assert(!old(self).containsDirSpec(p));
                        } else if isPrefixOf(childRelV, p) {
                            assert(q[0] == childName);
                            if p.len() == childRelV.len() {
                                assert(p.subrange(0, childRelV.len() as int) =~= p);
                                assert(false);
                            }
                            assert(q.len() >= 2);
                            assert(p.skip(childRelV.len() as int) == q.skip(1));
                            assert(forestSubtreeHasAudio(forestJ1, q) == forestSubtreeHasAudio(
                                child.subdirs@,
                                q.skip(1),
                            ));
                            assert(self.containsDirSpec(p) == s2.containsDirSpec(p));
                            assert(!s1.containsDirSpec(p));
                            assert(!old(self).containsDirSpec(p));
                            assert(s2.containsDirSpec(p) == forestSubtreeHasAudio(
                                child.subdirs@,
                                p.skip(childRelV.len() as int),
                            ));
                        } else {
                            assert(q[0] != childName);
                            assert(forestSubtree(forestJ1, q) == forestSubtree(forestJ, q));
                            assert(p != childRelV);
                            assert(!isStrictPrefixOf(childRelV, p)) by {
                                if isStrictPrefixOf(childRelV, p) {
                                    assert(isPrefixOf(childRelV, p));
                                }
                            }
                            assert(self.containsDirSpec(p) == s2.containsDirSpec(p));
                            assert(s2.containsDirSpec(p) == s1.containsDirSpec(p));
                            assert(s1.containsDirSpec(p) == preChild.containsDirSpec(p));
                        }
                    } else {
                        assert(p != childRelV);
                        assert(!isStrictPrefixOf(childRelV, p)) by {
                            if isStrictPrefixOf(childRelV, p) {
                                childPathLemma(rel@, childName, p);
                            }
                        }
                        assert(self.containsDirSpec(p) == s2.containsDirSpec(p));
                        assert(s2.containsDirSpec(p) == s1.containsDirSpec(p));
                        assert(s1.containsDirSpec(p) == preChild.containsDirSpec(p));
                    }
                }
                // groups after this child, against the longer forest
                assert forall|k: Seq<Seq<char>>|
                    #[trigger] self.hasGroupSpec(k) <==> (old(self).hasGroupSpec(k) || (k == absRel
                        && hasDirectAudio(tree.files@)) || (isStrictPrefixOf(absRel, k)
                        && forestSubtreeDirectAudio(forestJ1, k.skip(absRel.len() as int)))) by {
                    assert(self.hasGroupSpec(k) == s2.hasGroupSpec(k));
                    childPathLemma(absRel, childName, k);
                    if isStrictPrefixOf(absRel, k) {
                        let q = k.skip(absRel.len() as int);
                        assert(q.len() >= 1);
                        assert(q[0] == k[absRel.len() as int]);
                        forestExtendLemma(forestJ, child, q);
                        if k == absChildV {
                            assert(q =~= seq![childName]);
                            assert(forestSubtree(forestJ1, q) == Option::Some(child));
                            assert(s2.hasGroupSpec(k) == hasDirectAudio(child.files@));
                            assert(!old(self).hasGroupSpec(k));
                            assert(k != absRel);
                        } else if isPrefixOf(absChildV, k) {
                            assert(q[0] == childName);
                            if k.len() == absChildV.len() {
                                assert(k.subrange(0, absChildV.len() as int) =~= k);
                                assert(false);
                            }
                            assert(q.len() >= 2);
                            assert(k.skip(absChildV.len() as int) == q.skip(1));
                            assert(forestSubtreeDirectAudio(forestJ1, q)
                                == forestSubtreeDirectAudio(child.subdirs@, q.skip(1)));
                            assert(!s1.hasGroupSpec(k));
                            assert(!old(self).hasGroupSpec(k));
                            assert(k != absRel);
                            assert(s2.hasGroupSpec(k) == forestSubtreeDirectAudio(
                                child.subdirs@,
                                k.skip(absChildV.len() as int),
                            ));
                        } else {
                            assert(q[0] != childName);
                            assert(forestSubtree(forestJ1, q) == forestSubtree(forestJ, q));
                            assert(k != absChildV);
                            assert(!isStrictPrefixOf(absChildV, k)) by {
                                if isStrictPrefixOf(absChildV, k) {
                                    assert(isPrefixOf(absChildV, k));
                                }
                            }
                            assert(s2.hasGroupSpec(k) == s1.hasGroupSpec(k));
                            assert(s1.hasGroupSpec(k) == preChild.hasGroupSpec(k));
                        }
                    } else {
                        assert(k != absChildV);
                        assert(!isStrictPrefixOf(absChildV, k)) by {
                            if isStrictPrefixOf(absChildV, k) {
                                childPathLemma(absRel, childName, k);
                            }
                        }
                        assert(s2.hasGroupSpec(k) == s1.hasGroupSpec(k));
                        assert(s1.hasGroupSpec(k) == preChild.hasGroupSpec(k));
                    }
                }
                // group contents are untouched for earlier keys and exact
                // for the child's
                assert forall|k: Seq<Seq<char>>|
                    old(self).hasGroupSpec(k) implies #[trigger] self.groupFilesSpec(k) == old(
                    self,
                ).groupFilesSpec(k) by {
                    assert(preChild.hasGroupSpec(k));
                    assert(s1.hasGroupSpec(k));
                    assert(s2.groupFilesSpec(k) == s1.groupFilesSpec(k));
                    assert(preChild.groupFilesSpec(k) == old(self).groupFilesSpec(k));
                }
                assert forall|k: Seq<Seq<char>>, f: Seq<Seq<char>>|
                    !old(self).hasGroupSpec(k) && self.hasGroupSpec(k) implies (
                #[trigger] self.groupContainsSpec(k, f) <==> isAudioPathOf(
                    k,
                    if k == absRel {
                        audioNamesOf(tree.files@)
                    } else {
                        forestAudioNamesAt(forestJ1, k.skip(absRel.len() as int))
                    },
                    f,
                )) by {
                    assert(self.hasGroupSpec(k) == s2.hasGroupSpec(k));
                    assert(self.groupFilesSpec(k) == s2.groupFilesSpec(k));
                    Self::sameFilesSameContainsLemma(s2, *self, k);
                    assert(self.groupContainsSpec(k, f) == s2.groupContainsSpec(k, f));
                    if k == absRel {
                        assert(preChild.hasGroupSpec(k));
                        assert(s1.hasGroupSpec(k));
                        assert(s2.groupFilesSpec(k) == s1.groupFilesSpec(k));
                        Self::sameFilesSameContainsLemma(s1, s2, k);
                        assert(s1.groupFilesSpec(k) == preChild.groupFilesSpec(k));
                        Self::sameFilesSameContainsLemma(preChild, s1, k);
                        assert(self.groupContainsSpec(k, f) == preChild.groupContainsSpec(k, f));
                        assert(preChild.groupContainsSpec(k, f) == isAudioPathOf(
                            k,
                            audioNamesOf(tree.files@),
                            f,
                        ));
                    } else {
                        childPathLemma(absRel, childName, k);
                        assert(isStrictPrefixOf(absRel, k));
                        let q = k.skip(absRel.len() as int);
                        assert(q.len() >= 1);
                        assert(q[0] == k[absRel.len() as int]);
                        forestExtendLemma(forestJ, child, q);
                        if k == absChildV {
                            assert(q =~= seq![childName]);
                            assert(forestSubtree(forestJ1, q) == Option::Some(child));
                            assert(forestAudioNamesAt(forestJ1, q) == audioNamesOf(child.files@));
                            assert(!s1.hasGroupSpec(k));
                            assert(s2.groupContainsSpec(k, f) == isAudioPathOf(
                                k,
                                audioNamesOf(child.files@),
                                f,
                            ));
                        } else if isPrefixOf(absChildV, k) {
                            assert(q[0] == childName);
                            if k.len() == absChildV.len() {
                                assert(k.subrange(0, absChildV.len() as int) =~= k);
                                assert(false);
                            }
                            assert(q.len() >= 2);
                            assert(k.skip(absChildV.len() as int) == q.skip(1));
                            assert(forestAudioNamesAt(forestJ1, q) == forestAudioNamesAt(
                                child.subdirs@,
                                q.skip(1),
                            ));
                            assert(!s1.hasGroupSpec(k));
                            assert(s2.groupContainsSpec(k, f) == isAudioPathOf(
                                k,
                                forestAudioNamesAt(
                                    child.subdirs@,
                                    k.skip(absChildV.len() as int),
                                ),
                                f,
                            ));
                        } else {
                            assert(q[0] != childName);
                            assert(forestSubtree(forestJ1, q) == forestSubtree(forestJ, q));
                            assert(!isStrictPrefixOf(absChildV, k)) by {
                                if isStrictPrefixOf(absChildV, k) {
                                    assert(isPrefixOf(absChildV, k));
                                }
                            }
                            assert(s2.hasGroupSpec(k) == s1.hasGroupSpec(k));
                            assert(s1.hasGroupSpec(k) == preChild.hasGroupSpec(k));
                            assert(preChild.hasGroupSpec(k));
                            assert(s1.hasGroupSpec(k));
                            assert(s2.groupFilesSpec(k) == s1.groupFilesSpec(k));
                            Self::sameFilesSameContainsLemma(s1, s2, k);
                            assert(s1.groupFilesSpec(k) == preChild.groupFilesSpec(k));
                            Self::sameFilesSameContainsLemma(preChild, s1, k);
                            assert(self.groupContainsSpec(k, f) == preChild.groupContainsSpec(
                                k,
                                f,
                            ));
                            assert(preChild.groupContainsSpec(k, f) == isAudioPathOf(
                                k,
                                forestAudioNamesAt(forestJ, q),
                                f,
                            ));
                        }
                    }
                }
            }
            j = j + 1;
        }
        proof {
            assert(tree.subdirs@.subrange(0, tree.subdirs@.len() as int) =~= tree.subdirs@);
        }
    }

    /// A full scan: walk a listing of the tree rooted at the base path and
    /// record everything it holds.  The contract is the pruning invariant:
    /// a directory is registered exactly when it or some descendant
    /// directly holds a recognised audio file, and a file group exists
    /// exactly for each directory directly holding audio, listing exactly
    /// those files by full path.
    pub fn scanTree(&mut self, tree: &FsDir)
        requires
            old(self).wellFormed(),
            old(self).isEmptyIndex(),
            wfTree(*tree),
        ensures
            final(self).wellFormed(),
            final(self).basePathSpec() == old(self).basePathSpec(),
            final(self).cancelSpec() == old(self).cancelSpec(),
            final(self).nodeIconSpec() == old(self).nodeIconSpec(),
            final(self).leafIconSpec() == old(self).leafIconSpec(),
            forall|p: Seq<Seq<char>>|
                #[trigger] final(self).containsDirSpec(p) <==> (p.len() >= 1
                    && forestSubtreeHasAudio(tree.subdirs@, p)),
            forall|k: Seq<Seq<char>>|
                #[trigger] final(self).hasGroupSpec(k) <==> ((k == old(self).basePathSpec()
                    && hasDirectAudio(tree.files@)) || (isStrictPrefixOf(
                    old(self).basePathSpec(),
                    k,
                ) && forestSubtreeDirectAudio(
                    tree.subdirs@,
                    k.skip(old(self).basePathSpec().len() as int),
                ))),
            forall|k: Seq<Seq<char>>, f: Seq<Seq<char>>|
                final(self).hasGroupSpec(k) ==> (#[trigger] final(self).groupContainsSpec(k, f)
                    <==> isAudioPathOf(
                    k,
                    if k == old(self).basePathSpec() {
                        audioNamesOf(tree.files@)
                    } else {
                        forestAudioNamesAt(
                            tree.subdirs@,
                            k.skip(old(self).basePathSpec().len() as int),
                        )
                    },
                    f,
                )),
    {
        let relRoot = TrackPath::empty();
        let ghost base = old(self).basePathSpec();
        proof {
            assert(base + relRoot@ =~= base);
        }
        self.discover(tree, &relRoot);
        proof {
            assert forall|p: Seq<Seq<char>>|
                #[trigger] self.containsDirSpec(p) <==> (p.len() >= 1 && forestSubtreeHasAudio(
                    tree.subdirs@,
                    p,
                )) by {
                assert(relRoot@ =~= p.subrange(0, 0));
                assert(isPrefixOf(relRoot@, p));
                assert(isStrictPrefixOf(relRoot@, p) == (p.len() >= 1));
                assert(p.skip(0) =~= p);
            }
            assert forall|k: Seq<Seq<char>>|
                #[trigger] self.hasGroupSpec(k) <==> ((k == base && hasDirectAudio(tree.files@))
                    || (isStrictPrefixOf(base, k) && forestSubtreeDirectAudio(
                    tree.subdirs@,
                    k.skip(base.len() as int),
                ))) by {}
            assert forall|k: Seq<Seq<char>>, f: Seq<Seq<char>>|
                self.hasGroupSpec(k) implies (#[trigger] self.groupContainsSpec(k, f)
                    <==> isAudioPathOf(
                k,
                if k == base {
                    audioNamesOf(tree.files@)
                } else {
                    forestAudioNamesAt(tree.subdirs@, k.skip(base.len() as int))
                },
                f,
            )) by {
                assert(!old(self).hasGroupSpec(k));
            }
        }
    }

    /// Note that the scanner should stop taking more actions.
    pub fn requestCancellation(&mut self)
        ensures
            final(self).cancelSpec(),
            final(self).basePathSpec() == old(self).basePathSpec(),
            final(self).dirsSpec() == old(self).dirsSpec(),
            final(self).groupsSpec() == old(self).groupsSpec(),
            final(self).nodeIconSpec() == old(self).nodeIconSpec(),
            final(self).leafIconSpec() == old(self).leafIconSpec(),
    {
        self.cancelRequested = true;
    }

    /// Whether the scanner has been asked to stop.
    pub fn isCancelled(&self) -> (r: bool)
        ensures
            r == self.cancelSpec(),
    {
        self.cancelRequested
    }

    /// The directory that position `i` of the enumeration stands for: the
    /// base path always comes first, then the registered directories.
    pub open spec fn enumeratedDirSpec(self, i: int) -> Option<Seq<Seq<char>>> {
        if i == 0 {
            Option::Some(self.basePathSpec())
        } else if 1 <= i <= self.dirsSpec().len() {
            Option::Some(self.dirsSpec()[i - 1])
        } else {
            Option::None
        }
    }

    /// The group key a directory is looked up under: a path below the base
    /// is taken as it stands, a relative one is joined onto the base.
    pub open spec fn lookupKeySpec(self, dir: Seq<Seq<char>>) -> Seq<Seq<char>> {
        if isPrefixOf(self.basePathSpec(), dir) {
            dir
        } else {
            self.basePathSpec() + dir
        }
    }

    /// The library's base path.
    pub fn basePath(&self) -> (r: &TrackPath)
        ensures
            r@ == self.basePathSpec(),
    {
        &self.basePath
    }

    /// How many entries the directory enumeration has: the base path plus
    /// every registered directory (saturating at the machine's limit).
    pub fn directoryCount(&self) -> (r: usize)
        ensures
            r == if self.dirsSpec().len() < usize::MAX {
                self.dirsSpec().len() + 1nat
            } else {
                usize::MAX as nat
            },
    {
        let n = self.dirs.len();
        if n < usize::MAX {
            n + 1
        } else {
            n
        }
    }

    /// The directory at position `index` of the enumeration: positions 1
    /// and up walk the registered directories in strictly increasing path
    /// order, so position `index` holds the `index`-th smallest.
    pub fn directoryAt(&self, index: usize) -> (r: Option<&TrackPath>)
        ensures
            self.wellFormed() ==> self.dirsOrderedSpec(),
            match r {
                Option::Some(p) => self.enumeratedDirSpec(index as int) == Option::Some(p@),
                Option::None => self.enumeratedDirSpec(index as int) is None,
            },
    {
        if index == 0 {
            Some(&self.basePath)
        } else if index <= self.dirs.len() {
            Some(&self.dirs[index - 1])
        } else {
            None
        }
    }

    /// The files of the directory `dir`, if it has a group.
    fn filesIn(&self, dir: &TrackPath) -> (r: Option<&Vec<TrackPath>>)
        requires
            self.wellFormed(),
        ensures
            match r {
                Option::Some(v) => self.hasGroupSpec(self.lookupKeySpec(dir@)) && pathSeqView(v@)
                    == self.groupFilesSpec(self.lookupKeySpec(dir@)),
                Option::None => !self.hasGroupSpec(self.lookupKeySpec(dir@)),
            },
    {
        let found = if dir.startsWith(&self.basePath) {
            self.findGroupIndex(dir)
        } else {
            let key = self.basePath.join(dir);
            self.findGroupIndex(&key)
        };
        match found {
            Some(gi) => {
                proof {
                    self.groupIndexLemma(self.lookupKeySpec(dir@), gi as int);
                }
                Some(&self.files[gi].files)
            },
            None => None,
        }
    }

    /// The file at position `index` inside the directory `dir`: the
    /// group's files are kept in strictly increasing path order, so this
    /// is its `index`-th smallest file.
    pub fn fileIn(&self, dir: &TrackPath, index: usize) -> (r: Option<&TrackPath>)
        requires
            self.wellFormed(),
        ensures
            self.groupFilesOrderedSpec(),
            match r {
                Option::Some(p) => self.hasGroupSpec(self.lookupKeySpec(dir@)) && index
                    < self.groupFilesSpec(self.lookupKeySpec(dir@)).len() && p@
                    == self.groupFilesSpec(self.lookupKeySpec(dir@))[index as int],
                Option::None => !self.hasGroupSpec(self.lookupKeySpec(dir@)) || index
                    >= self.groupFilesSpec(self.lookupKeySpec(dir@)).len(),
            },
    {
        match self.filesIn(dir) {
            Some(files) => {
                if index < files.len() {
                    Some(&files[index])
                } else {
                    None
                }
            },
            None => None,
        }
    }

    /// The display names of the files under the enumeration position
    /// `dirIndex`, if it names a directory with a group: one name per
    /// file, in the group's strictly increasing path order.
    pub fn filesFor(&self, dirIndex: Option<usize>) -> (r: Option<Vec<String>>)
        requires
            self.wellFormed(),
        ensures
            self.groupFilesOrderedSpec(),
            match r {
                Option::Some(v) => {
                    &&& dirIndex is Some
                    &&& self.enumeratedDirSpec(dirIndex->0 as int) is Some
                    &&& {
                        let key = self.lookupKeySpec(self.enumeratedDirSpec(dirIndex->0 as int)->0);
                        &&& self.hasGroupSpec(key)
                        &&& v@.len() == self.groupFilesSpec(key).len()
                        &&& forall|i: int|
                            0 <= i < v@.len() ==> v@[i]@ == fileNameOf(
                                #[trigger] self.groupFilesSpec(key)[i],
                            )
                    }
                },
                Option::None => match dirIndex {
                    Option::Some(ix) => self.enumeratedDirSpec(ix as int) is None || !self.hasGroupSpec(
                        self.lookupKeySpec(self.enumeratedDirSpec(ix as int)->0),
                    ),
                    Option::None => true,
                },
            },
    {
        let ix = match dirIndex {
            Some(ix) => ix,
            None => {
                return None;
            },
        };
        let dir = match self.directoryAt(ix) {
            Some(dir) => dir,
            None => {
                return None;
            },
        };
        let files = match self.filesIn(dir) {
            Some(files) => files,
            None => {
                return None;
            },
        };
        let ghost key = self.lookupKeySpec(dir@);
        let mut out: Vec<String> = Vec::new();
        let mut i: usize = 0;
        while i < files.len()
            invariant
                i <= files@.len(),
                out@.len() == i,
                pathSeqView(files@) == self.groupFilesSpec(key),
                forall|m: int|
                    0 <= m < i ==> out@[m]@ == fileNameOf(#[trigger] self.groupFilesSpec(key)[m]),
            decreases files@.len() - i,
        {
            match files[i].lastSegment() {
                Some(s) => out.push(s.clone()),
                None => out.push(String::new()),
            }
            proof {
                assert(pathSeqView(files@)[i as int] == files@[i as int]@);
            }
            i = i + 1;
        }
        Some(out)
    }

    /// How many files the enumeration position `dirIndex` holds; zero when
    /// it names no directory or one without a group.
    pub fn filesCount(&self, dirIndex: Option<usize>) -> (r: usize)
        requires
            self.wellFormed(),
        ensures
            r == match dirIndex {
                Option::Some(ix) => match self.enumeratedDirSpec(ix as int) {
                    Option::Some(d) => if self.hasGroupSpec(self.lookupKeySpec(d)) {
                        self.groupFilesSpec(self.lookupKeySpec(d)).len()
                    } else {
                        0
                    },
                    Option::None => 0,
                },
                Option::None => 0,
            },
    {
        let ix = match dirIndex {
            Some(ix) => ix,
            None => {
                return 0;
            },
        };
        let dir = match self.directoryAt(ix) {
            Some(dir) => dir,
            None => {
                return 0;
            },
        };
        match self.filesIn(dir) {
            Some(files) => files.len(),
            None => 0,
        }
    }

    /// The track that the pair of selections names: the directory at
    /// `dirIndex` of the enumeration, and the file at `fileIndex` within
    /// it, by its full path.
    pub fn selectTrack(&self, dirIndex: Option<usize>, fileIndex: Option<usize>) -> (r: Option<
        TrackPath,
    >)
        requires
            self.wellFormed(),
        ensures
            self.dirsOrderedSpec(),
            self.groupFilesOrderedSpec(),
            match (dirIndex, fileIndex) {
                (Option::Some(di), Option::Some(fi)) => match self.enumeratedDirSpec(di as int) {
                    Option::Some(d) => {
                        let key = self.lookupKeySpec(d);
                        if self.hasGroupSpec(key) && (fi as nat) < self.groupFilesSpec(key).len() {
                            r matches Option::Some(p) && p@ == self.groupFilesSpec(key)[fi as int]
                        } else {
                            r is None
                        }
                    },
                    Option::None => r is None,
                },
                _ => r is None,
            },
    {
        let di = match dirIndex {
            Some(di) => di,
            None => {
                return None;
            },
        };
        let fi = match fileIndex {
            Some(fi) => fi,
            None => {
                return None;
            },
        };
        let dir = match self.directoryAt(di) {
            Some(dir) => dir,
            None => {
                return None;
            },
        };
        match self.fileIn(dir, fi) {
            Some(file) => Some(file.duplicate()),
            None => None,
        }
    }

    /// The registered directories, for persisting.
    pub fn cacheDirs(&self) -> (r: Vec<TrackPath>)
        ensures
            pathSeqView(r@) == self.dirsSpec(),
    {
        let mut out: Vec<TrackPath> = Vec::new();
        let mut i: usize = 0;
        while i < self.dirs.len()
            invariant
                i <= self.dirs@.len(),
                out@.len() == i,
                forall|m: int| 0 <= m < i ==> out@[m]@ == #[trigger] self.dirsSpec()[m],
            decreases self.dirs@.len() - i,
        {
            out.push(self.dirs[i].duplicate());
            i = i + 1;
        }
        proof {
            assert(pathSeqView(out@) =~= self.dirsSpec());
        }
        out
    }

    /// The file groups, for persisting.
    pub fn cacheGroups(&self) -> (r: Vec<DirFiles>)
        ensures
            Seq::new(r@.len(), |i: int| (r@[i].dir@, r@[i].filesSpec())) == self.groupsSpec(),
    {
        let mut out: Vec<DirFiles> = Vec::new();
        let mut i: usize = 0;
        while i < self.files.len()
            invariant
                i <= self.files@.len(),
                out@.len() == i,
                forall|m: int|
                    0 <= m < i ==> (out@[m].dir@, out@[m].filesSpec()) == #[trigger] self.groupsSpec()[m],
            decreases self.files@.len() - i,
        {
            let mut groupFiles: Vec<TrackPath> = Vec::new();
            let mut j: usize = 0;
            while j < self.files[i].files.len()
                invariant
                    i < self.files@.len(),
                    j <= self.files@[i as int].files@.len(),
                    groupFiles@.len() == j,
                    forall|m: int|
                        0 <= m < j ==> groupFiles@[m]@ == #[trigger] self.files@[i as int].files@[m]@,
                decreases self.files@[i as int].files@.len() - j,
            {
                groupFiles.push(self.files[i].files[j].duplicate());
                j = j + 1;
            }
            let group = DirFiles { dir: self.files[i].dir.duplicate(), files: groupFiles };
            proof {
                assert(group.filesSpec() =~= self.files@[i as int].filesSpec());
            }
            out.push(group);
            i = i + 1;
        }
        proof {
            assert(Seq::new(out@.len(), |i: int| (out@[i].dir@, out@[i].filesSpec()))
                =~= self.groupsSpec());
        }
        out
    }

    /// The lines of the directory listing: the base path first with the
    /// tree icon, then each registered directory under the leaf icon, in
    /// strictly increasing path order, indented one pipe per level below
    /// the first.
    pub fn directories(&self) -> (r: Vec<String>)
        ensures
            self.wellFormed() ==> self.dirsOrderedSpec(),
            r@.len() == self.dirsSpec().len() + 1,
            r@[0]@ == self.nodeIconSpec() + displaySpec(self.basePathSpec()),
            forall|i: int|
                1 <= i <= self.dirsSpec().len() ==> r@[i]@ == dirLineSpec(
                    self.leafIconSpec(),
                    #[trigger] self.dirsSpec()[i - 1],
                ),
    {
        let mut out: Vec<String> = Vec::new();
        let mut rootLine = self.treeNodeIcon.clone();
        rootLine.append(self.basePath.display().as_str());
        out.push(rootLine);
        let mut i: usize = 0;
        while i < self.dirs.len()
            invariant
                i <= self.dirs@.len(),
                out@.len() == i + 1,
                out@[0]@ == self.nodeIconSpec() + displaySpec(self.basePathSpec()),
                forall|m: int|
                    1 <= m <= i ==> out@[m]@ == dirLineSpec(
                        self.leafIconSpec(),
                        #[trigger] self.dirsSpec()[m - 1],
                    ),
            decreases self.dirs@.len() - i,
        {
            let dir = &self.dirs[i];
            let depth = dir.segmentCount();
            let mut line = String::new();
            line.append(" ");
            proof {
                reveal_strlit(" ");
                reveal_strlit("\u{2502} ");
                assert(line@ =~= seq![' '] + pipes(0));
            }
            let mut level: usize = 1;
            while level < depth
                invariant
                    1 <= level || depth == 0,
                    depth == dir@.len(),
                    level <= depth || level == 1,
                    "\u{2502} "@ == seq!['\u{2502}', ' '],
                    line@ == seq![' '] + pipes((if level >= 1 {
                        (level - 1) as nat
                    } else {
                        0nat
                    })),
                decreases depth - level,
            {
                line.append("\u{2502} ");
                proof {
                    assert(line@ =~= seq![' '] + pipes(level as nat));
                }
                level = level + 1;
            }
            line.append(self.treeLeafIcon.as_str());
            match dir.lastSegment() {
                Some(s) => line.append(s.as_str()),
                None => (),
            }
            proof {
                assert(dir@.len() >= 1 ==> line@ =~= dirLineSpec(self.leafIconSpec(), dir@));
                if dir@.len() == 0 {
                    assert(line@ =~= dirLineSpec(self.leafIconSpec(), dir@));
                }
            }
            out.push(line);
            i = i + 1;
        }
        out
    }
}

} // verus!
