//! Listing the tile cache: the walk over `tiles/` that finds every cached tile.
//!
//! The walk is confined to the directory it starts from: it only ever descends
//! into directories that were found by reading that directory, and it never
//! follows symlinks. Whatever cannot be read is skipped.
use vstd::prelude::*;

use super::prune::{CacheEntry, Timestamp};
use crate::text;
use crate::text::same_text;

verus! {

/// What a directory entry is. A symlink is reported as such, whatever it
/// points at.
#[derive(Clone, Copy, Debug, PartialEq, Eq, Structural)]
pub enum FileKind {
    Symlink,
    Directory,
    File,
    Other,
}

/// What is known of a file: its size and, where the platform keeps one, its
/// modification time.
#[derive(Clone, Copy, Debug, PartialEq, Eq, Structural)]
pub struct Metadata {
    pub size_bytes: u64,
    pub modified: Option<Timestamp>,
}

/// A walk in progress: the directories still to be read, and the tiles found.
#[derive(Debug, PartialEq)]
pub struct CacheWalk<P> {
    pub pending: Vec<P>,
    pub entries: Vec<CacheEntry<P>>,
}

/// A walk in progress, as sequences.
pub struct Walk<P> {
    pub pending: Seq<P>,
    pub entries: Seq<CacheEntry<P>>,
}

impl<P> View for CacheWalk<P> {
    type V = Walk<P>;

    open spec fn view(&self) -> Walk<P> {
        Walk { pending: self.pending@, entries: self.entries@ }
    }
}

/// Whether a directory entry is worth a look: a regular `.png` file.
pub open spec fn tile_file(kind: Option<FileKind>, extension: Option<Seq<char>>) -> bool {
    kind == Some(FileKind::File) && extension == Some("png"@)
}

/// The walk after a directory entry was seen: a real directory is left for
/// later.
pub open spec fn after_visit<P>(walk: Walk<P>, path: P, kind: Option<FileKind>) -> Walk<P> {
    if kind == Some(FileKind::Directory) {
        Walk { pending: walk.pending.push(path), ..walk }
    } else {
        walk
    }
}

/// The tile that a file amounts to, where its metadata could be read and says
/// when it was modified.
pub open spec fn tile_entry<P>(path: P, metadata: Option<Metadata>) -> Option<CacheEntry<P>> {
    match metadata {
        Some(m) => match m.modified {
            Some(modified) => Some(CacheEntry { path, size_bytes: m.size_bytes, modified }),
            None => None,
        },
        None => None,
    }
}

/// The walk after a file's metadata was asked for.
pub open spec fn after_record<P>(walk: Walk<P>, path: P, metadata: Option<Metadata>) -> Walk<P> {
    match tile_entry(path, metadata) {
        Some(entry) => Walk { entries: walk.entries.push(entry), ..walk },
        None => walk,
    }
}

impl<P> CacheWalk<P> {
    /// A walk that is about to read `tiles_dir`.
    pub fn start(tiles_dir: P) -> (r: Self)
        ensures
            r@.pending == seq![tiles_dir],
            r@.entries == Seq::<CacheEntry<P>>::empty(),
    {
        let mut pending: Vec<P> = Vec::new();
        pending.push(tiles_dir);
        assert(pending@ =~= seq![tiles_dir]);
        CacheWalk { pending, entries: Vec::new() }
    }

    /// The directory to read next: the one found last. `None` ends the walk.
    pub fn next_dir(&mut self) -> (r: Option<P>)
        ensures
            final(self)@.entries == old(self)@.entries,
            match r {
                Some(dir) => old(self)@.pending == final(self)@.pending.push(dir),
                None => old(self)@.pending.len() == 0 && final(self)@.pending.len() == 0,
            },
    {
        let dir = self.pending.pop();
        proof {
            if dir is Some {
                assert(old(self)@.pending =~= self@.pending.push(dir->0));
            }
        }
        dir
    }

    /// Takes in one entry of the directory being read: its path, its kind
    /// (`None` if that could not be told) and the extension of its name.
    /// Gives the path back if the file's metadata is wanted.
    pub fn visit(&mut self, path: P, kind: Option<FileKind>, extension: Option<&str>) -> (r: Option<
        P,
    >)
        ensures
            final(self)@ == after_visit(old(self)@, path, kind),
            r == (if tile_file(kind, text::opt_str(extension)) {
                Some(path)
            } else {
                None
            }),
            r is Some <==> kind == Some(FileKind::File) && (extension matches Some(e) && e@
                == "png"@),
            r is Some ==> r == Some(path),
            final(self).entries@ == old(self).entries@,
            kind == Some(FileKind::Directory) ==> final(self).pending@ == old(self).pending@.push(
                path,
            ),
            kind != Some(FileKind::Directory) ==> final(self).pending@ == old(self).pending@,
    {
        match kind {
            Some(FileKind::Directory) => {
                self.pending.push(path);
                None
            },
            Some(FileKind::File) => match extension {
                Some(extension) => if same_text(extension, "png") {
                    Some(path)
                } else {
                    None
                },
                None => None,
            },
            _ => None,
        }
    }

    /// Takes in the metadata of a file that `visit` wanted, `None` if it could
    /// not be read.
    pub fn record(&mut self, path: P, metadata: Option<Metadata>)
        ensures
            final(self)@ == after_record(old(self)@, path, metadata),
            final(self).pending@ == old(self).pending@,
            metadata matches Some(m) ==> m.modified matches Some(modified) ==> final(self).entries@
                == old(self).entries@.push(
                (CacheEntry { path, size_bytes: m.size_bytes, modified }),
            ),
            metadata is None || (metadata->0).modified is None ==> final(self).entries@ == old(self).entries@,
    {
        if let Some(m) = metadata {
            if let Some(modified) = m.modified {
                self.entries.push(CacheEntry { path, size_bytes: m.size_bytes, modified });
            }
        }
    }
}

// ---------------------------------------------------------------------------
// Laws
// ---------------------------------------------------------------------------

/// A directory entry and all that can be learned of it.
pub struct DirItem<P> {
    pub path: P,
    pub kind: Option<FileKind>,
    pub extension: Option<Seq<char>>,
    pub metadata: Option<Metadata>,
}

/// The walk after one directory entry was dealt with.
pub open spec fn after_item<P>(walk: Walk<P>, item: DirItem<P>) -> Walk<P> {
    let seen = after_visit(walk, item.path, item.kind);
    if tile_file(item.kind, item.extension) {
        after_record(seen, item.path, item.metadata)
    } else {
        seen
    }
}

/// The walk after a directory's entries were dealt with.
pub open spec fn after_items<P>(walk: Walk<P>, items: Seq<DirItem<P>>) -> Walk<P>
    decreases items.len(),
{
    if items.len() == 0 {
        walk
    } else {
        after_item(after_items(walk, items.drop_last()), items.last())
    }
}

/// Whether an item is a regular `.png` file with a readable size and time.
pub open spec fn is_tile<P>(item: DirItem<P>) -> bool {
    tile_file(item.kind, item.extension) && tile_entry(item.path, item.metadata) is Some
}

/// The tiles among a directory's entries.
pub open spec fn tiles_in<P>(items: Seq<DirItem<P>>) -> Seq<CacheEntry<P>> {
    items.filter(|item: DirItem<P>| is_tile(item)).map_values(
        |item: DirItem<P>| tile_entry(item.path, item.metadata).unwrap(),
    )
}

/// The directories among a directory's entries.
pub open spec fn dirs_in<P>(items: Seq<DirItem<P>>) -> Seq<P> {
    items.filter(|item: DirItem<P>| item.kind == Some(FileKind::Directory)).map_values(
        |item: DirItem<P>| item.path,
    )
}

/// Reading a directory adds exactly its tiles to what was found, and exactly
/// its real directories to what is still to be read. A symlink adds nothing.
pub proof fn lemma_directory_visit<P>(walk: Walk<P>, items: Seq<DirItem<P>>)
    ensures
        after_items(walk, items).entries == walk.entries + tiles_in(items),
        after_items(walk, items).pending == walk.pending + dirs_in(items),
    decreases items.len(),
{
    reveal(Seq::filter);
    if items.len() == 0 {
        assert(walk.entries + tiles_in(items) =~= walk.entries);
        assert(walk.pending + dirs_in(items) =~= walk.pending);
    } else {
        let front = items.drop_last();
        let item = items.last();
        lemma_directory_visit(walk, front);
        if is_tile(item) {
            assert(tiles_in(items) =~= tiles_in(front).push(
                tile_entry(item.path, item.metadata).unwrap(),
            ));
        } else {
            assert(tiles_in(items) =~= tiles_in(front));
        }
        if item.kind == Some(FileKind::Directory) {
            assert(dirs_in(items) =~= dirs_in(front).push(item.path));
        } else {
            assert(dirs_in(items) =~= dirs_in(front));
        }
        assert(after_items(walk, items).entries =~= walk.entries + tiles_in(items));
        assert(after_items(walk, items).pending =~= walk.pending + dirs_in(items));
    }
}

/// A symlink is neither taken for a tile nor descended into.
pub proof fn lemma_symlinks_are_skipped<P>(walk: Walk<P>, item: DirItem<P>)
    requires
        item.kind == Some(FileKind::Symlink),
    ensures
        after_item(walk, item) == walk,
{
}

/// The walk after one more directory was read. `listing` tells what a
/// directory holds; one that cannot be read holds nothing.
pub open spec fn after_dir<P>(listing: spec_fn(P) -> Seq<DirItem<P>>, walk: Walk<P>) -> Walk<P> {
    if walk.pending.len() == 0 {
        walk
    } else {
        after_items(
            Walk { pending: walk.pending.drop_last(), ..walk },
            listing(walk.pending.last()),
        )
    }
}

/// The walk from `root` after `n` directories were read.
pub open spec fn walked<P>(listing: spec_fn(P) -> Seq<DirItem<P>>, root: P, n: nat) -> Walk<P>
    decreases n,
{
    if n == 0 {
        Walk { pending: seq![root], entries: seq![] }
    } else {
        after_dir(listing, walked(listing, root, (n - 1) as nat))
    }
}

/// The directory that the walk from `root` reads as its `n`-th, if it gets
/// that far.
pub open spec fn read_at<P>(listing: spec_fn(P) -> Seq<DirItem<P>>, root: P, n: nat) -> Option<P> {
    let walk = walked(listing, root, n);
    if walk.pending.len() == 0 {
        None
    } else {
        Some(walk.pending.last())
    }
}

/// Whether `path` leads from `root` down through real directories only.
pub open spec fn descends<P>(
    listing: spec_fn(P) -> Seq<DirItem<P>>,
    root: P,
    path: Seq<P>,
) -> bool {
    &&& path.len() > 0
    &&& path[0] == root
    &&& forall|i: int|
        0 <= i < path.len() - 1 ==> #[trigger] dirs_in(listing(path[i])).contains(path[i + 1])
}

/// Whether `dir` lies below `root`, through real directories only.
pub open spec fn below<P>(listing: spec_fn(P) -> Seq<DirItem<P>>, root: P, dir: P) -> bool {
    exists|path: Seq<P>| #[trigger] descends(listing, root, path) && path.last() == dir
}

/// Whether the walk from `root` has read `dir` after `n` directories.
pub open spec fn has_read<P>(
    listing: spec_fn(P) -> Seq<DirItem<P>>,
    root: P,
    n: nat,
    dir: P,
) -> bool {
    exists|k: nat| k < n && #[trigger] read_at(listing, root, k) == Some(dir)
}

proof fn lemma_descend<P>(listing: spec_fn(P) -> Seq<DirItem<P>>, root: P, dir: P, sub: P)
    requires
        below(listing, root, dir),
        dirs_in(listing(dir)).contains(sub),
    ensures
        below(listing, root, sub),
{
    let path = choose|path: Seq<P>| #[trigger]
        descends(listing, root, path) && path.last() == dir;
    let longer = path.push(sub);
    assert forall|i: int| 0 <= i < longer.len() - 1 implies #[trigger] dirs_in(
        listing(longer[i]),
    ).contains(longer[i + 1]) by {
        assert(longer[i] == path[i]);
        if i + 1 < path.len() {
            assert(dirs_in(listing(path[i])).contains(path[i + 1]));
        }
    }
    assert(descends(listing, root, longer));
    assert(longer.last() == sub);
}

proof fn lemma_dir_step<P>(listing: spec_fn(P) -> Seq<DirItem<P>>, root: P, n: nat)
    requires
        walked(listing, root, n).pending.len() > 0,
    ensures
        ({
            let before = walked(listing, root, n);
            let after = walked(listing, root, n + 1);
            let dir = before.pending.last();
            &&& after.entries == before.entries + tiles_in(listing(dir))
            &&& after.pending == before.pending.drop_last() + dirs_in(listing(dir))
        }),
{
    let before = walked(listing, root, n);
    lemma_directory_visit(
        Walk { pending: before.pending.drop_last(), ..before },
        listing(before.pending.last()),
    );
}

/// The walk is confined: whatever directory it means to read lies below the
/// one it started from, through real directories only, and whatever tile it
/// found lies in such a directory.
pub proof fn lemma_walk_is_confined<P>(
    listing: spec_fn(P) -> Seq<DirItem<P>>,
    root: P,
    n: nat,
)
    ensures
        forall|dir: P|
            #[trigger] walked(listing, root, n).pending.contains(dir) ==> below(listing, root, dir),
        forall|entry: CacheEntry<P>|
            #[trigger] walked(listing, root, n).entries.contains(entry) ==> exists|dir: P|
                #[trigger] below(listing, root, dir) && tiles_in(listing(dir)).contains(entry),
    decreases n,
{
    let walk = walked(listing, root, n);
    if n == 0 {
        assert(descends(listing, root, seq![root]));
        assert(seq![root].last() == root);
        assert(below(listing, root, root));
    } else {
        let m = (n - 1) as nat;
        let before = walked(listing, root, m);
        lemma_walk_is_confined(listing, root, m);
        if before.pending.len() > 0 {
            let dir = before.pending.last();
            lemma_dir_step(listing, root, m);
            assert(before.pending.contains(dir));
            assert forall|d: P| #[trigger] walk.pending.contains(d) implies below(
                listing,
                root,
                d,
            ) by {
                let k = choose|k: int| 0 <= k < walk.pending.len() && walk.pending[k] == d;
                let kept = before.pending.drop_last();
                if k < kept.len() {
                    assert(before.pending[k] == d);
                    assert(before.pending.contains(d));
                } else {
                    assert(dirs_in(listing(dir))[k - kept.len()] == d);
                    assert(dirs_in(listing(dir)).contains(d));
                    lemma_descend(listing, root, dir, d);
                }
            }
            assert forall|entry: CacheEntry<P>| #[trigger] walk.entries.contains(entry) implies exists|
                d: P,
            | #[trigger]
                below(listing, root, d) && tiles_in(listing(d)).contains(entry) by {
                let k = choose|k: int| 0 <= k < walk.entries.len() && walk.entries[k] == entry;
                if k < before.entries.len() {
                    assert(before.entries[k] == entry);
                    assert(before.entries.contains(entry));
                } else {
                    let found = tiles_in(listing(dir));
                    assert(found[k - before.entries.len()] == entry);
                    assert(found.contains(entry));
                    assert(below(listing, root, dir));
                }
            }
        }
    }
}

proof fn lemma_walk_progress<P>(listing: spec_fn(P) -> Seq<DirItem<P>>, root: P, n: nat)
    ensures
        has_read(listing, root, n, root) || walked(listing, root, n).pending.contains(root),
        forall|dir: P, sub: P|
            has_read(listing, root, n, dir) && #[trigger] dirs_in(listing(dir)).contains(sub)
                ==> has_read(listing, root, n, sub) || walked(listing, root, n).pending.contains(
                sub,
            ),
        forall|dir: P, entry: CacheEntry<P>|
            has_read(listing, root, n, dir) && #[trigger] tiles_in(listing(dir)).contains(entry)
                ==> walked(listing, root, n).entries.contains(entry),
    decreases n,
{
    let walk = walked(listing, root, n);
    if n == 0 {
        assert(walk.pending[0] == root);
    } else {
        let m = (n - 1) as nat;
        let before = walked(listing, root, m);
        lemma_walk_progress(listing, root, m);
        assert forall|d: P| has_read(listing, root, m, d) implies #[trigger] has_read(
            listing,
            root,
            n,
            d,
        ) by {
            let k = choose|k: nat| k < m && #[trigger] read_at(listing, root, k) == Some(d);
            assert(k < n && read_at(listing, root, k) == Some(d));
        }
        if before.pending.len() == 0 {
            assert forall|d: P| #[trigger] has_read(listing, root, n, d) implies has_read(
                listing,
                root,
                m,
                d,
            ) by {
                let k = choose|k: nat| k < n && #[trigger] read_at(listing, root, k) == Some(d);
                assert(read_at(listing, root, m) is None);
                assert(k < m && read_at(listing, root, k) == Some(d));
            }
        } else {
            let dir = before.pending.last();
            lemma_dir_step(listing, root, m);
            assert(read_at(listing, root, m) == Some(dir));
            assert(has_read(listing, root, n, dir));
            assert forall|d: P| before.pending.contains(d) implies #[trigger] has_read(
                listing,
                root,
                n,
                d,
            ) || walk.pending.contains(d) by {
                let k = choose|k: int| 0 <= k < before.pending.len() && before.pending[k] == d;
                if k < before.pending.len() - 1 {
                    assert(walk.pending[k] == d);
                }
            }
            assert forall|d: P| #[trigger] has_read(listing, root, n, d) implies d == dir
                || has_read(listing, root, m, d) by {
                let k = choose|k: nat| k < n && #[trigger] read_at(listing, root, k) == Some(d);
                if k < m {
                    assert(has_read(listing, root, m, d));
                }
            }
            assert forall|d: P, sub: P|
                has_read(listing, root, n, d) && #[trigger] dirs_in(listing(d)).contains(
                    sub,
                ) implies has_read(listing, root, n, sub) || walk.pending.contains(sub) by {
                if d == dir {
                    let subs = dirs_in(listing(dir));
                    let k = choose|k: int| 0 <= k < subs.len() && subs[k] == sub;
                    assert(walk.pending[before.pending.len() - 1 + k] == sub);
                }
            }
            assert forall|d: P, entry: CacheEntry<P>|
                has_read(listing, root, n, d) && #[trigger] tiles_in(listing(d)).contains(
                    entry,
                ) implies walk.entries.contains(entry) by {
                if d == dir {
                    let found = tiles_in(listing(dir));
                    let k = choose|k: int| 0 <= k < found.len() && found[k] == entry;
                    assert(walk.entries[before.entries.len() + k] == entry);
                } else {
                    assert(before.entries.contains(entry));
                    let k = choose|k: int|
                        0 <= k < before.entries.len() && before.entries[k] == entry;
                    assert(walk.entries[k] == entry);
                }
            }
        }
    }
}

/// The walk is complete: once nothing is left to be read, every tile in every
/// directory below the one it started from was found, at any depth.
pub proof fn lemma_walk_is_complete<P>(
    listing: spec_fn(P) -> Seq<DirItem<P>>,
    root: P,
    n: nat,
    dir: P,
    entry: CacheEntry<P>,
)
    requires
        walked(listing, root, n).pending.len() == 0,
        below(listing, root, dir),
        tiles_in(listing(dir)).contains(entry),
    ensures
        walked(listing, root, n).entries.contains(entry),
{
    let path = choose|path: Seq<P>| #[trigger]
        descends(listing, root, path) && path.last() == dir;
    lemma_path_is_read(listing, root, n, path, path.len() - 1);
    lemma_walk_progress(listing, root, n);
}

proof fn lemma_path_is_read<P>(
    listing: spec_fn(P) -> Seq<DirItem<P>>,
    root: P,
    n: nat,
    path: Seq<P>,
    i: int,
)
    requires
        walked(listing, root, n).pending.len() == 0,
        descends(listing, root, path),
        0 <= i < path.len(),
    ensures
        has_read(listing, root, n, path[i]),
    decreases i,
{
    lemma_walk_progress(listing, root, n);
    if i > 0 {
        lemma_path_is_read(listing, root, n, path, i - 1);
        assert(dirs_in(listing(path[i - 1])).contains(path[i - 1 + 1]));
    }
}

/// Whether the entries of one directory all have their own path.
pub open spec fn own_paths<P>(items: Seq<DirItem<P>>) -> bool {
    forall|i: int, j: int|
        0 <= i < j < items.len() ==> (#[trigger] items[i]).path != (#[trigger] items[j]).path
}

/// Whether `path` is the path of one of the entries.
pub open spec fn lists<P>(items: Seq<DirItem<P>>, path: P) -> bool {
    exists|i: int| 0 <= i < items.len() && (#[trigger] items[i]).path == path
}

/// Whether the directories below `root` form a tree: entries of one directory
/// have different paths, no path is listed by two directories, and none of
/// them lists `root`.
pub open spec fn is_tree<P>(listing: spec_fn(P) -> Seq<DirItem<P>>, root: P) -> bool {
    &&& forall|d: P| #[trigger] below(listing, root, d) ==> own_paths(listing(d)) && !lists(
        listing(d),
        root,
    )
    &&& forall|d: P, e: P, path: P|
        below(listing, root, d) && below(listing, root, e) && #[trigger] lists(listing(d), path)
            && #[trigger] lists(listing(e), path) ==> d == e
}

/// Whether the tiles all have their own path.
pub open spec fn tiles_differ<P>(entries: Seq<CacheEntry<P>>) -> bool {
    forall|i: int, j: int|
        0 <= i < j < entries.len() ==> (#[trigger] entries[i]).path != (#[trigger] entries[j]).path
}

proof fn lemma_listed<P>(items: Seq<DirItem<P>>)
    ensures
        forall|d: P| #[trigger] dirs_in(items).contains(d) ==> lists(items, d),
        forall|k: int|
            0 <= k < tiles_in(items).len() ==> lists(items, (#[trigger] tiles_in(items)[k]).path),
        own_paths(items) ==> dirs_in(items).no_duplicates() && tiles_differ(tiles_in(items)),
    decreases items.len(),
{
    reveal(Seq::filter);
    if items.len() > 0 {
        let front = items.drop_last();
        let item = items.last();
        lemma_listed(front);
        assert forall|path: P| lists(front, path) implies #[trigger] lists(items, path) by {
            let i = choose|i: int| 0 <= i < front.len() && (#[trigger] front[i]).path == path;
            assert(items[i].path == path);
        }
        assert(items[items.len() - 1].path == item.path);
        assert(lists(items, item.path));
        let dirs = dirs_in(front);
        let tiles = tiles_in(front);
        if item.kind == Some(FileKind::Directory) {
            assert(dirs_in(items) =~= dirs.push(item.path));
        } else {
            assert(dirs_in(items) =~= dirs);
        }
        if is_tile(item) {
            assert(tiles_in(items) =~= tiles.push(tile_entry(item.path, item.metadata).unwrap()));
        } else {
            assert(tiles_in(items) =~= tiles);
        }
        assert forall|d: P| #[trigger] dirs_in(items).contains(d) implies lists(items, d) by {
            let k = choose|k: int| 0 <= k < dirs_in(items).len() && dirs_in(items)[k] == d;
            if k < dirs.len() {
                assert(dirs[k] == d);
                assert(dirs.contains(d));
            }
        }
        assert forall|k: int| 0 <= k < tiles_in(items).len() implies lists(
            items,
            (#[trigger] tiles_in(items)[k]).path,
        ) by {
            if k < tiles.len() {
                assert(tiles[k] == tiles_in(items)[k]);
            }
        }
        if own_paths(items) {
            assert forall|i: int, j: int| 0 <= i < j < front.len() implies (#[trigger] front[i]).path
                != (#[trigger] front[j]).path by {
                assert(items[i] == front[i] && items[j] == front[j]);
            }
            assert(!lists(front, item.path)) by {
                if lists(front, item.path) {
                    let i = choose|i: int|
                        0 <= i < front.len() && (#[trigger] front[i]).path == item.path;
                    assert(items[i].path != items[items.len() - 1].path);
                }
            }
            assert forall|i: int, j: int| 0 <= i < j < dirs_in(items).len() implies dirs_in(
                items,
            )[i] != dirs_in(items)[j] by {
                assert(dirs[i] == dirs_in(items)[i]);
                assert(dirs.contains(dirs[i]));
                if j < dirs.len() {
                    assert(dirs[j] == dirs_in(items)[j]);
                }
            }
            assert forall|i: int, j: int| 0 <= i < j < tiles_in(items).len() implies (
            #[trigger] tiles_in(items)[i]).path != (#[trigger] tiles_in(items)[j]).path by {
                assert(tiles[i] == tiles_in(items)[i]);
                assert(lists(front, tiles[i].path));
                if j < tiles.len() {
                    assert(tiles[j] == tiles_in(items)[j]);
                }
            }
        }
    }
}

/// Whether some directory that was read lists `path`.
spec fn seen<P>(listing: spec_fn(P) -> Seq<DirItem<P>>, root: P, n: nat, path: P) -> bool {
    exists|d: P| #[trigger] has_read(listing, root, n, d) && lists(listing(d), path)
}

proof fn lemma_read_is_below<P>(listing: spec_fn(P) -> Seq<DirItem<P>>, root: P, n: nat, d: P)
    requires
        has_read(listing, root, n, d),
    ensures
        below(listing, root, d),
{
    let k = choose|k: nat| k < n && #[trigger] read_at(listing, root, k) == Some(d);
    let walk = walked(listing, root, k);
    lemma_walk_is_confined(listing, root, k);
    assert(walk.pending[walk.pending.len() - 1] == d);
    assert(walk.pending.contains(d));
}

/// Over a tree, no directory is read twice or left to be read twice, and every
/// tile is listed once.
pub proof fn lemma_walk_lists_each_tile_once<P>(
    listing: spec_fn(P) -> Seq<DirItem<P>>,
    root: P,
    n: nat,
)
    requires
        is_tree(listing, root),
    ensures
        tiles_differ(walked(listing, root, n).entries),
        walked(listing, root, n).pending.no_duplicates(),
        forall|d: P|
            #[trigger] walked(listing, root, n).pending.contains(d) ==> !has_read(
                listing,
                root,
                n,
                d,
            ),
{
    lemma_walk_over_tree(listing, root, n);
}

/// What holds of a walk over a tree after `n` directories.
spec fn over_tree<P>(listing: spec_fn(P) -> Seq<DirItem<P>>, root: P, n: nat) -> bool {
    let walk = walked(listing, root, n);
    &&& tiles_differ(walk.entries)
    &&& walk.pending.no_duplicates()
    &&& forall|d: P|
        #[trigger] walk.pending.contains(d) ==> !has_read(listing, root, n, d) && (d == root
            || seen(listing, root, n, d))
    &&& forall|d: P|
        #[trigger] has_read(listing, root, n, d) ==> d == root || seen(listing, root, n, d)
    &&& forall|k: int|
        0 <= k < walk.entries.len() ==> seen(listing, root, n, (#[trigger] walk.entries[k]).path)
}

proof fn lemma_walk_over_tree<P>(listing: spec_fn(P) -> Seq<DirItem<P>>, root: P, n: nat)
    requires
        is_tree(listing, root),
    ensures
        over_tree(listing, root, n),
    decreases n,
{
    let walk = walked(listing, root, n);
    if n == 0 {
        assert(walk.pending =~= seq![root]);
        assert(forall|d: P| !has_read(listing, root, 0, d));
    } else {
        let m = (n - 1) as nat;
        let before = walked(listing, root, m);
        lemma_walk_over_tree(listing, root, m);
        if before.pending.len() > 0 {
            lemma_tree_step(listing, root, m);
        } else {
            assert(read_at(listing, root, m) is None);
            assert forall|d: P| #[trigger] has_read(listing, root, n, d) <==> has_read(
                listing,
                root,
                m,
                d,
            ) by {
                lemma_read_so_far(listing, root, m, d);
            }
            lemma_seen_grows(listing, root, m);
        }
    }
}

proof fn lemma_read_so_far<P>(listing: spec_fn(P) -> Seq<DirItem<P>>, root: P, m: nat, d: P)
    ensures
        has_read(listing, root, m + 1, d) <==> has_read(listing, root, m, d) || read_at(
            listing,
            root,
            m,
        ) == Some(d),
{
    if has_read(listing, root, m, d) {
        let k = choose|k: nat| k < m && #[trigger] read_at(listing, root, k) == Some(d);
        assert(k < m + 1 && read_at(listing, root, k) == Some(d));
    }
    if has_read(listing, root, m + 1, d) {
        let k = choose|k: nat| k < m + 1 && #[trigger] read_at(listing, root, k) == Some(d);
        if k < m {
            assert(has_read(listing, root, m, d));
        }
    }
}

proof fn lemma_seen_grows<P>(listing: spec_fn(P) -> Seq<DirItem<P>>, root: P, m: nat)
    ensures
        forall|path: P|
            seen(listing, root, m, path) ==> #[trigger] seen(listing, root, m + 1, path),
{
    assert forall|path: P| seen(listing, root, m, path) implies #[trigger] seen(
        listing,
        root,
        m + 1,
        path,
    ) by {
        let d = choose|d: P| #[trigger] has_read(listing, root, m, d) && lists(listing(d), path);
        lemma_read_so_far(listing, root, m, d);
    }
}

proof fn lemma_tree_step<P>(listing: spec_fn(P) -> Seq<DirItem<P>>, root: P, m: nat)
    requires
        is_tree(listing, root),
        over_tree(listing, root, m),
        walked(listing, root, m).pending.len() > 0,
    ensures
        over_tree(listing, root, m + 1),
{
    let before = walked(listing, root, m);
    let walk = walked(listing, root, m + 1);
    let dir = before.pending.last();
    let kept = before.pending.drop_last();
    let subs = dirs_in(listing(dir));
    let found = tiles_in(listing(dir));
    lemma_dir_step(listing, root, m);
    lemma_walk_is_confined(listing, root, m);
    lemma_seen_grows(listing, root, m);
    lemma_listed(listing(dir));
    assert(before.pending[before.pending.len() - 1] == dir);
    assert(before.pending.contains(dir));
    assert(below(listing, root, dir));
    assert(!has_read(listing, root, m, dir));
    assert(read_at(listing, root, m) == Some(dir));
    assert forall|d: P| #[trigger] has_read(listing, root, m + 1, d) <==> has_read(
        listing,
        root,
        m,
        d,
    ) || d == dir by {
        lemma_read_so_far(listing, root, m, d);
    }
    // Nothing that was listed before is listed by `dir` too.
    assert forall|path: P| #[trigger] lists(listing(dir), path) implies !seen(
        listing,
        root,
        m,
        path,
    ) && path != root by {
        if seen(listing, root, m, path) {
            let d = choose|d: P| #[trigger]
                has_read(listing, root, m, d) && lists(listing(d), path);
            lemma_read_is_below(listing, root, m, d);
            assert(d == dir);
        }
    }
    assert forall|path: P| #[trigger] lists(listing(dir), path) implies seen(
        listing,
        root,
        m + 1,
        path,
    ) by {
        assert(has_read(listing, root, m + 1, dir));
    }
    assert forall|i: int, j: int| 0 <= i < j < walk.pending.len() implies walk.pending[i]
        != walk.pending[j] by {
        if j < kept.len() {
            assert(before.pending[i] != before.pending[j]);
        } else {
            let sub = subs[j - kept.len()];
            assert(subs.contains(sub));
            if i < kept.len() {
                assert(before.pending.contains(before.pending[i]));
            } else {
                assert(subs[i - kept.len()] != sub);
            }
        }
    }
    assert forall|d: P| #[trigger] walk.pending.contains(d) implies !has_read(
        listing,
        root,
        m + 1,
        d,
    ) && (d == root || seen(listing, root, m + 1, d)) by {
        let k = choose|k: int| 0 <= k < walk.pending.len() && walk.pending[k] == d;
        if k < kept.len() {
            assert(before.pending[k] == d);
            assert(before.pending.contains(d));
            assert(before.pending[k] != before.pending[before.pending.len() - 1]);
        } else {
            assert(subs[k - kept.len()] == d);
            assert(subs.contains(d));
            assert(lists(listing(dir), d));
        }
    }
    assert forall|i: int, j: int| 0 <= i < j < walk.entries.len() implies (
    #[trigger] walk.entries[i]).path != (#[trigger] walk.entries[j]).path by {
        let count = before.entries.len();
        if j < count {
            assert(before.entries[i] == walk.entries[i] && before.entries[j] == walk.entries[j]);
        } else {
            assert(found[j - count] == walk.entries[j]);
            if i < count {
                assert(before.entries[i] == walk.entries[i]);
            } else {
                assert(found[i - count] == walk.entries[i]);
            }
        }
    }
    assert forall|k: int| 0 <= k < walk.entries.len() implies seen(
        listing,
        root,
        m + 1,
        (#[trigger] walk.entries[k]).path,
    ) by {
        let count = before.entries.len();
        if k < count {
            assert(before.entries[k] == walk.entries[k]);
        } else {
            assert(found[k - count] == walk.entries[k]);
        }
    }
}

/// What an entry of a directory brings: a regular `.png` file whose size and
/// time are known is found, with its own path, size and time; a real directory
/// is left for later; anything else changes nothing.
pub proof fn lemma_item<P>(walk: Walk<P>, item: DirItem<P>)
    ensures
        item.metadata matches Some(m) ==> m.modified matches Some(modified) ==> item.kind == Some(
            FileKind::File,
        ) && item.extension == Some("png"@) ==> after_item(walk, item) == (Walk {
            pending: walk.pending,
            entries: walk.entries.push(
                CacheEntry { path: item.path, size_bytes: m.size_bytes, modified },
            ),
        }),
        item.kind == Some(FileKind::Directory) ==> after_item(walk, item) == (Walk {
            pending: walk.pending.push(item.path),
            entries: walk.entries,
        }),
        item.kind != Some(FileKind::Directory) && (item.kind != Some(FileKind::File)
            || item.extension != Some("png"@) || item.metadata is None || (
        item.metadata->0).modified is None) ==> after_item(walk, item) == walk,
{
}

/// Every tile and every real directory of a listing is among those it brings.
pub proof fn lemma_nothing_is_overlooked<P>(items: Seq<DirItem<P>>, k: int)
    requires
        0 <= k < items.len(),
    ensures
        items[k].kind == Some(FileKind::Directory) ==> dirs_in(items).contains(items[k].path),
        items[k].metadata matches Some(m) ==> m.modified matches Some(modified)
            ==> items[k].kind == Some(FileKind::File) && items[k].extension == Some("png"@)
            ==> tiles_in(items).contains(
            CacheEntry { path: items[k].path, size_bytes: m.size_bytes, modified },
        ),
{
    let dir = |item: DirItem<P>| item.kind == Some(FileKind::Directory);
    let tile = |item: DirItem<P>| is_tile(item);
    if dir(items[k]) {
        items.lemma_filter_contains(dir, k);
        let some = items.filter(dir);
        let i = choose|i: int| 0 <= i < some.len() && some[i] == items[k];
        assert(dirs_in(items)[i] == items[k].path);
    }
    if tile(items[k]) {
        items.lemma_filter_contains(tile, k);
        let some = items.filter(tile);
        let i = choose|i: int| 0 <= i < some.len() && some[i] == items[k];
        assert(tiles_in(items)[i] == tile_entry(items[k].path, items[k].metadata).unwrap());
    }
}

} // verus!
