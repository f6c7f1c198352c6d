//! Directory listings, as they were read, by directory.

use vstd::prelude::*;

use crate::path::{below, PathView, TreePath};

verus! {

/// One entry of a directory listing.
#[derive(Debug, PartialEq, Eq)]
pub struct DirEntry {
    pub path: TreePath,
    pub is_dir: bool,
}

/// What a [`DirEntry`] stands for.
pub struct EntryView {
    pub path: PathView,
    pub is_dir: bool,
}

impl View for DirEntry {
    type V = EntryView;

    open spec fn view(&self) -> EntryView {
        EntryView { path: self.path@, is_dir: self.is_dir }
    }
}

/// What the entries stand for, one by one.
pub open spec fn entry_views(entries: Seq<DirEntry>) -> Seq<EntryView> {
    entries.map_values(|e: DirEntry| e@)
}

/// Every entry of a listing of `dir` lies below `dir`.
pub open spec fn is_listing_of(entries: Seq<EntryView>, dir: PathView) -> bool {
    forall|i: int| 0 <= i < entries.len() ==> below((#[trigger] entries[i]).path, dir)
}

/// Whether every entry lies below `dir`, as those of a listing of it do.
pub fn is_listing(entries: &Vec<DirEntry>, dir: &TreePath) -> (res: bool)
    ensures
        res == is_listing_of(entry_views(entries@), dir@),
{
    let ghost views = entry_views(entries@);
    let mut i: usize = 0;
    while i < entries.len()
        invariant
            i <= entries.len(),
            views == entry_views(entries@),
            forall|j: int| 0 <= j < i ==> below((#[trigger] views[j]).path, dir@),
        decreases entries.len() - i,
    {
        assert(views[i as int] == entries@[i as int]@);
        if !entries[i].path.is_below(dir) {
            return false;
        }
        i += 1;
    }
    true
}

#[derive(Debug)]
struct Listing {
    dir: TreePath,
    entries: Vec<DirEntry>,
}

/// The directories of the listings, one by one.
spec fn dir_views(listings: Seq<Listing>) -> Seq<PathView> {
    listings.map_values(|l: Listing| l.dir@)
}

/// Listings by directory, each with its entries in display order.
#[derive(Debug)]
pub struct Listings {
    listings: Vec<Listing>,
}

impl View for Listings {
    type V = Map<PathView, Seq<EntryView>>;

    closed spec fn view(&self) -> Map<PathView, Seq<EntryView>> {
        let dirs = dir_views(self.listings@);
        Map::new(
            |dir: PathView| dirs.contains(dir),
            |dir: PathView| entry_views(self.listings@[dirs.index_of(dir)].entries@),
        )
    }
}

impl Listings {
    /// No directory is listed twice.
    pub closed spec fn wf(&self) -> bool {
        dir_views(self.listings@).no_duplicates()
    }

    /// The listing held at `i` is the one of its directory.
    proof fn lemma_at(&self, i: int)
        requires
            self.wf(),
            0 <= i < self.listings@.len(),
        ensures
            self@.contains_key(self.listings@[i].dir@),
            self@[self.listings@[i].dir@] == entry_views(self.listings@[i].entries@),
    {
        let dirs = dir_views(self.listings@);
        assert(dirs[i] == self.listings@[i].dir@);
    }

    /// Where a directory's listing is held.
    proof fn lemma_key(&self, dir: PathView) -> (i: int)
        requires
            self@.contains_key(dir),
        ensures
            0 <= i < self.listings@.len(),
            self.listings@[i].dir@ == dir,
    {
        let dirs = dir_views(self.listings@);
        choose|i: int| 0 <= i < dirs.len() && dirs[i] == dir
    }

    pub fn new() -> (res: Listings)
        ensures
            res.wf(),
            res@ == Map::<PathView, Seq<EntryView>>::empty(),
    {
        Listings { listings: Vec::new() }
    }

    /// Where the listing of `dir` is held, or the number of listings if there
    /// is none.
    fn position(&self, dir: &TreePath) -> (res: usize)
        requires
            self.wf(),
        ensures
            res <= self.listings.len(),
            res < self.listings.len() <==> self@.contains_key(dir@),
            res < self.listings.len() ==> self.listings@[res as int].dir@ == dir@,
    {
        let mut i: usize = 0;
        while i < self.listings.len()
            invariant
                self.wf(),
                i <= self.listings.len(),
                forall|j: int| 0 <= j < i ==> (#[trigger] self.listings@[j]).dir@ != dir@,
            decreases self.listings.len() - i,
        {
            if self.listings[i].dir.same(dir) {
                proof {
                    self.lemma_at(i as int);
                }
                return i;
            }
            i += 1;
        }
        proof {
            if self@.contains_key(dir@) {
                self.lemma_key(dir@);
            }
        }
        i
    }

    /// The listing of `dir`, if it was read.
    pub fn get(&self, dir: &TreePath) -> (res: Option<&Vec<DirEntry>>)
        requires
            self.wf(),
        ensures
            res is Some <==> self@.contains_key(dir@),
            res matches Some(entries) ==> entry_views(entries@) == self@[dir@],
    {
        let i: usize = self.position(dir);
        if i == self.listings.len() {
            return None;
        }
        proof {
            self.lemma_at(i as int);
        }
        Some(&self.listings[i].entries)
    }

    pub fn contains_key(&self, dir: &TreePath) -> (res: bool)
        requires
            self.wf(),
        ensures
            res == self@.contains_key(dir@),
    {
        self.position(dir) < self.listings.len()
    }

    /// Adds the listing of a directory that has none.
    pub fn insert(&mut self, dir: TreePath, entries: Vec<DirEntry>)
        requires
            old(self).wf(),
            !old(self)@.contains_key(dir@),
        ensures
            final(self).wf(),
            final(self)@ == old(self)@.insert(dir@, entry_views(entries@)),
    {
        let ghost before = dir_views(self.listings@);
        let ghost added = dir@;
        let ghost listed = entry_views(entries@);
        self.listings.push(Listing { dir, entries });
        proof {
            let last = before.len() as int;
            let after = dir_views(self.listings@);
            assert(after =~= before.push(added));
            assert(self@ =~= old(self)@.insert(added, listed)) by {
                assert forall|d: PathView| self@.contains_key(d) <==> old(self)@.contains_key(d) || d
                    == added by {
                    if self@.contains_key(d) {
                        self.lemma_key(d);
                    }
                    if old(self)@.contains_key(d) {
                        let i = old(self).lemma_key(d);
                        self.lemma_at(i);
                    }
                    self.lemma_at(last);
                }
            }
        }
    }

    /// Takes the listing of `dir` out, if it is there.
    pub fn remove(&mut self, dir: &TreePath)
        requires
            old(self).wf(),
        ensures
            final(self).wf(),
            final(self)@ == old(self)@.remove(dir@),
    {
        let i: usize = self.position(dir);
        if i == self.listings.len() {
            return;
        }
        let ghost before = dir_views(self.listings@);
        self.listings.remove(i);
        proof {
            let at = i as int;
            let after = dir_views(self.listings@);
            assert(after =~= before.remove(at));
            assert(before[at] == dir@);
            assert forall|d: PathView| self@.contains_key(d) <==> old(self)@.contains_key(d) && d
                != dir@ by {
                if self@.contains_key(d) {
                    self.lemma_key(d);
                }
                if old(self)@.contains_key(d) && d != dir@ {
                    let j = old(self).lemma_key(d);
                    if j < at {
                        self.lemma_at(j);
                    } else {
                        self.lemma_at(j - 1);
                    }
                }
            }
        }
    }
}

} // verus!
