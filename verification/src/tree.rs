//! The rows that a tree of directories shows.

use vstd::prelude::*;

use crate::listing::{entry_views, is_listing_of, DirEntry, EntryView, Listings};
use crate::path::{below, PathSet, PathView, TreePath};

pub mod facts;

verus! {

/// One visible row of the tree.
#[derive(Debug, PartialEq, Eq)]
pub struct TreeRow {
    pub path: TreePath,
    pub is_dir: bool,
    /// How many of the directories above the row have rows of their own.
    pub depth: usize,
}

/// What a [`TreeRow`] stands for.
pub struct RowView {
    pub path: PathView,
    pub is_dir: bool,
    pub depth: nat,
}

impl View for TreeRow {
    type V = RowView;

    open spec fn view(&self) -> RowView {
        RowView { path: self.path@, is_dir: self.is_dir, depth: self.depth as nat }
    }
}

/// What the rows stand for, one by one.
pub open spec fn row_views(rows: Seq<TreeRow>) -> Seq<RowView> {
    rows.map_values(|r: TreeRow| r@)
}

/// The row that shows `entry` at `depth`.
pub open spec fn entry_row(entry: EntryView, depth: nat) -> RowView {
    RowView { path: entry.path, is_dir: entry.is_dir, depth }
}

/// A tree of directories: its root, the listings read so far, and the
/// directories that are expanded.
#[verifier::ext_equal]
pub struct Tree {
    pub root: PathView,
    pub children: Map<PathView, Seq<EntryView>>,
    pub expanded: Set<PathView>,
}

impl Tree {
    pub open spec fn valid(self) -> bool {
        &&& self.expanded.finite()
        &&& forall|dir: PathView| #[trigger]
            self.children.contains_key(dir) ==> is_listing_of(self.children[dir], dir)
    }

    /// The listing of `dir`, empty where none was read.
    pub open spec fn listing(self, dir: PathView) -> Seq<EntryView> {
        if self.children.contains_key(dir) {
            self.children[dir]
        } else {
            Seq::empty()
        }
    }

    /// The contents of `path` are shown below its row.
    pub open spec fn opens(self, path: PathView, is_dir: bool) -> bool {
        is_dir && self.expanded.contains(path)
    }

    /// The expanded directories with longer paths than `dir`.
    pub open spec fn longer(self, dir: PathView) -> Set<PathView> {
        self.expanded.filter(|p: PathView| p.len() > dir.len())
    }

    /// An expanded directory has fewer directories with longer paths than a
    /// directory that it lies below.
    pub proof fn lemma_longer(self, dir: PathView, path: PathView)
        requires
            self.expanded.finite(),
            self.expanded.contains(path),
            path.len() > dir.len(),
        ensures
            self.longer(path).len() < self.longer(dir).len(),
    {
        self.expanded.lemma_len_filter(|p: PathView| p.len() > dir.len());
        self.longer(path).lemma_subset_not_in_lt(self.longer(dir), path);
    }

    /// The rows that show the listing of `dir`, from its entry `from` on, with
    /// its entries at `depth`: each entry's row, then, where the entry is an
    /// expanded directory, the rows of its own listing one level deeper.
    pub open spec fn rows_below(self, dir: PathView, from: nat, depth: nat) -> Seq<RowView>
        decreases self.longer(dir).len(), self.listing(dir).len() - from,
        when self.valid()
    {
        if from >= self.listing(dir).len() {
            Seq::empty()
        } else {
            let entry = self.listing(dir)[from as int];
            let contents = if self.opens(entry.path, entry.is_dir) {
                proof {
                    self.lemma_longer(dir, entry.path);
                }
                self.rows_below(entry.path, 0, depth + 1)
            } else {
                Seq::empty()
            };
            seq![entry_row(entry, depth)] + contents + self.rows_below(dir, from + 1, depth)
        }
    }

    /// All rows of the tree, in display order.
    pub open spec fn all_rows(self) -> Seq<RowView> {
        self.rows_below(self.root, 0, 0)
    }

    /// The first expanded directory, in display order, that is shown in the
    /// listing of `dir`, from its entry `from` on, and was not read yet.
    pub open spec fn missing_below(self, dir: PathView, from: nat) -> Option<PathView>
        decreases self.longer(dir).len(), self.listing(dir).len() - from,
        when self.valid()
    {
        if from >= self.listing(dir).len() {
            None
        } else {
            let entry = self.listing(dir)[from as int];
            let found = if !self.opens(entry.path, entry.is_dir) {
                None
            } else if !self.children.contains_key(entry.path) {
                Some(entry.path)
            } else {
                proof {
                    self.lemma_longer(dir, entry.path);
                }
                self.missing_below(entry.path, 0)
            };
            if found is Some {
                found
            } else {
                self.missing_below(dir, from + 1)
            }
        }
    }

    /// The directory to read next: the root, if it was not read, else the first
    /// expanded directory in display order that was not.
    pub open spec fn first_missing(self) -> Option<PathView> {
        if !self.children.contains_key(self.root) {
            Some(self.root)
        } else {
            self.missing_below(self.root, 0)
        }
    }

    /// A row and the rows of its contents.
    spec fn rows_at(self, row: RowView) -> Seq<RowView> {
        seq![row] + if self.opens(row.path, row.is_dir) {
            self.rows_below(row.path, 0, row.depth + 1)
        } else {
            Seq::empty()
        }
    }

    /// The first unread directory at a row or in its contents.
    spec fn missing_at(self, row: RowView) -> Option<PathView> {
        if !self.opens(row.path, row.is_dir) {
            None
        } else if !self.children.contains_key(row.path) {
            Some(row.path)
        } else {
            self.missing_below(row.path, 0)
        }
    }

    /// The rows that remain to be shown while `stack` holds what was found and
    /// not shown, the next row last.
    spec fn rows_of_stack(self, stack: Seq<RowView>) -> Seq<RowView>
        decreases stack.len(),
    {
        if stack.len() == 0 {
            Seq::empty()
        } else {
            self.rows_at(stack.last()) + self.rows_of_stack(stack.drop_last())
        }
    }

    /// The first unread directory in what `stack` holds, the next row last.
    spec fn missing_of_stack(self, stack: Seq<RowView>) -> Option<PathView>
        decreases stack.len(),
    {
        if stack.len() == 0 {
            None
        } else if self.missing_at(stack.last()) is Some {
            self.missing_at(stack.last())
        } else {
            self.missing_of_stack(stack.drop_last())
        }
    }
}

/// Row `i` is the first one that shows `path`.
pub open spec fn is_first_row_of(rows: Seq<RowView>, path: PathView, i: int) -> bool {
    &&& 0 <= i < rows.len()
    &&& rows[i].path == path
    &&& forall|j: int| 0 <= j < i ==> (#[trigger] rows[j]).path != path
}

/// The first row that shows `path`.
pub open spec fn first_row_of(rows: Seq<RowView>, path: PathView) -> Option<int> {
    if exists|i: int| is_first_row_of(rows, path, i) {
        Some(choose|i: int| is_first_row_of(rows, path, i))
    } else {
        None
    }
}

/// Row `i` is the nearest one above row `at` that is one level less deep.
pub open spec fn is_parent_row(rows: Seq<RowView>, at: int, i: int) -> bool {
    &&& 0 <= i < at < rows.len()
    &&& rows[i].depth + 1 == rows[at].depth
    &&& forall|j: int| i < j < at ==> (#[trigger] rows[j]).depth + 1 != rows[at].depth
}

/// The row of the directory that holds the entry at row `at`.
pub open spec fn parent_row(rows: Seq<RowView>, at: int) -> Option<int> {
    if exists|i: int| is_parent_row(rows, at, i) {
        Some(choose|i: int| is_parent_row(rows, at, i))
    } else {
        None
    }
}

/// The tree that the parts of a panel describe.
pub open spec fn tree_of(root: PathView, children: Listings, expanded: PathSet) -> Tree {
    Tree { root, children: children@, expanded: expanded@ }
}

spec fn or_else(first: Option<PathView>, second: Option<PathView>) -> Option<PathView> {
    if first is Some {
        first
    } else {
        second
    }
}

/// Puts the entries of the listing of `dir` on the stack, the first entry last.
fn push_entries(
    stack: &mut Vec<TreeRow>,
    entries: &Vec<DirEntry>,
    depth: usize,
    Ghost(tree): Ghost<Tree>,
    Ghost(dir): Ghost<PathView>,
)
    requires
        tree.valid(),
        tree.children.contains_key(dir),
        entry_views(entries@) == tree.children[dir],
        dir.len() >= depth,
        forall|i: int| 0 <= i < old(stack)@.len() ==> (#[trigger] old(stack)@[i]).path@.len()
            > old(stack)@[i].depth,
    ensures
        tree.rows_of_stack(row_views(final(stack)@)) == tree.rows_below(dir, 0, depth as nat)
            + tree.rows_of_stack(row_views(old(stack)@)),
        tree.missing_of_stack(row_views(final(stack)@)) == or_else(
            tree.missing_below(dir, 0),
            tree.missing_of_stack(row_views(old(stack)@)),
        ),
        forall|i: int| 0 <= i < final(stack)@.len() ==> (#[trigger] final(stack)@[i]).path@.len()
            > final(stack)@[i].depth,
{
    let ghost below_rows = tree.rows_of_stack(row_views(stack@));
    let ghost below_missing = tree.missing_of_stack(row_views(stack@));
    let mut i: usize = entries.len();
    while i > 0
        invariant
            tree.valid(),
            tree.children.contains_key(dir),
            entry_views(entries@) == tree.children[dir],
            dir.len() >= depth,
            i <= entries.len(),
            tree.rows_of_stack(row_views(stack@)) == tree.rows_below(dir, i as nat, depth as nat)
                + below_rows,
            tree.missing_of_stack(row_views(stack@)) == or_else(
                tree.missing_below(dir, i as nat),
                below_missing,
            ),
            forall|j: int| 0 <= j < stack@.len() ==> (#[trigger] stack@[j]).path@.len()
                > stack@[j].depth,
        decreases i,
    {
        i -= 1;
        let ghost before = row_views(stack@);
        let entry = &entries[i];
        let row = TreeRow { path: entry.path.clone(), is_dir: entry.is_dir, depth };
        let ghost shown = row@;
        stack.push(row);
        proof {
            assert(row_views(stack@) =~= before.push(shown));
            assert(before.push(shown).drop_last() =~= before);
        }
    }
}

/// The rows of the tree in display order, or, where an expanded directory that
/// is shown was not read yet, the first such directory.
pub(crate) fn visible_rows(root: &TreePath, children: &Listings, expanded: &PathSet) -> (res: Result<
    Vec<TreeRow>,
    TreePath,
>)
    requires
        children.wf(),
        tree_of(root@, *children, *expanded).valid(),
    ensures
        res matches Ok(rows) ==> {
            &&& tree_of(root@, *children, *expanded).first_missing() is None
            &&& row_views(rows@) == tree_of(root@, *children, *expanded).all_rows()
        },
        res matches Err(dir) ==> tree_of(root@, *children, *expanded).first_missing() == Some(dir@),
{
    let ghost tree = tree_of(root@, *children, *expanded);
    let mut rows: Vec<TreeRow> = Vec::new();
    let mut stack: Vec<TreeRow> = Vec::new();
    match children.get(root) {
        Some(entries) => push_entries(&mut stack, entries, 0, Ghost(tree), Ghost(root@)),
        None => {
            return Err(root.clone());
        },
    }
    while stack.len() > 0
        invariant
            children.wf(),
            tree == tree_of(root@, *children, *expanded),
            tree.valid(),
            tree.children.contains_key(tree.root),
            row_views(rows@) + tree.rows_of_stack(row_views(stack@)) == tree.all_rows(),
            tree.missing_of_stack(row_views(stack@)) == tree.first_missing(),
            forall|j: int| 0 <= j < stack@.len() ==> (#[trigger] stack@[j]).path@.len()
                > stack@[j].depth,
        decreases tree.rows_of_stack(row_views(stack@)).len(),
    {
        let ghost before = row_views(stack@);
        let row = match stack.pop() {
            Some(row) => row,
            None => {
                return Ok(rows);
            },
        };
        proof {
            assert(row_views(stack@) =~= before.drop_last());
            row.path.lemma_len();
        }
        if row.is_dir && expanded.contains(&row.path) {
            match children.get(&row.path) {
                Some(entries) => {
                    push_entries(&mut stack, entries, row.depth + 1, Ghost(tree), Ghost(row.path@));
                },
                None => {
                    return Err(row.path);
                },
            }
        }
        rows.push(row);
    }
    Ok(rows)
}

} // verus!
