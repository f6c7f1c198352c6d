//! Facts about the rows that a tree shows.

use vstd::prelude::*;

use super::{entry_row, is_parent_row, parent_row, RowView, Tree};
use crate::listing::EntryView;
use crate::path::{below, lemma_below_trans, PathView};

verus! {

impl Tree {
    /// The tree holds all that `other` holds, and shows no less of it.
    pub open spec fn extends(self, other: Tree) -> bool {
        &&& self.root == other.root
        &&& other.expanded.subset_of(self.expanded)
        &&& forall|dir: PathView| #[trigger]
            other.children.contains_key(dir) ==> self.children.contains_key(dir)
                && self.children[dir] == other.children[dir]
    }

    /// The tree with `dir` collapsed and its listing forgotten.
    pub open spec fn without(self, dir: PathView) -> Tree {
        Tree { expanded: self.expanded.remove(dir), children: self.children.remove(dir), ..self }
    }

    /// Rows lie below the directory that they are shown for, and are no less
    /// deep than its entries.
    pub proof fn lemma_rows_below(self, dir: PathView, from: nat, depth: nat)
        requires
            self.valid(),
        ensures
            forall|i: int| #![trigger self.rows_below(dir, from, depth)[i]]
                0 <= i < self.rows_below(dir, from, depth).len() ==> {
                    &&& below(self.rows_below(dir, from, depth)[i].path, dir)
                    &&& self.rows_below(dir, from, depth)[i].depth >= depth
                },
        decreases self.longer(dir).len(), self.listing(dir).len() - from,
    {
        if from < self.listing(dir).len() {
            let entry = self.listing(dir)[from as int];
            let rows = self.rows_below(dir, from, depth);
            let rest = self.rows_below(dir, from + 1, depth);
            self.lemma_rows_below(dir, from + 1, depth);
            let contents = if self.opens(entry.path, entry.is_dir) {
                self.lemma_longer(dir, entry.path);
                self.lemma_rows_below(entry.path, 0, depth + 1);
                self.rows_below(entry.path, 0, depth + 1)
            } else {
                Seq::empty()
            };
            assert forall|i: int| 0 <= i < rows.len() implies {
                &&& below((#[trigger] rows[i]).path, dir)
                &&& rows[i].depth >= depth
            } by {
                if 0 < i <= contents.len() {
                    assert(rows[i] == contents[i - 1]);
                    lemma_below_trans(rows[i].path, entry.path, dir);
                } else if i > 0 {
                    assert(rows[i] == rest[i - 1 - contents.len()]);
                }
            }
        }
    }

    /// The unread directories that are shown are expanded.
    pub proof fn lemma_missing_below(self, dir: PathView, from: nat)
        requires
            self.valid(),
        ensures
            self.missing_below(dir, from) matches Some(missing) ==> self.expanded.contains(missing)
                && !self.children.contains_key(missing),
        decreases self.longer(dir).len(), self.listing(dir).len() - from,
    {
        if from < self.listing(dir).len() {
            let entry = self.listing(dir)[from as int];
            self.lemma_missing_below(dir, from + 1);
            if self.opens(entry.path, entry.is_dir) {
                self.lemma_longer(dir, entry.path);
                self.lemma_missing_below(entry.path, 0);
            }
        }
    }

    /// A tree that extends another shows no fewer rows.
    pub proof fn lemma_extends(self, other: Tree, dir: PathView, from: nat, depth: nat)
        requires
            self.valid(),
            other.valid(),
            self.extends(other),
        ensures
            other.rows_below(dir, from, depth).len() <= self.rows_below(dir, from, depth).len(),
        decreases other.longer(dir).len(), other.listing(dir).len() - from,
    {
        if from < other.listing(dir).len() {
            let entry = other.listing(dir)[from as int];
            self.lemma_extends(other, dir, from + 1, depth);
            if other.opens(entry.path, entry.is_dir) {
                other.lemma_longer(dir, entry.path);
                self.lemma_extends(other, entry.path, 0, depth + 1);
            }
        }
    }

    /// Where all that is shown of `dir` was read, it still is once another
    /// directory is collapsed.
    pub proof fn lemma_without(self, gone: PathView, dir: PathView, from: nat)
        requires
            self.valid(),
            self.missing_below(dir, from) is None,
            dir != gone,
        ensures
            self.without(gone).valid(),
            self.without(gone).missing_below(dir, from) is None,
        decreases self.longer(dir).len(), self.listing(dir).len() - from,
    {
        let rest = self.without(gone);
        if from < self.listing(dir).len() {
            let entry = self.listing(dir)[from as int];
            self.lemma_without(gone, dir, from + 1);
            if rest.opens(entry.path, entry.is_dir) {
                self.lemma_longer(dir, entry.path);
                self.lemma_without(gone, entry.path, 0);
            }
        }
    }

    /// Listings of directories that are not shown make no difference.
    pub proof fn lemma_same_rows(self, other: Tree, dir: PathView, from: nat, depth: nat)
        requires
            self.valid(),
            other.valid(),
            self.extends(other),
            self.expanded == other.expanded,
            other.children.contains_key(dir),
            other.missing_below(dir, from) is None,
        ensures
            self.missing_below(dir, from) is None,
            self.rows_below(dir, from, depth) == other.rows_below(dir, from, depth),
        decreases other.longer(dir).len(), other.listing(dir).len() - from,
    {
        if from < other.listing(dir).len() {
            let entry = other.listing(dir)[from as int];
            self.lemma_same_rows(other, dir, from + 1, depth);
            if other.opens(entry.path, entry.is_dir) {
                other.lemma_longer(dir, entry.path);
                self.lemma_same_rows(other, entry.path, 0, depth + 1);
            }
        }
    }

    /// The tree with `dir` expanded.
    pub open spec fn with(self, dir: PathView) -> Tree {
        Tree { expanded: self.expanded.insert(dir), ..self }
    }

    /// Expanding an unread directory in a tree that was read completely leaves
    /// that directory to be read, if it is shown, and no other.
    pub proof fn lemma_with(self, new: PathView, dir: PathView, from: nat, depth: nat)
        requires
            self.valid(),
            !self.children.contains_key(new),
            self.missing_below(dir, from) is None,
        ensures
            self.with(new).valid(),
            self.with(new).missing_below(dir, from) is Some ==> self.with(new).missing_below(
                dir,
                from,
            ) == Some(new),
            shows_dir(self.rows_below(dir, from, depth), new) ==> self.with(new).missing_below(
                dir,
                from,
            ) == Some(new),
        decreases self.longer(dir).len(), self.listing(dir).len() - from,
    {
        if from < self.listing(dir).len() {
            let entry = self.listing(dir)[from as int];
            self.lemma_with(new, dir, from + 1, depth);
            if self.opens(entry.path, entry.is_dir) {
                self.lemma_longer(dir, entry.path);
                self.lemma_with(new, entry.path, 0, depth + 1);
            }
        }
    }

    /// A directory is still shown once it is collapsed.
    pub proof fn lemma_without_shows(self, gone: PathView, dir: PathView, from: nat, depth: nat)
        requires
            self.valid(),
            self.without(gone).valid(),
            dir != gone,
            shows_dir(self.rows_below(dir, from, depth), gone),
        ensures
            shows_dir(self.without(gone).rows_below(dir, from, depth), gone),
        decreases self.longer(dir).len(), self.listing(dir).len() - from,
    {
        let rest = self.without(gone);
        if from < self.listing(dir).len() {
            let entry = self.listing(dir)[from as int];
            let row = entry_row(entry, depth);
            let later = self.rows_below(dir, from + 1, depth);
            let contents = if self.opens(entry.path, entry.is_dir) {
                self.rows_below(entry.path, 0, depth + 1)
            } else {
                Seq::empty()
            };
            if shows_dir(later, gone) {
                self.lemma_without_shows(gone, dir, from + 1, depth);
            } else if shows_dir(contents, gone) {
                self.lemma_rows_below(entry.path, 0, depth + 1);
                self.lemma_longer(dir, entry.path);
                self.lemma_without_shows(gone, entry.path, 0, depth + 1);
            }
            lemma_shows_dir(
                row,
                if rest.opens(entry.path, entry.is_dir) {
                    rest.rows_below(entry.path, 0, depth + 1)
                } else {
                    Seq::empty()
                },
                rest.rows_below(dir, from + 1, depth),
                gone,
            );
        }
    }
}

/// One of the rows shows `path` as a directory.
pub open spec fn shows_dir(rows: Seq<RowView>, path: PathView) -> bool {
    exists|i: int| 0 <= i < rows.len() && #[trigger] rows[i].path == path && rows[i].is_dir
}

proof fn lemma_shows_dir(row: RowView, contents: Seq<RowView>, rest: Seq<RowView>, path: PathView)
    ensures
        shows_dir(seq![row] + contents + rest, path) <==> {
            ||| row.path == path && row.is_dir
            ||| shows_dir(contents, path)
            ||| shows_dir(rest, path)
        },
{
    let all = seq![row] + contents + rest;
    if row.path == path && row.is_dir {
        assert(all[0] == row);
    }
    if shows_dir(contents, path) {
        let i = choose|i: int|
            0 <= i < contents.len() && #[trigger] contents[i].path == path && contents[i].is_dir;
        assert(all[i + 1] == contents[i]);
    }
    if shows_dir(rest, path) {
        let i = choose|i: int|
            0 <= i < rest.len() && #[trigger] rest[i].path == path && rest[i].is_dir;
        assert(all[i + 1 + contents.len()] == rest[i]);
    }
}

/// The rows at `depth`.
pub open spec fn level(rows: Seq<RowView>, depth: nat) -> Seq<RowView> {
    rows.filter(|row: RowView| row.depth == depth)
}

/// The rows that show the entries at `depth`.
pub open spec fn entry_rows(entries: Seq<EntryView>, depth: nat) -> Seq<RowView> {
    entries.map_values(
        |entry: EntryView| RowView { path: entry.path, is_dir: entry.is_dir, depth },
    )
}

/// The rows after row `i` that are deeper than it are the `n` next ones.
pub open spec fn has_below(rows: Seq<RowView>, i: int, n: int) -> bool {
    &&& 0 <= i < i + 1 + n <= rows.len()
    &&& forall|j: int| i < j <= i + n ==> (#[trigger] rows[j]).depth > rows[i].depth
    &&& i + 1 + n < rows.len() ==> rows[i + 1 + n].depth <= rows[i].depth
}

/// The rows below row `i`, one level deeper than it, show the entries in order.
pub open spec fn lists_below(rows: Seq<RowView>, i: int, entries: Seq<EntryView>) -> bool {
    exists|n: int|
        {
            &&& #[trigger] has_below(rows, i, n)
            &&& level(rows.subrange(i + 1, i + 1 + n), rows[i].depth + 1) == entry_rows(
                entries,
                rows[i].depth + 1,
            )
        }
}

/// One of the entries is what `row` shows.
pub open spec fn lists(entries: Seq<EntryView>, row: RowView) -> bool {
    exists|k: int|
        0 <= k < entries.len() && (#[trigger] entries[k]).path == row.path && entries[k].is_dir
            == row.is_dir
}

/// Row `i` is the row of the expanded directory that holds the entry at row
/// `at`.
pub open spec fn is_holder(tree: Tree, rows: Seq<RowView>, at: int, i: int) -> bool {
    &&& is_parent_row(rows, at, i)
    &&& tree.opens(rows[i].path, rows[i].is_dir)
    &&& lists(tree.listing(rows[i].path), rows[at])
}

/// A row has one parent row at most.
pub proof fn lemma_parent_row(rows: Seq<RowView>, at: int, i: int)
    requires
        is_parent_row(rows, at, i),
    ensures
        parent_row(rows, at) == Some(i),
{
}

/// Parent rows stay so where the rows are part of more rows.
proof fn lemma_holder_shift(
    tree: Tree,
    part: Seq<RowView>,
    all: Seq<RowView>,
    offset: int,
    at: int,
    i: int,
)
    requires
        is_holder(tree, part, at, i),
        0 <= offset,
        offset + part.len() <= all.len(),
        forall|j: int| 0 <= j < part.len() ==> #[trigger] part[j] == all[j + offset],
    ensures
        is_holder(tree, all, at + offset, i + offset),
{
    assert forall|j: int| i + offset < j < at + offset implies (#[trigger] all[j]).depth + 1
        != all[at + offset].depth by {
        assert(part[j - offset] == all[j]);
    }
}

impl Tree {
    /// Every row below the entries of `dir` has a parent row, which is the row
    /// of the directory that it is listed in; the other rows are entries of
    /// `dir`.
    pub proof fn lemma_holders(self, dir: PathView, from: nat, depth: nat)
        requires
            self.valid(),
        ensures
            forall|i: int| #![trigger self.rows_below(dir, from, depth)[i]]
                0 <= i < self.rows_below(dir, from, depth).len() ==> {
                    let rows = self.rows_below(dir, from, depth);
                    &&& rows[i].depth == depth ==> lists(self.listing(dir), rows[i])
                    &&& rows[i].depth > depth ==> exists|j: int| is_holder(self, rows, i, j)
                },
        decreases self.longer(dir).len(), self.listing(dir).len() - from,
    {
        let rows = self.rows_below(dir, from, depth);
        if from < self.listing(dir).len() {
            let entry = self.listing(dir)[from as int];
            let rest = self.rows_below(dir, from + 1, depth);
            self.lemma_holders(dir, from + 1, depth);
            let contents = if self.opens(entry.path, entry.is_dir) {
                self.rows_below(entry.path, 0, depth + 1)
            } else {
                Seq::empty()
            };
            if self.opens(entry.path, entry.is_dir) {
                self.lemma_longer(dir, entry.path);
                self.lemma_holders(entry.path, 0, depth + 1);
                self.lemma_rows_below(entry.path, 0, depth + 1);
            }
            let offset = 1 + contents.len() as int;
            assert forall|i: int| 0 <= i < rows.len() implies {
                &&& (#[trigger] rows[i]).depth == depth ==> lists(self.listing(dir), rows[i])
                &&& rows[i].depth > depth ==> exists|j: int| is_holder(self, rows, i, j)
            } by {
                if 0 < i < offset {
                    let at = i - 1;
                    if contents[at].depth == depth + 1 {
                        assert(is_holder(self, rows, i, 0));
                    } else {
                        let j = choose|j: int| is_holder(self, contents, at, j);
                        lemma_holder_shift(self, contents, rows, 1, at, j);
                    }
                } else if i >= offset {
                    let at = i - offset;
                    if rest[at].depth > depth {
                        let j = choose|j: int| is_holder(self, rest, at, j);
                        lemma_holder_shift(self, rest, rows, offset, at, j);
                    }
                }
            }
        }
    }

    /// The rows for a listing hold each entry's row and, where the entry is an
    /// expanded directory, the rows of its contents.
    pub proof fn lemma_entry_shown(self, dir: PathView, from: nat, depth: nat, k: nat)
        requires
            self.valid(),
            from <= k < self.listing(dir).len(),
        ensures
            self.rows_below(dir, from, depth).contains(
                entry_row(self.listing(dir)[k as int], depth),
            ),
            self.opens(
                self.listing(dir)[k as int].path,
                self.listing(dir)[k as int].is_dir,
            ) ==> forall|row: RowView| #[trigger]
                self.rows_below(self.listing(dir)[k as int].path, 0, depth + 1).contains(row)
                    ==> self.rows_below(dir, from, depth).contains(row),
        decreases k - from,
    {
        let rows = self.rows_below(dir, from, depth);
        let entry = self.listing(dir)[from as int];
        let rest = self.rows_below(dir, from + 1, depth);
        let contents = if self.opens(entry.path, entry.is_dir) {
            self.rows_below(entry.path, 0, depth + 1)
        } else {
            Seq::empty()
        };
        assert forall|row: RowView| rest.contains(row) implies rows.contains(row) by {
            let i = choose|i: int| 0 <= i < rest.len() && rest[i] == row;
            assert(rows[i + 1 + contents.len()] == row);
        }
        if k > from {
            self.lemma_entry_shown(dir, from + 1, depth, k);
        } else {
            assert(rows[0] == entry_row(entry, depth));
            assert forall|row: RowView| contents.contains(row) implies rows.contains(row) by {
                let i = choose|i: int| 0 <= i < contents.len() && contents[i] == row;
                assert(rows[i + 1] == row);
            }
        }
    }

    /// Where all that is shown was read, a directory whose contents are shown
    /// was read.
    pub proof fn lemma_opened_is_read(self, dir: PathView, from: nat, depth: nat, i: int)
        requires
            self.valid(),
            self.missing_below(dir, from) is None,
            0 <= i < self.rows_below(dir, from, depth).len(),
            self.opens(
                self.rows_below(dir, from, depth)[i].path,
                self.rows_below(dir, from, depth)[i].is_dir,
            ),
        ensures
            self.children.contains_key(self.rows_below(dir, from, depth)[i].path),
        decreases self.longer(dir).len(), self.listing(dir).len() - from,
    {
        let entry = self.listing(dir)[from as int];
        let inner = if self.opens(entry.path, entry.is_dir) {
            self.rows_below(entry.path, 0, depth + 1)
        } else {
            Seq::empty()
        };
        let offset = 1 + inner.len() as int;
        if 0 < i < offset {
            self.lemma_longer(dir, entry.path);
            self.lemma_opened_is_read(entry.path, 0, depth + 1, i - 1);
        } else if i >= offset {
            self.lemma_opened_is_read(dir, from + 1, depth, i - offset);
        }
    }

    /// The rows for a listing start at its depth, go deeper by one level at a
    /// time, and do so only after a directory whose contents are shown.
    pub proof fn lemma_shape(self, dir: PathView, from: nat, depth: nat)
        requires
            self.valid(),
        ensures
            self.rows_below(dir, from, depth).len() > 0 ==> self.rows_below(dir, from, depth)[0].depth
                == depth,
            forall|i: int| #![trigger self.rows_below(dir, from, depth)[i]]
                0 <= i < self.rows_below(dir, from, depth).len() - 1 ==> {
                    let rows = self.rows_below(dir, from, depth);
                    rows[i + 1].depth <= rows[i].depth + if self.opens(rows[i].path, rows[i].is_dir) {
                        1int
                    } else {
                        0int
                    }
                },
        decreases self.longer(dir).len(), self.listing(dir).len() - from,
    {
        let rows = self.rows_below(dir, from, depth);
        if from < self.listing(dir).len() {
            let entry = self.listing(dir)[from as int];
            let rest = self.rows_below(dir, from + 1, depth);
            self.lemma_shape(dir, from + 1, depth);
            let inner = if self.opens(entry.path, entry.is_dir) {
                self.lemma_longer(dir, entry.path);
                self.lemma_shape(entry.path, 0, depth + 1);
                self.lemma_rows_below(entry.path, 0, depth + 1);
                self.rows_below(entry.path, 0, depth + 1)
            } else {
                Seq::empty()
            };
            let offset = 1 + inner.len() as int;
            assert forall|i: int| 0 <= i < rows.len() - 1 implies (#[trigger] rows[i]).depth
                + if self.opens(rows[i].path, rows[i].is_dir) {
                1int
            } else {
                0int
            } >= rows[i + 1].depth by {
                if i + 1 < offset {
                    assert(rows[i + 1] == inner[i]);
                    if i > 0 {
                        assert(rows[i] == inner[i - 1]);
                    }
                } else {
                    assert(rows[i + 1] == rest[i + 1 - offset]);
                    if i >= offset {
                        assert(rows[i] == rest[i - offset]);
                    } else if i > 0 {
                        assert(rows[i] == inner[i - 1]);
                    }
                }
            }
        }
    }

    /// The unread directory that is found first is the first one shown.
    pub proof fn lemma_missing_is_shown(self, dir: PathView, from: nat, depth: nat) -> (i: int)
        requires
            self.valid(),
            self.missing_below(dir, from) is Some,
        ensures
            0 <= i < self.rows_below(dir, from, depth).len(),
            self.rows_below(dir, from, depth)[i].path == self.missing_below(dir, from)->0,
            self.opens(
                self.rows_below(dir, from, depth)[i].path,
                self.rows_below(dir, from, depth)[i].is_dir,
            ),
            forall|j: int| #![trigger self.rows_below(dir, from, depth)[j]]
                0 <= j < i && self.opens(
                    self.rows_below(dir, from, depth)[j].path,
                    self.rows_below(dir, from, depth)[j].is_dir,
                ) ==> self.children.contains_key(self.rows_below(dir, from, depth)[j].path),
        decreases self.longer(dir).len(), self.listing(dir).len() - from,
    {
        let rows = self.rows_below(dir, from, depth);
        let entry = self.listing(dir)[from as int];
        let rest = self.rows_below(dir, from + 1, depth);
        let opened = self.opens(entry.path, entry.is_dir);
        let inner = if opened {
            self.rows_below(entry.path, 0, depth + 1)
        } else {
            Seq::empty()
        };
        let offset = 1 + inner.len() as int;
        assert(rows[0] == entry_row(entry, depth));
        if opened && !self.children.contains_key(entry.path) {
            0
        } else if opened && self.missing_below(entry.path, 0) is Some {
            self.lemma_longer(dir, entry.path);
            let k = self.lemma_missing_is_shown(entry.path, 0, depth + 1);
            assert forall|j: int| 0 <= j < k + 1 && self.opens(
                (#[trigger] rows[j]).path,
                rows[j].is_dir,
            ) implies self.children.contains_key(rows[j].path) by {
                if j > 0 {
                    assert(rows[j] == inner[j - 1]);
                }
            }
            assert(rows[k + 1] == inner[k]);
            k + 1
        } else {
            let k = self.lemma_missing_is_shown(dir, from + 1, depth);
            assert forall|j: int| 0 <= j < k + offset && self.opens(
                (#[trigger] rows[j]).path,
                rows[j].is_dir,
            ) implies self.children.contains_key(rows[j].path) by {
                if 0 < j < offset {
                    assert(rows[j] == inner[j - 1]);
                    self.lemma_opened_is_read(entry.path, 0, depth + 1, j - 1);
                } else if j >= offset {
                    assert(rows[j] == rest[j - offset]);
                }
            }
            assert(rows[k + offset] == rest[k]);
            k + offset
        }
    }

    /// The least deep of the rows for a listing are its entries, in order.
    pub proof fn lemma_level(self, dir: PathView, from: nat, depth: nat)
        requires
            self.valid(),
            from <= self.listing(dir).len(),
        ensures
            level(self.rows_below(dir, from, depth), depth) == entry_rows(
                self.listing(dir).skip(from as int),
                depth,
            ),
        decreases self.listing(dir).len() - from,
    {
        let on_level = |row: RowView| row.depth == depth;
        if from < self.listing(dir).len() {
            let entry = self.listing(dir)[from as int];
            let first = seq![entry_row(entry, depth)];
            let rest = self.rows_below(dir, from + 1, depth);
            let contents = if self.opens(entry.path, entry.is_dir) {
                self.lemma_rows_below(entry.path, 0, depth + 1);
                self.rows_below(entry.path, 0, depth + 1)
            } else {
                Seq::empty()
            };
            self.lemma_level(dir, from + 1, depth);
            contents.lemma_all_neg_filter_empty(on_level);
            Seq::filter_distributes_over_add(first + contents, rest, on_level);
            Seq::filter_distributes_over_add(first, contents, on_level);
            assert(first.filter(on_level) =~= first) by {
                reveal(Seq::filter);
                assert(first.drop_last() =~= Seq::<RowView>::empty());
            }
            assert(entry_rows(self.listing(dir).skip(from as int), depth) =~= first + entry_rows(
                self.listing(dir).skip(from as int + 1),
                depth,
            ));
        } else {
            reveal(Seq::filter);
        }
    }

    /// The rows of an expanded directory's contents follow its row, and no
    /// other row does before one that is no deeper than it.
    pub proof fn lemma_contents_follow(self, dir: PathView, from: nat, depth: nat, i: int)
        requires
            self.valid(),
            0 <= i < self.rows_below(dir, from, depth).len(),
            self.opens(
                self.rows_below(dir, from, depth)[i].path,
                self.rows_below(dir, from, depth)[i].is_dir,
            ),
        ensures
            ({
                let rows = self.rows_below(dir, from, depth);
                let contents = self.rows_below(rows[i].path, 0, rows[i].depth + 1);
                &&& i + 1 + contents.len() <= rows.len()
                &&& rows.subrange(i + 1, i + 1 + contents.len()) == contents
                &&& i + 1 + contents.len() < rows.len() ==> rows[i + 1 + contents.len()].depth
                    <= rows[i].depth
            }),
        decreases self.longer(dir).len(), self.listing(dir).len() - from,
    {
        let rows = self.rows_below(dir, from, depth);
        let entry = self.listing(dir)[from as int];
        let rest = self.rows_below(dir, from + 1, depth);
        let inner = if self.opens(entry.path, entry.is_dir) {
            self.rows_below(entry.path, 0, depth + 1)
        } else {
            Seq::empty()
        };
        let offset = 1 + inner.len() as int;
        assert(rest.len() > 0 ==> rest[0].depth == depth);
        assert(offset < rows.len() ==> rows[offset] == rest[0]);
        if 0 < i < offset {
            self.lemma_longer(dir, entry.path);
            self.lemma_rows_below(entry.path, 0, depth + 1);
            self.lemma_contents_follow(entry.path, 0, depth + 1, i - 1);
        } else if i >= offset {
            self.lemma_contents_follow(dir, from + 1, depth, i - offset);
        }
    }
}

/// Row `i` is the first one that shows `path` as a directory.
pub open spec fn is_first_dir_row(rows: Seq<RowView>, path: PathView, i: int) -> bool {
    &&& 0 <= i < rows.len()
    &&& rows[i].path == path
    &&& rows[i].is_dir
    &&& forall|j: int| 0 <= j < i ==> !((#[trigger] rows[j]).path == path && rows[j].is_dir)
}

/// Both sequences have the same rows up to and with the first one that shows
/// `path` as a directory.
pub open spec fn same_up_to(left: Seq<RowView>, right: Seq<RowView>, path: PathView) -> bool {
    exists|i: int|
        {
            &&& #[trigger] is_first_dir_row(left, path, i)
            &&& i < right.len()
            &&& left.take(i + 1) == right.take(i + 1)
        }
}

impl Tree {
    /// The tree differs from `other` in what is known of `dir` alone, and in
    /// listings that `other` has no need of.
    pub open spec fn agrees_off(self, other: Tree, dir: PathView) -> bool {
        &&& self.root == other.root
        &&& forall|p: PathView|
            p != dir ==> (#[trigger] self.expanded.contains(p) == other.expanded.contains(p))
        &&& forall|p: PathView|
            p != dir && #[trigger] other.children.contains_key(p) ==> self.children.contains_key(p)
                && self.children[p] == other.children[p]
    }

    /// Toggling a directory that holds nothing leaves all rows where they are.
    pub proof fn lemma_agrees_off_empty(
        self,
        other: Tree,
        toggled: PathView,
        dir: PathView,
        from: nat,
        depth: nat,
    )
        requires
            self.valid(),
            other.valid(),
            self.agrees_off(other, toggled),
            self.listing(toggled).len() == 0,
            other.listing(toggled).len() == 0,
            dir != toggled,
            other.children.contains_key(dir),
            other.missing_below(dir, from) is None,
        ensures
            self.rows_below(dir, from, depth) == other.rows_below(dir, from, depth),
        decreases other.longer(dir).len(), other.listing(dir).len() - from,
    {
        if from < other.listing(dir).len() {
            let entry = other.listing(dir)[from as int];
            self.lemma_agrees_off_empty(other, toggled, dir, from + 1, depth);
            if entry.path == toggled {
                assert(self.rows_below(toggled, 0, depth + 1) == Seq::<RowView>::empty());
                assert(other.rows_below(toggled, 0, depth + 1) == Seq::<RowView>::empty());
            } else if other.opens(entry.path, entry.is_dir) {
                other.lemma_longer(dir, entry.path);
                self.lemma_agrees_off_empty(other, toggled, entry.path, 0, depth + 1);
            }
        }
    }

    /// Toggling a directory leaves the rows before it where they are.
    pub proof fn lemma_agrees_off(
        self,
        other: Tree,
        toggled: PathView,
        dir: PathView,
        from: nat,
        depth: nat,
    )
        requires
            self.valid(),
            other.valid(),
            self.agrees_off(other, toggled),
            dir != toggled,
            other.children.contains_key(dir),
            other.missing_below(dir, from) is None,
        ensures
            ({
                let rows = other.rows_below(dir, from, depth);
                let now = self.rows_below(dir, from, depth);
                if shows_dir(rows, toggled) {
                    same_up_to(rows, now, toggled)
                } else {
                    now == rows
                }
            }),
        decreases other.longer(dir).len(), other.listing(dir).len() - from,
    {
        let rows = other.rows_below(dir, from, depth);
        let now = self.rows_below(dir, from, depth);
        if from < other.listing(dir).len() {
            let entry = other.listing(dir)[from as int];
            let row = entry_row(entry, depth);
            let rest = other.rows_below(dir, from + 1, depth);
            let now_rest = self.rows_below(dir, from + 1, depth);
            self.lemma_agrees_off(other, toggled, dir, from + 1, depth);
            if entry.path == toggled && entry.is_dir {
                assert(is_first_dir_row(rows, toggled, 0));
                assert(rows.take(1) =~= now.take(1));
            } else if other.opens(entry.path, entry.is_dir) {
                other.lemma_longer(dir, entry.path);
                self.lemma_agrees_off(other, toggled, entry.path, 0, depth + 1);
                lemma_same_up_to(
                    row,
                    other.rows_below(entry.path, 0, depth + 1),
                    self.rows_below(entry.path, 0, depth + 1),
                    rest,
                    now_rest,
                    toggled,
                );
            } else {
                lemma_same_up_to(row, Seq::empty(), Seq::empty(), rest, now_rest, toggled);
            }
        }
    }
}

proof fn lemma_same_up_to(
    row: RowView,
    contents: Seq<RowView>,
    now_contents: Seq<RowView>,
    rest: Seq<RowView>,
    now_rest: Seq<RowView>,
    path: PathView,
)
    requires
        !(row.path == path && row.is_dir),
        if shows_dir(contents, path) {
            same_up_to(contents, now_contents, path)
        } else {
            now_contents == contents
        },
        if shows_dir(rest, path) {
            same_up_to(rest, now_rest, path)
        } else {
            now_rest == rest
        },
    ensures
        ({
            let rows = seq![row] + contents + rest;
            let now = seq![row] + now_contents + now_rest;
            if shows_dir(rows, path) {
                same_up_to(rows, now, path)
            } else {
                now == rows
            }
        }),
{
    let rows = seq![row] + contents + rest;
    let now = seq![row] + now_contents + now_rest;
    let offset = 1 + contents.len() as int;
    lemma_shows_dir(row, contents, rest, path);
    if shows_dir(contents, path) {
        let i = choose|i: int|
            {
                &&& #[trigger] is_first_dir_row(contents, path, i)
                &&& i < now_contents.len()
                &&& contents.take(i + 1) == now_contents.take(i + 1)
            };
        assert(is_first_dir_row(rows, path, i + 1));
        assert(rows.take(i + 2) =~= now.take(i + 2)) by {
            assert forall|j: int| 0 <= j < i + 2 implies rows[j] == now[j] by {
                if j > 0 {
                    assert(contents.take(i + 1)[j - 1] == now_contents.take(i + 1)[j - 1]);
                }
            }
        }
    } else if shows_dir(rest, path) {
        let i = choose|i: int|
            {
                &&& #[trigger] is_first_dir_row(rest, path, i)
                &&& i < now_rest.len()
                &&& rest.take(i + 1) == now_rest.take(i + 1)
            };
        assert(is_first_dir_row(rows, path, i + offset));
        assert(rows.take(i + offset + 1) =~= now.take(i + offset + 1)) by {
            assert forall|j: int| 0 <= j < i + offset + 1 implies rows[j] == now[j] by {
                if j >= offset {
                    assert(rest.take(i + 1)[j - offset] == now_rest.take(i + 1)[j - offset]);
                }
            }
        }
    }
}

} // verus!
