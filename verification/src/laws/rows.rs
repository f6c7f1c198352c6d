//! What the rows show, and when a directory is read.

use vstd::prelude::*;

use crate::listing::{is_listing_of, EntryView};
use crate::model::{answered, PanelView, PendingView, Request, RequestView};
use crate::path::{below, starts_with, PathView};
use crate::tree::facts::{entry_rows, has_below, level, lists_below};
use crate::tree::{entry_row, is_first_row_of, RowView, Tree};

verus! {

/// What is known of the contents of `dir`: nothing, where it was not read.
pub open spec fn known(children: Map<PathView, Seq<EntryView>>, dir: PathView) -> Seq<EntryView> {
    if children.contains_key(dir) {
        children[dir]
    } else {
        Seq::empty()
    }
}

/// The rows show the tree as it is: the rows of the top level are the root's
/// entries in order, the rows one level below an expanded directory are its
/// entries in order, and no other row has rows below it.
pub open spec fn show_tree(
    root: PathView,
    children: Map<PathView, Seq<EntryView>>,
    expanded: Set<PathView>,
    rows: Seq<RowView>,
) -> bool {
    &&& level(rows, 0) == entry_rows(known(children, root), 0)
    &&& rows.len() > 0 ==> rows[0].depth == 0
    &&& forall|i: int, j: int|
        0 <= i < j < rows.len() && j == i + 1 ==> (#[trigger] rows[j]).depth <= (
        #[trigger] rows[i]).depth + 1
    &&& forall|i: int|
        0 <= i < rows.len() ==> if (#[trigger] rows[i]).is_dir && expanded.contains(rows[i].path) {
            lists_below(rows, i, known(children, rows[i].path))
        } else {
            has_below(rows, i, 0)
        }
}

/// Row `i` is the first one whose directory is expanded and was not read.
pub open spec fn is_first_unread(
    children: Map<PathView, Seq<EntryView>>,
    expanded: Set<PathView>,
    rows: Seq<RowView>,
    i: int,
) -> bool {
    &&& 0 <= i < rows.len()
    &&& rows[i].is_dir
    &&& expanded.contains(rows[i].path)
    &&& !children.contains_key(rows[i].path)
    &&& forall|j: int|
        0 <= j < i && (#[trigger] rows[j]).is_dir && expanded.contains(rows[j].path)
            ==> children.contains_key(rows[j].path)
}

/// The rows of a tree show it as it is.
proof fn lemma_show_tree(tree: Tree)
    requires
        tree.valid(),
    ensures
        show_tree(tree.root, tree.children, tree.expanded, tree.all_rows()),
{
    let rows = tree.all_rows();
    tree.lemma_shape(tree.root, 0, 0);
    tree.lemma_level(tree.root, 0, 0);
    assert(tree.listing(tree.root).skip(0) =~= known(tree.children, tree.root));
    assert forall|i: int| 0 <= i < rows.len() implies if (#[trigger] rows[i]).is_dir
        && tree.expanded.contains(rows[i].path) {
        lists_below(rows, i, known(tree.children, rows[i].path))
    } else {
        has_below(rows, i, 0)
    } by {
        let row = rows[i];
        if tree.opens(row.path, row.is_dir) {
            let contents = tree.rows_below(row.path, 0, row.depth + 1);
            tree.lemma_contents_follow(tree.root, 0, 0, i);
            tree.lemma_rows_below(row.path, 0, row.depth + 1);
            tree.lemma_level(row.path, 0, row.depth + 1);
            assert forall|j: int| i < j <= i + contents.len() implies (#[trigger] rows[j]).depth
                > row.depth by {
                assert(rows[j] == contents[j - i - 1]);
            }
            assert(has_below(rows, i, contents.len() as int));
            assert(tree.listing(row.path).skip(0) =~= known(tree.children, row.path));
        }
    }
}

/// The rows of a level, where deeper rows follow the first one.
proof fn lemma_level_split(row: RowView, contents: Seq<RowView>, rest: Seq<RowView>, depth: nat)
    requires
        row.depth == depth,
        forall|j: int| 0 <= j < contents.len() ==> (#[trigger] contents[j]).depth > depth,
    ensures
        level(seq![row] + contents + rest, depth) == seq![row] + level(rest, depth),
{
    let on_level = |row: RowView| row.depth == depth;
    let first = seq![row];
    contents.lemma_all_neg_filter_empty(on_level);
    Seq::filter_distributes_over_add(first + contents, rest, on_level);
    Seq::filter_distributes_over_add(first, contents, on_level);
    assert(first.filter(on_level) =~= first) by {
        reveal(Seq::filter);
        assert(first.drop_last() =~= Seq::<RowView>::empty());
    }
}

/// The rows show the tree as it is.
#[verifier::opaque]
spec fn shows(tree: Tree, rows: Seq<RowView>) -> bool {
    show_tree(tree.root, tree.children, tree.expanded, rows)
}

/// The number of rows below row `i`, and what they are.
proof fn lemma_below_row(tree: Tree, rows: Seq<RowView>, i: int) -> (n: int)
    requires
        shows(tree, rows),
        0 <= i < rows.len(),
    ensures
        has_below(rows, i, n),
        n > 0 ==> rows[i + 1].depth == rows[i].depth + 1,
        if tree.opens(rows[i].path, rows[i].is_dir) {
            level(rows.subrange(i + 1, i + 1 + n), rows[i].depth + 1) == entry_rows(
                tree.listing(rows[i].path).skip(0),
                rows[i].depth + 1,
            )
        } else {
            n == 0
        },
{
    reveal(shows);
    let row = rows[i];
    if tree.opens(row.path, row.is_dir) {
        assert(tree.listing(row.path).skip(0) =~= known(tree.children, row.path));
        choose|n: int|
            {
                &&& #[trigger] has_below(rows, i, n)
                &&& level(rows.subrange(i + 1, i + 1 + n), row.depth + 1) == entry_rows(
                    known(tree.children, row.path),
                    row.depth + 1,
                )
            }
    } else {
        0
    }
}

/// The rows from `start` to `end` are all that is at least `depth` deep, and those
/// that are just so deep show the entries.
spec fn is_block(
    rows: Seq<RowView>,
    start: int,
    end: int,
    depth: nat,
    entries: Seq<EntryView>,
) -> bool {
    &&& 0 <= start <= end <= rows.len()
    &&& forall|j: int| start <= j < end ==> (#[trigger] rows[j]).depth >= depth
    &&& end < rows.len() ==> rows[end].depth < depth
    &&& start < end ==> rows[start].depth == depth
    &&& level(rows.subrange(start, end), depth) == entry_rows(entries, depth)
}

/// A block is the row of its first entry, the block below that row, and the block
/// of the other entries.
proof fn lemma_block_splits(
    tree: Tree,
    rows: Seq<RowView>,
    start: int,
    end: int,
    depth: nat,
    entries: Seq<EntryView>,
) -> (next: int)
    requires
        shows(tree, rows),
        is_block(rows, start, end, depth, entries),
        start < end,
    ensures
        start < next <= end,
        entries.len() > 0,
        rows[start] == entry_row(entries[0], depth),
        is_block(rows, next, end, depth, entries.skip(1)),
        if tree.opens(entries[0].path, entries[0].is_dir) {
            is_block(rows, start + 1, next, depth + 1, tree.listing(entries[0].path).skip(0))
        } else {
            next == start + 1
        },
        rows.subrange(start, end) == seq![rows[start]] + rows.subrange(start + 1, next)
            + rows.subrange(next, end),
{
    let row = rows[start];
    let n = lemma_below_row(tree, rows, start);
    let next = start + 1 + n;
    assert(next <= end);
    let contents = rows.subrange(start + 1, next);
    let rest = rows.subrange(next, end);
    let listed = entry_rows(entries, depth);
    assert(rows.subrange(start, end) =~= seq![row] + contents + rest);
    assert forall|j: int| 0 <= j < contents.len() implies (#[trigger] contents[j]).depth > depth by {
        assert(contents[j] == rows[start + 1 + j]);
    }
    lemma_level_split(row, contents, rest, depth);
    assert(listed[0] == row);
    assert(level(rest, depth) =~= listed.skip(1));
    assert(listed.skip(1) =~= entry_rows(entries.skip(1), depth));
    next
}

/// A block of rows that show a tree as it is are the rows of the tree.
proof fn lemma_block(
    tree: Tree,
    rows: Seq<RowView>,
    start: int,
    end: int,
    dir: PathView,
    from: nat,
    depth: nat,
)
    requires
        tree.valid(),
        shows(tree, rows),
        from <= tree.listing(dir).len(),
        is_block(rows, start, end, depth, tree.listing(dir).skip(from as int)),
    ensures
        rows.subrange(start, end) == tree.rows_below(dir, from, depth),
    decreases tree.longer(dir).len(), tree.listing(dir).len() - from,
{
    let entries = tree.listing(dir).skip(from as int);
    if start == end {
        assert(level(rows.subrange(start, end), depth).len() == 0) by {
            reveal(Seq::filter);
        }
        assert(entry_rows(entries, depth).len() == entries.len());
    } else {
        let next = lemma_block_splits(tree, rows, start, end, depth, entries);
        let entry = tree.listing(dir)[from as int];
        assert(entries[0] == entry);
        assert(entries.skip(1) =~= tree.listing(dir).skip(from as int + 1));
        lemma_block(tree, rows, next, end, dir, from + 1, depth);
        if tree.opens(entry.path, entry.is_dir) {
            tree.lemma_longer(dir, entry.path);
            lemma_block(tree, rows, start + 1, next, entry.path, 0, depth + 1);
        } else {
            assert(rows.subrange(start + 1, next) =~= Seq::<RowView>::empty());
        }
    }
}

/// There is one way to show a tree as it is.
pub proof fn law_tree_is_shown_one_way(tree: Tree, rows: Seq<RowView>, other: Seq<RowView>)
    requires
        tree.valid(),
        show_tree(tree.root, tree.children, tree.expanded, rows),
        show_tree(tree.root, tree.children, tree.expanded, other),
    ensures
        rows == other,
{
    reveal(shows);
    assert(tree.listing(tree.root).skip(0) =~= known(tree.children, tree.root));
    assert(rows.subrange(0, rows.len() as int) =~= rows);
    assert(other.subrange(0, other.len() as int) =~= other);
    lemma_block(tree, rows, 0, rows.len() as int, tree.root, 0, 0);
    lemma_block(tree, other, 0, other.len() as int, tree.root, 0, 0);
}

/// Rebuilding shows the tree as it is, once the root and every expanded
/// directory that is shown were read. The selection stays on its row number, or
/// on the last row where there is no such row. Until then nothing changes, and
/// the root or the first shown directory that is expanded and was not read is
/// asked for.
pub proof fn law_rebuilt_rows_show_tree(panel: PanelView)
    requires
        panel.tree().valid(),
    ensures
        ({
            let after = panel.rebuilt().panel;
            match panel.rebuilt().request {
                None => {
                    &&& show_tree(panel.root, panel.children, panel.expanded, after.rows)
                    &&& panel.children.contains_key(panel.root)
                    &&& forall|i: int|
                        0 <= i < after.rows.len() && (#[trigger] after.rows[i]).is_dir
                            && panel.expanded.contains(after.rows[i].path)
                            ==> panel.children.contains_key(after.rows[i].path)
                    &&& after == (PanelView {
                        rows: after.rows,
                        selection: after.selection,
                        ..panel
                    })
                    &&& panel.selection < after.rows.len() ==> after.selection == panel.selection
                    &&& panel.selection >= after.rows.len() > 0 ==> after.selection + 1
                        == after.rows.len()
                    &&& after.rows.len() == 0 ==> after.selection == 0
                },
                Some(RequestView::ReadDirectory(dir)) => {
                    &&& after == panel
                    &&& if panel.children.contains_key(panel.root) {
                        exists|rows: Seq<RowView>, i: int|
                            {
                                &&& show_tree(panel.root, panel.children, panel.expanded, rows)
                                &&& #[trigger] is_first_unread(
                                    panel.children,
                                    panel.expanded,
                                    rows,
                                    i,
                                )
                                &&& rows[i].path == dir
                            }
                    } else {
                        dir == panel.root
                    }
                },
                Some(RequestView::OpenFile(_)) => false,
            }
        }),
{
    let tree = panel.tree();
    let rows = tree.all_rows();
    lemma_show_tree(tree);
    if panel.children.contains_key(panel.root) {
        if panel.rebuilt().request is None {
            assert forall|i: int|
                0 <= i < rows.len() && (#[trigger] rows[i]).is_dir && panel.expanded.contains(
                    rows[i].path,
                ) implies panel.children.contains_key(rows[i].path) by {
                tree.lemma_opened_is_read(panel.root, 0, 0, i);
            }
        } else {
            let i = tree.lemma_missing_is_shown(panel.root, 0, 0);
            tree.lemma_missing_below(panel.root, 0);
            assert(is_first_unread(panel.children, panel.expanded, rows, i));
        }
    }
}

/// The rows of a panel between events show its tree as it is, and all that they
/// show was read.
pub proof fn law_settled_rows_show_tree(panel: PanelView)
    requires
        panel.valid(),
        panel.settled(),
    ensures
        show_tree(panel.root, panel.children, panel.expanded, panel.rows),
        panel.children.contains_key(panel.root),
        forall|i: int|
            0 <= i < panel.rows.len() && (#[trigger] panel.rows[i]).is_dir
                && panel.expanded.contains(panel.rows[i].path) ==> panel.children.contains_key(
                panel.rows[i].path,
            ),
{
    law_rebuilt_rows_show_tree(panel);
}

/// What always holds of a panel: its selection is a row, or the first where there
/// is none; what is awaited selects a row; a width that was set is at least ten;
/// the root is expanded; and what was read is what lies below a directory that is
/// expanded.
pub proof fn law_panel_stays_in_order(panel: PanelView)
    requires
        panel.valid(),
    ensures
        panel.rows.len() > 0 ==> panel.selection < panel.rows.len(),
        panel.rows.len() == 0 ==> panel.selection == 0,
        panel.pending matches Some(PendingView::Jump { labels, first }) ==> forall|i: int|
            0 <= i < labels.len() ==> (#[trigger] labels[i]).row < panel.rows.len(),
        panel.width_override matches Some(width) ==> width >= 10,
        panel.expanded.contains(panel.root),
        forall|dir: PathView| #[trigger]
            panel.children.contains_key(dir) ==> panel.expanded.contains(dir) && is_listing_of(
                panel.children[dir],
                dir,
            ),
        forall|i: int|
            0 <= i < panel.rows.len() ==> below((#[trigger] panel.rows[i]).path, panel.root),
{
    assert forall|dir: PathView| #[trigger] panel.children.contains_key(
        dir,
    ) implies panel.expanded.contains(dir) && is_listing_of(panel.children[dir], dir) by {
        assert(panel.children.dom().contains(dir));
        assert(panel.tree().children.contains_key(dir));
    }
}

/// Where an event asks for no directory, the rows show the tree.
pub proof fn law_answered_is_settled(panel: PanelView, request: Option<Request>)
    requires
        panel.valid(),
        answered(panel, request),
    ensures
        match request {
            Some(Request::ReadDirectory(dir)) => panel.expanded.contains(dir@),
            _ => show_tree(panel.root, panel.children, panel.expanded, panel.rows),
        },
{
    if !(request matches Some(Request::ReadDirectory(_))) {
        law_settled_rows_show_tree(panel);
    }
}

/// A new panel shows the entries of its root in order, with the first one
/// selected, nothing else expanded, no focus, and no width of its own.
pub proof fn law_new_panel(root: PathView, root_display: Seq<char>, listing: Seq<EntryView>)
    ensures
        ({
            let panel = PanelView::opened(root, root_display, listing);
            &&& panel.root == root
            &&& panel.root_display == root_display
            &&& !panel.focused
            &&& forall|dir: PathView| panel.expanded.contains(dir) <==> dir == root
            &&& forall|dir: PathView| panel.children.contains_key(dir) <==> dir == root
            &&& panel.children[root] == listing
            &&& panel.rows == entry_rows(listing, 0)
            &&& panel.selection == 0
            &&& panel.scroll == 0
            &&& panel.area.width == 0 && panel.area.height == 0
            &&& panel.area.x == 0 && panel.area.y == 0
            &&& panel.last_revealed is None
            &&& panel.ensure_visible
            &&& panel.width_override is None
            &&& !panel.resizing
            &&& panel.pending is None
        }),
{
    assert(PanelView::opened(root, root_display, listing).rows =~= entry_rows(listing, 0));
}

/// A listing is kept as it was handed over, unless the directory was read
/// already; a directory that cannot be read holds nothing. No other listing, and
/// nothing else, changes.
pub proof fn law_listing_is_kept(
    panel: PanelView,
    dir: PathView,
    listing: Option<Seq<EntryView>>,
    other: PathView,
)
    ensures
        ({
            let after = panel.with_listing(dir, listing);
            &&& after == (PanelView { children: after.children, ..panel })
            &&& panel.children.contains_key(dir) ==> after == panel
            &&& !panel.children.contains_key(dir) ==> after.children.contains_key(dir)
                && match listing {
                Some(entries) => after.children[dir] == entries,
                None => after.children[dir].len() == 0,
            }
            &&& other != dir ==> {
                &&& after.children.contains_key(other) == panel.children.contains_key(other)
                &&& panel.children.contains_key(other) ==> after.children[other]
                    == panel.children[other]
            }
        }),
{
}

/// The directory is the path cut short, but not to less than the root, at a place
/// after which there is no root and no prefix.
pub open spec fn leads_to(dir: PathView, path: PathView, root: PathView) -> bool {
    &&& root.len() <= dir.len()
    &&& dir.len() < path.len()
    &&& dir == path.take(dir.len() as int)
    &&& forall|j: int|
        dir.len() <= j < path.len() ==> !((#[trigger] path[j]) is RootDir) && !(path[j] is Prefix)
}

/// Revealing a path under the root expands the directories that lead to it and no
/// other, rebuilds the rows, and selects the first row that shows the path, which
/// is to be scrolled into view. A path that no row shows leaves the selection.
pub proof fn law_reveal(panel: PanelView, path: PathView, i: int)
    requires
        starts_with(path, panel.root),
    ensures
        ({
            let step = panel.revealed(path);
            let started = PanelView {
                last_revealed: Some(path),
                expanded: step.panel.expanded,
                ..panel
            };
            let rebuilt = started.rebuilt();
            let rows = rebuilt.panel.rows;
            &&& forall|dir: PathView| #[trigger]
                step.panel.expanded.contains(dir) <==> panel.expanded.contains(dir) || leads_to(
                    dir,
                    path,
                    panel.root,
                )
            &&& step.request == rebuilt.request
            &&& rebuilt.request is Some ==> step.panel == rebuilt.panel
            &&& rebuilt.request is None && (forall|j: int|
                0 <= j < rows.len() ==> (#[trigger] rows[j]).path != path) ==> step.panel
                == rebuilt.panel
            &&& rebuilt.request is None && 0 <= i < rows.len() && rows[i].path == path && (forall|
                j: int,
            |
                0 <= j < i ==> (#[trigger] rows[j]).path != path) ==> step.panel == (PanelView {
                selection: i as nat,
                ensure_visible: true,
                ..rebuilt.panel
            })
        }),
{
    let step = panel.revealed(path);
    let started = panel.revealing(path);
    assert(step.panel.expanded == started.expanded);
    assert forall|dir: PathView| #[trigger]
        step.panel.expanded.contains(dir) <==> panel.expanded.contains(dir) || leads_to(
            dir,
            path,
            panel.root,
        ) by {
        if leads_to(dir, path, panel.root) {
            assert(dir.take(panel.root.len() as int) =~= path.take(panel.root.len() as int));
        }
    }
    assert(started == PanelView {
        last_revealed: Some(path),
        expanded: step.panel.expanded,
        ..panel
    });
    let rows = started.rebuilt().panel.rows;
    if 0 <= i < rows.len() && rows[i].path == path && (forall|j: int|
        0 <= j < i ==> (#[trigger] rows[j]).path != path) {
        assert(is_first_row_of(rows, path, i));
    }
}

} // verus!
