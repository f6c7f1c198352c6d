//! What holds of the panel as a whole.

use vstd::math::min;
use vstd::prelude::*;

use crate::draw::{DrawView, Style};
use crate::input::{
    EventResult, KeyCode, KeyEvent, MouseButton, MouseEvent, MouseEventKind, Rect,
};
use crate::listing::{is_listing_of, EntryView};
use crate::model::{is_first_label, jump_labels, JumpLabel, PanelView, PendingView, RequestView};
use crate::path::{below, is_ancestor, lemma_below_trans, starts_with, PathView};
use crate::tree::facts::{
    has_below, is_first_dir_row, is_holder, lemma_parent_row, lists, lists_below, shows_dir,
};
use crate::tree::{entry_row, first_row_of, is_first_row_of, parent_row, RowView, Tree};

pub mod drawing;
pub mod keys;
pub mod mouse;
pub mod paths;
pub mod rows;
pub mod terms;

use keys::has_meaning;
use terms::{covers, flip, in_view, plain, room};

verus! {

// ---- the tree ----

/// The contents of an expanded directory are shown right below its row, one
/// level deeper.
pub proof fn law_contents_follow_directory(panel: PanelView, i: int)
    requires
        panel.valid(),
        panel.settled(),
        0 <= i < panel.rows.len(),
        panel.tree().opens(panel.rows[i].path, panel.rows[i].is_dir),
    ensures
        ({
            let row = panel.rows[i];
            let contents = panel.tree().rows_below(row.path, 0, row.depth + 1);
            &&& i + 1 + contents.len() <= panel.rows.len()
            &&& panel.rows.subrange(i + 1, i + 1 + contents.len()) == contents
        }),
{
    panel.tree().lemma_contents_follow(panel.root, 0, 0, i);
}

/// The contents of an expanded directory are shown in the order in which they
/// were read: the rows one level below its row are the entries of its listing.
pub proof fn law_entries_are_in_order(panel: PanelView, i: int)
    requires
        panel.valid(),
        panel.settled(),
        0 <= i < panel.rows.len(),
        panel.tree().opens(panel.rows[i].path, panel.rows[i].is_dir),
    ensures
        panel.children.contains_key(panel.rows[i].path),
        lists_below(panel.rows, i, panel.children[panel.rows[i].path]),
{
    let tree = panel.tree();
    let row = panel.rows[i];
    let contents = tree.rows_below(row.path, 0, row.depth + 1);
    tree.lemma_opened_is_read(panel.root, 0, 0, i);
    tree.lemma_contents_follow(panel.root, 0, 0, i);
    tree.lemma_rows_below(row.path, 0, row.depth + 1);
    tree.lemma_level(row.path, 0, row.depth + 1);
    assert forall|j: int| i < j <= i + contents.len() implies (#[trigger] panel.rows[j]).depth
        > row.depth by {
        assert(panel.rows[j] == contents[j - i - 1]);
    }
    assert(has_below(panel.rows, i, contents.len() as int));
    assert(tree.listing(row.path).skip(0) =~= tree.listing(row.path));
}

/// A row that is not at the top level has a parent row, which shows the
/// expanded directory that the row is an entry of.
pub proof fn law_parent_row_is_directory(panel: PanelView, at: int)
    requires
        panel.valid(),
        panel.settled(),
        0 <= at < panel.rows.len(),
        panel.rows[at].depth > 0,
    ensures
        parent_row(panel.rows, at) is Some,
        ({
            let parent = panel.rows[parent_row(panel.rows, at)->0];
            &&& panel.tree().opens(parent.path, parent.is_dir)
            &&& lists(panel.tree().listing(parent.path), panel.rows[at])
            &&& below(panel.rows[at].path, parent.path)
        }),
{
    let tree = panel.tree();
    tree.lemma_holders(panel.root, 0, 0);
    let i = choose|i: int| is_holder(tree, panel.rows, at, i);
    lemma_parent_row(panel.rows, at, i);
}

/// Collapsing a directory undoes expanding it, whatever was read meanwhile: the
/// same directories are expanded, and the same rows are shown.
pub proof fn law_collapse_undoes_expand(before: PanelView, expanded: PanelView, dir: PathView)
    requires
        before.valid(),
        before.settled(),
        below(dir, before.root),
        !before.expanded.contains(dir),
        expanded.valid(),
        expanded.settled(),
        expanded.pending is None,
        expanded.root == before.root,
        expanded.expanded == before.expanded.insert(dir),
        forall|d: PathView| #[trigger]
            before.children.contains_key(d) ==> expanded.children.contains_key(d)
                && expanded.children[d] == before.children[d],
    ensures
        expanded.toggled(dir).request is None,
        expanded.toggled(dir).panel.expanded == before.expanded,
        expanded.toggled(dir).panel.rows == before.rows,
{
    let after = expanded.flipped(dir);
    assert(after.expanded =~= before.expanded);
    after.tree().lemma_same_rows(before.tree(), before.root, 0, 0);
}

/// Expanding a directory undoes collapsing it, if what it holds is still the
/// same: once that is read, nothing else must be read, the same directories are
/// expanded, and the same rows are shown.
pub proof fn law_expand_undoes_collapse(panel: PanelView, i: int)
    requires
        panel.valid(),
        panel.settled(),
        panel.pending is None,
        0 <= i < panel.rows.len(),
        panel.tree().opens(panel.rows[i].path, panel.rows[i].is_dir),
    ensures
        ({
            let dir = panel.rows[i].path;
            let collapsed = panel.toggled(dir);
            let again = collapsed.panel.toggled(dir);
            let read = again.panel.with_listing(dir, Some(panel.children[dir])).rebuilt();
            &&& collapsed.request is None
            &&& again.request == Some(RequestView::ReadDirectory(dir))
            &&& read.request is None
            &&& read.panel.expanded == panel.expanded
            &&& read.panel.children == panel.children
            &&& read.panel.rows == panel.rows
        }),
{
    let dir = panel.rows[i].path;
    law_collapsed_is_read_again(panel, i);
    law_entries_are_in_order(panel, i);
    let again = panel.toggled(dir).panel.toggled(dir).panel;
    let read = again.with_listing(dir, Some(panel.children[dir]));
    assert(read.tree() =~= panel.tree());
}

/// Where the rows show all there is, reading on shows the same rows.
proof fn lemma_settled_stays(panel: PanelView, after: PanelView)
    requires
        panel.valid(),
        panel.settled(),
        all_read(panel, after),
    ensures
        after.rows == panel.rows,
{
    after.tree().lemma_same_rows(panel.tree(), panel.root, 0, 0);
}

/// Toggling a directory twice, expanded or not, leaves the same directories
/// expanded and the same rows shown, if what it holds is still what was read of
/// it before. `once` and `twice` are the panel once all is read after the first
/// and after the second time.
pub proof fn law_toggling_twice_restores(
    panel: PanelView,
    dir: PathView,
    once: PanelView,
    twice: PanelView,
)
    requires
        panel.valid(),
        panel.settled(),
        panel.pending is None,
        shows_dir(panel.rows, dir),
        all_read(panel.toggled(dir).panel, once),
        all_read(once.toggled(dir).panel, twice),
        panel.children.contains_key(dir) && twice.children.contains_key(dir)
            ==> twice.children[dir] == panel.children[dir],
    ensures
        twice.expanded == panel.expanded,
        twice.rows == panel.rows,
{
    panel.lemma_toggled(dir);
    let toggled = panel.toggled(dir).panel;
    once.lemma_toggled(dir);
    let back = once.toggled(dir).panel;
    assert(twice.expanded =~= panel.expanded);
    if panel.expanded.contains(dir) {
        panel.tree().lemma_without_shows(dir, panel.root, 0, 0);
        lemma_settled_stays(toggled, once);
        assert forall|p: PathView| p != dir && #[trigger] once.tree().children.contains_key(
            p,
        ) implies twice.tree().children.contains_key(p) && twice.tree().children[p]
            == once.tree().children[p] by {
            assert(back.children.contains_key(p));
        }
        twice.tree().lemma_agrees_off(once.tree(), dir, panel.root, 0, 0);
        let k = choose|k: int|
            {
                &&& #[trigger] is_first_dir_row(once.rows, dir, k)
                &&& k < twice.rows.len()
                &&& once.rows.take(k + 1) == twice.rows.take(k + 1)
            };
        assert(twice.rows.take(k + 1)[k] == once.rows.take(k + 1)[k]);
        twice.tree().lemma_opened_is_read(panel.root, 0, 0, k);
        assert forall|p: PathView| #[trigger] panel.tree().children.contains_key(
            p,
        ) implies twice.tree().children.contains_key(p) && twice.tree().children[p]
            == panel.tree().children[p] by {
            if p != dir {
                assert(toggled.children.contains_key(p));
                assert(once.tree().children.contains_key(p));
            }
        }
        twice.tree().lemma_same_rows(panel.tree(), panel.root, 0, 0);
    } else {
        law_collapse_undoes_expand(panel, once, dir);
        lemma_settled_stays(back, twice);
    }
}

/// Toggling a directory leaves its row, and the rows above it, where they are:
/// a selection there stays on the same entry. `after` is the panel once all
/// is read. Where a row above shows the same directory, this is so only if the
/// directory holds nothing.
pub proof fn law_toggled_row_stays(before: PanelView, after: PanelView, dir: PathView, i: int)
    requires
        before.valid(),
        before.settled(),
        0 <= i < before.rows.len(),
        before.rows[i].path == dir,
        is_first_dir_row(before.rows, dir, i) || before.tree().listing(dir).len() == 0
            && after.tree().listing(dir).len() == 0,
        after.valid(),
        after.settled(),
        after.root == before.root,
        after.expanded == flip(before, dir).expanded,
        forall|d: PathView| #[trigger]
            flip(before, dir).children.contains_key(d) ==> after.children.contains_key(d)
                && after.children[d] == before.children[d],
    ensures
        i < after.rows.len(),
        after.rows.take(i + 1) == before.rows.take(i + 1),
{
    let flipped = flip(before, dir);
    assert forall|p: PathView| p != dir && #[trigger] before.tree().children.contains_key(
        p,
    ) implies after.tree().children.contains_key(p) && after.tree().children[p]
        == before.tree().children[p] by {
        assert(flipped.children.contains_key(p));
    }
    if is_first_dir_row(before.rows, dir, i) {
        after.tree().lemma_agrees_off(before.tree(), dir, before.root, 0, 0);
    } else {
        after.tree().lemma_agrees_off_empty(before.tree(), dir, before.root, 0, 0);
    }
}

/// Toggling a directory goes on where a directory had to be read first: the
/// outcome is the one that it would have had, had the directory been read
/// before.
pub proof fn law_toggle_resumes(
    panel: PanelView,
    dir: PathView,
    missing: PathView,
    listing: Option<Seq<EntryView>>,
)
    requires
        panel.toggled(dir).request == Some(RequestView::ReadDirectory(missing)),
    ensures
        panel.toggled(dir).panel.with_listing(missing, listing).rebuilt() == flip(
            panel,
            dir,
        ).with_listing(missing, listing).rebuilt(),
{
}

/// Expanding a collapsed directory that is shown asks for its contents to be
/// read.
pub proof fn law_expand_reads(panel: PanelView, i: int)
    requires
        panel.valid(),
        panel.settled(),
        0 <= i < panel.rows.len(),
        panel.rows[i].is_dir,
        !panel.expanded.contains(panel.rows[i].path),
    ensures
        panel.toggled(panel.rows[i].path).request == Some(
            RequestView::ReadDirectory(panel.rows[i].path),
        ),
{
    let dir = panel.rows[i].path;
    panel.tree().lemma_with(dir, panel.root, 0, 0);
}

/// A directory that is collapsed and expanded again is read again.
pub proof fn law_collapsed_is_read_again(panel: PanelView, i: int)
    requires
        panel.valid(),
        panel.settled(),
        panel.pending is None,
        0 <= i < panel.rows.len(),
        panel.tree().opens(panel.rows[i].path, panel.rows[i].is_dir),
    ensures
        panel.toggled(panel.rows[i].path).request is None,
        panel.toggled(panel.rows[i].path).panel.toggled(panel.rows[i].path).request == Some(
            RequestView::ReadDirectory(panel.rows[i].path),
        ),
{
    let dir = panel.rows[i].path;
    panel.lemma_toggled(dir);
    let collapsed = panel.toggled(dir).panel;
    panel.tree().lemma_without_shows(dir, panel.root, 0, 0);
    let k = choose|k: int|
        0 <= k < collapsed.rows.len() && #[trigger] collapsed.rows[k].path == dir
            && collapsed.rows[k].is_dir;
    law_expand_reads(collapsed, k);
}

/// `after` is `panel` once every directory that it asks for was read and its
/// rows were rebuilt.
pub open spec fn all_read(panel: PanelView, after: PanelView) -> bool {
    &&& after.valid()
    &&& after.settled()
    &&& forall|dir: PathView| #[trigger]
        panel.children.contains_key(dir) ==> after.children.contains_key(dir)
            && after.children[dir] == panel.children[dir]
    &&& after == (PanelView {
        children: after.children,
        rows: after.rows,
        selection: if panel.selection < after.rows.len() {
            panel.selection
        } else if after.rows.len() > 0 {
            (after.rows.len() - 1) as nat
        } else {
            0
        },
        ..panel
    })
}

/// Where rebuilding the rows asks for nothing, all is read. Where it asks for a
/// directory, all is read once all is read of the panel with that listing.
pub proof fn law_reading_leads_on(
    panel: PanelView,
    dir: PathView,
    listing: Option<Seq<EntryView>>,
    after: PanelView,
)
    requires
        panel.valid(),
    ensures
        panel.rebuilt().request is None ==> all_read(panel, panel.rebuilt().panel),
        all_read(panel.with_listing(dir, listing), after) ==> all_read(panel, after),
{
    panel.lemma_rebuilt();
    if all_read(panel.with_listing(dir, listing), after) {
        assert forall|d: PathView| #[trigger] panel.children.contains_key(
            d,
        ) implies after.children.contains_key(d) && after.children[d] == panel.children[d] by {
            assert(panel.with_listing(dir, listing).children.contains_key(d));
        }
    }
}

/// What is read of a directory that is expanded again is what is shown of it,
/// whatever was known of it before: its listing is the new one, and the rows one
/// level below its row are the entries of that, in order.
pub proof fn law_new_listing_is_shown(
    panel: PanelView,
    i: int,
    listing: Option<Seq<EntryView>>,
    after: PanelView,
)
    requires
        panel.valid(),
        panel.settled(),
        panel.pending is None,
        0 <= i < panel.rows.len(),
        panel.tree().opens(panel.rows[i].path, panel.rows[i].is_dir),
        listing matches Some(entries) ==> is_listing_of(entries, panel.rows[i].path),
        all_read(
            panel.toggled(panel.rows[i].path).panel.toggled(
                panel.rows[i].path,
            ).panel.with_listing(panel.rows[i].path, listing),
            after,
        ),
    ensures
        ({
            let dir = panel.rows[i].path;
            let entries = match listing {
                Some(entries) => entries,
                None => Seq::empty(),
            };
            &&& after.expanded == panel.expanded
            &&& after.children.contains_key(dir)
            &&& after.children[dir] == entries
            &&& shows_dir(after.rows, dir)
            &&& forall|k: int|
                0 <= k < after.rows.len() && (#[trigger] after.rows[k]).path == dir
                    && after.rows[k].is_dir ==> lists_below(after.rows, k, entries)
        }),
{
    let dir = panel.rows[i].path;
    law_collapsed_is_read_again(panel, i);
    panel.lemma_toggled(dir);
    panel.tree().lemma_without_shows(dir, panel.root, 0, 0);
    let collapsed = panel.toggled(dir).panel;
    let read = collapsed.toggled(dir).panel.with_listing(dir, listing);
    assert(after.expanded =~= panel.expanded);
    assert(read.children.contains_key(dir));
    assert forall|p: PathView| p != dir && #[trigger] collapsed.tree().children.contains_key(
        p,
    ) implies after.tree().children.contains_key(p) && after.tree().children[p]
        == collapsed.tree().children[p] by {
        assert(read.children.contains_key(p));
    }
    after.tree().lemma_agrees_off(collapsed.tree(), dir, panel.root, 0, 0);
    let first = choose|k: int|
        {
            &&& #[trigger] is_first_dir_row(collapsed.rows, dir, k)
            &&& k < after.rows.len()
            &&& collapsed.rows.take(k + 1) == after.rows.take(k + 1)
        };
    assert(after.rows.take(first + 1)[first] == collapsed.rows.take(first + 1)[first]);
    assert forall|k: int|
        0 <= k < after.rows.len() && (#[trigger] after.rows[k]).path == dir
            && after.rows[k].is_dir implies lists_below(after.rows, k, after.children[dir]) by {
        law_entries_are_in_order(after, k);
    }
}

/// Directories are read lazily: the panel asks for one only while it is
/// expanded and was not read yet.
pub proof fn law_reading_is_lazy(panel: PanelView, dir: PathView)
    requires
        panel.valid(),
        panel.rebuilt().request == Some(RequestView::ReadDirectory(dir)),
    ensures
        panel.expanded.contains(dir),
        !panel.children.contains_key(dir),
{
    panel.lemma_missing();
}

/// Each directory that is read leaves fewer expanded directories unread, so
/// that rebuilding the rows comes to an end.
pub proof fn law_reading_progresses(
    panel: PanelView,
    dir: PathView,
    listing: Option<Seq<EntryView>>,
)
    requires
        panel.valid(),
        panel.tree().first_missing() == Some(dir),
    ensures
        panel.expanded.difference(panel.with_listing(dir, listing).children.dom()).len()
            < panel.expanded.difference(panel.children.dom()).len(),
{
    panel.lemma_missing();
    let unread = panel.expanded.difference(panel.children.dom());
    let after = panel.expanded.difference(panel.with_listing(dir, listing).children.dom());
    assert(after =~= unread.remove(dir));
}

/// Collapsing the parent of a selected row collapses the directory that lists
/// the row, and selects that directory's row, where no row above shows the same
/// directory.
pub proof fn law_parent_is_collapsed(panel: PanelView, i: int)
    requires
        panel.valid(),
        panel.settled(),
        panel.pending is None,
        panel.selection < panel.rows.len(),
        panel.rows[panel.selection as int].depth > 0,
        parent_row(panel.rows, panel.selection as int) == Some(i),
        is_first_dir_row(panel.rows, panel.rows[i].path, i),
    ensures
        ({
            let step = panel.parent_collapsed();
            &&& step.request is None
            &&& step.panel.settled()
            &&& step.panel.expanded == panel.expanded.remove(panel.rows[i].path)
            &&& step.panel.selection == i
            &&& i < step.panel.rows.len()
            &&& step.panel.rows[i] == panel.rows[i]
        }),
{
    law_parent_row_is_directory(panel, panel.selection as int);
    let moved = panel.at_parent();
    let dir = panel.rows[i].path;
    moved.lemma_toggled(dir);
    let after = moved.toggled(dir).panel;
    law_toggled_row_stays(moved, after, dir, i);
    assert(after.rows.take(i + 1)[i] == moved.rows.take(i + 1)[i]);
}

// ---- revealing a path ----

/// A revealed path is recorded, whether it is under the root or not; outside
/// the root nothing else changes.
pub proof fn law_reveal_records(panel: PanelView, path: PathView)
    ensures
        panel.revealed(path).panel.last_revealed == Some(path),
        !starts_with(path, panel.root) ==> panel.revealed(path).panel == (PanelView {
            last_revealed: Some(path),
            ..panel
        }),
{
}

/// A path under the root has its ancestors expanded, from the root down.
pub proof fn law_reveal_expands_ancestors(panel: PanelView, path: PathView, dir: PathView)
    requires
        starts_with(path, panel.root),
        is_ancestor(dir, path),
        starts_with(dir, panel.root),
    ensures
        panel.revealed(path).panel.expanded.contains(dir),
{
}

/// Revealing a path goes on where a directory had to be read first: the outcome
/// is the one that it would have had, had the directory been read before.
pub proof fn law_reveal_resumes(
    panel: PanelView,
    path: PathView,
    dir: PathView,
    listing: Option<Seq<EntryView>>,
)
    requires
        panel.revealed(path).request == Some(RequestView::ReadDirectory(dir)),
    ensures
        panel.revealed(path).panel.with_listing(dir, listing).revealed(path)
            == panel.with_listing(dir, listing).revealed(path),
{
    let started = panel.revealing(path);
    assert(started.with_listing(dir, listing).revealing(path) =~= panel.with_listing(
        dir,
        listing,
    ).revealing(path));
}

/// Revealing a path once more changes nothing.
pub proof fn law_reveal_is_idempotent(panel: PanelView, path: PathView)
    requires
        panel.valid(),
        panel.revealed(path).request is None,
    ensures
        panel.revealed(path).panel.revealed(path).request is None,
        panel.revealed(path).panel.revealed(path).panel == panel.revealed(path).panel,
{
    let after = panel.revealed(path).panel;
    assert(after.revealing(path) =~= after);
}

/// The `i`-th directory of the chain lists the next one.
pub open spec fn leads_on(tree: Tree, chain: Seq<PathView>, i: int) -> bool {
    exists|k: int|
        0 <= k < tree.listing(chain[i]).len() && #[trigger] tree.listing(chain[i])[k]
            == (EntryView { path: chain[i + 1], is_dir: true })
}

/// Directories from the root on, each of which lists the next one.
pub open spec fn is_chain(tree: Tree, chain: Seq<PathView>) -> bool {
    &&& chain.len() > 0
    &&& chain[0] == tree.root
    &&& forall|i: int| 0 <= i < chain.len() - 1 ==> #[trigger] leads_on(tree, chain, i)
}

/// The rows below each directory of a chain of shown directories are shown.
proof fn lemma_chain_shown(tree: Tree, chain: Seq<PathView>, m: nat)
    requires
        tree.valid(),
        chain.len() > m,
        is_chain(tree, chain),
        forall|i: int| 0 < i < chain.len() ==> tree.expanded.contains(#[trigger] chain[i]),
    ensures
        forall|row: RowView| #[trigger]
            tree.rows_below(chain[m as int], 0, m).contains(row) ==> tree.all_rows().contains(row),
    decreases m,
{
    if m > 0 {
        let up = (m - 1) as nat;
        lemma_chain_shown(tree, chain, up);
        let dir = chain[up as int];
        let entries = tree.listing(dir);
        assert(leads_on(tree, chain, up as int));
        let k = choose|k: int|
            0 <= k < entries.len() && #[trigger] entries[k] == (EntryView {
                path: chain[m as int],
                is_dir: true,
            });
        tree.lemma_entry_shown(dir, 0, up, k as nat);
        assert(up + 1 == m);
    }
}

/// A revealed path is selected once all is read, and will be scrolled into
/// view, if the listings lead to it: from the root, each directory of `chain`
/// lists the next one, and the last one lists the path.
pub proof fn law_reveal_selects(panel: PanelView, path: PathView, chain: Seq<PathView>)
    requires
        panel.valid(),
        panel.revealed(path).request is None,
        is_chain(panel.tree(), chain),
        forall|i: int| 0 < i < chain.len() ==> is_ancestor(#[trigger] chain[i], path),
        exists|k: int|
            0 <= k < panel.tree().listing(chain.last()).len() && (#[trigger] panel.tree().listing(
                chain.last(),
            )[k]).path == path,
    ensures
        ({
            let after = panel.revealed(path).panel;
            &&& after.settled()
            &&& after.selection < after.rows.len()
            &&& after.rows[after.selection as int].path == path
            &&& after.ensure_visible
        }),
{
    let started = panel.revealing(path);
    assert(starts_with(path, panel.root)) by {
        let dir = chain.last();
        let entries = panel.tree().listing(dir);
        let k = choose|k: int| 0 <= k < entries.len() && (#[trigger] entries[k]).path == path;
        lemma_chain_below(panel.tree(), chain, (chain.len() - 1) as nat);
        if dir.len() > panel.root.len() {
            lemma_below_trans(path, dir, panel.root);
        } else {
            assert(dir.take(panel.root.len() as int) =~= dir);
        }
    }
    panel.lemma_revealing(path);
    let tree = started.tree();
    assert forall|i: int| 0 < i < chain.len() implies tree.expanded.contains(
        #[trigger] chain[i],
    ) by {
        lemma_chain_below(panel.tree(), chain, i as nat);
    }
    let last = (chain.len() - 1) as nat;
    assert forall|i: int| 0 <= i < chain.len() - 1 implies #[trigger] leads_on(tree, chain, i) by {
        assert(leads_on(panel.tree(), chain, i));
        assert(tree.listing(chain[i]) == panel.tree().listing(chain[i]));
    }
    lemma_chain_shown(tree, chain, last);
    let entries = tree.listing(chain.last());
    let k = choose|k: int| 0 <= k < entries.len() && (#[trigger] entries[k]).path == path;
    tree.lemma_entry_shown(chain.last(), 0, last, k as nat);
    let rows = tree.all_rows();
    let at = choose|at: int| 0 <= at < rows.len() && rows[at] == entry_row(entries[k], last);
    lemma_first_row(rows, path, at);
}

/// The directories of a chain start with the root.
proof fn lemma_chain_below(tree: Tree, chain: Seq<PathView>, m: nat)
    requires
        tree.valid(),
        chain.len() > m,
        is_chain(tree, chain),
    ensures
        starts_with(chain[m as int], tree.root),
    decreases m,
{
    if m == 0 {
        assert(tree.root.take(tree.root.len() as int) =~= tree.root);
    } else {
        let up = m - 1;
        lemma_chain_below(tree, chain, up as nat);
        let entries = tree.listing(chain[up]);
        assert(leads_on(tree, chain, up));
        let k = choose|k: int|
            0 <= k < entries.len() && #[trigger] entries[k] == (EntryView {
                path: chain[m as int],
                is_dir: true,
            });
        if chain[up].len() > tree.root.len() {
            lemma_below_trans(chain[m as int], chain[up], tree.root);
        } else {
            assert(chain[up].take(tree.root.len() as int) =~= chain[up]);
        }
    }
}

/// Where a row shows a path, there is a first such row.
proof fn lemma_first_row(rows: Seq<RowView>, path: PathView, at: int)
    requires
        0 <= at < rows.len(),
        rows[at].path == path,
    ensures
        first_row_of(rows, path) is Some,
        is_first_row_of(rows, path, first_row_of(rows, path)->0),
    decreases at,
{
    if forall|j: int| 0 <= j < at ==> (#[trigger] rows[j]).path != path {
        assert(is_first_row_of(rows, path, at));
    } else {
        let j = choose|j: int| 0 <= j < at && (#[trigger] rows[j]).path == path;
        lemma_first_row(rows, path, j);
    }
}

// ---- keys ----

/// A key press of a character without modifiers.
pub open spec fn press(ch: char) -> KeyEvent {
    plain(KeyCode::Char(ch))
}

/// A key without a meaning is swallowed: nothing changes.
pub proof fn law_other_keys_are_swallowed(panel: PanelView, event: KeyEvent, alphabet: Seq<char>)
    requires
        panel.pending is None,
        !has_meaning(event),
    ensures
        panel.after_key(event, alphabet).panel == panel,
        panel.after_key(event, alphabet).request is None,
{
}

/// The panel gives up the focus on escape and when a file is opened from it,
/// and on no other key.
pub proof fn law_focus_is_kept(panel: PanelView, event: KeyEvent, alphabet: Seq<char>)
    requires
        panel.focused,
    ensures
        !panel.after_key(event, alphabet).panel.focused <==> {
            ||| panel.pending is None && event == plain(KeyCode::Esc)
            ||| panel.after_key(event, alphabet).request is Some
                && panel.after_key(event, alphabet).request->0 is OpenFile
        },
{
}

/// A key that does not continue a `g` sequence cancels it, and nothing else
/// changes.
pub proof fn law_other_keys_cancel_goto(panel: PanelView, event: KeyEvent, alphabet: Seq<char>)
    requires
        panel.pending == Some(PendingView::Goto),
        event != press('g'),
        event != press('e'),
        event != press('w'),
    ensures
        panel.after_key(event, alphabet).panel == (PanelView { pending: None, ..panel }),
        panel.after_key(event, alphabet).request is None,
{
}

/// A key that does not continue any jump label cancels the jump, and nothing
/// else changes.
pub proof fn law_other_keys_cancel_jump(
    panel: PanelView,
    labels: Seq<JumpLabel>,
    first: Option<char>,
    event: KeyEvent,
    alphabet: Seq<char>,
)
    requires
        panel.pending == Some(PendingView::Jump { labels, first }),
        forall|i: int| 0 <= i < labels.len() ==> event != press(
            if first is None {
                (#[trigger] labels[i]).first
            } else {
                labels[i].second
            },
        ),
    ensures
        panel.after_key(event, alphabet).panel == (PanelView { pending: None, ..panel }),
        panel.after_key(event, alphabet).request is None,
{
    if event.typed() is Some {
        let ch = event.typed()->0;
        if first is None {
            let chosen = |label: JumpLabel| label.first == ch;
            let remaining = labels.filter(chosen);
            if remaining.len() > 0 {
                labels.lemma_filter_contains_rev(chosen, remaining[0]);
            }
        }
    }
}

/// The `i`-th of the rows in view is labelled with its own pair of characters:
/// where no character occurs twice in the alphabet, no two rows share a label.
pub proof fn law_labels_differ(start: int, count: nat, alphabet: Seq<char>, i: int, j: int)
    requires
        alphabet.no_duplicates(),
        count <= alphabet.len() * alphabet.len(),
        0 <= i < count,
        0 <= j < count,
        jump_labels(start, count, alphabet)[i].first == jump_labels(start, count, alphabet)[j].first,
        jump_labels(start, count, alphabet)[i].second == jump_labels(
            start,
            count,
            alphabet,
        )[j].second,
    ensures
        i == j,
{
    let n = alphabet.len() as int;
    assert(n > 0) by (nonlinear_arith)
        requires
            n >= 0,
            0 <= i < n * n,
    ;
    assert(0 <= i / n < n) by (nonlinear_arith)
        requires
            n > 0,
            0 <= i < n * n,
    ;
    assert(0 <= j / n < n) by (nonlinear_arith)
        requires
            n > 0,
            0 <= j < n * n,
    ;
    assert(i == j) by (nonlinear_arith)
        requires
            n > 0,
            i / n == j / n,
            i % n == j % n,
    ;
}

/// Typing the two characters of a row's jump label selects that row and ends
/// the jump, where no character occurs twice in the alphabet.
pub proof fn law_label_selects_row(panel: PanelView, alphabet: Seq<char>, i: int)
    requires
        panel.valid(),
        panel.rows.len() <= usize::MAX,
        alphabet.no_duplicates(),
        0 <= i < alphabet.len() * alphabet.len(),
        in_view(panel, panel.scroll + i),
    ensures
        ({
            let n = alphabet.len() as int;
            let first = panel.jump_started(alphabet).after_key(press(alphabet[i / n]), alphabet);
            let second = first.panel.after_key(press(alphabet[i % n]), alphabet);
            &&& first.request is None
            &&& second.request is None
            &&& second.panel == (PanelView {
                selection: (panel.scroll + i) as nat,
                ensure_visible: true,
                pending: None,
                ..panel
            })
        }),
{
    let count = panel.label_count(alphabet.len());
    let start = panel.scroll as int;
    let labels = jump_labels(start, count, alphabet);
    let label = labels[i];
    let chosen = |l: JumpLabel| l.first == label.first;
    let remaining = labels.filter(chosen);
    assert(alphabet.len() * alphabet.len() >= 0) by (nonlinear_arith);
    labels.lemma_filter_contains(chosen, i);
    let at = choose|at: int| 0 <= at < remaining.len() && remaining[at] == label;
    // any label that is left and ends like this one is this one
    assert forall|k: int| 0 <= k < remaining.len() && (#[trigger] remaining[k]).second
        == label.second implies remaining[k] == label by {
        labels.lemma_filter_contains_rev(chosen, remaining[k]);
        let j = choose|j: int| 0 <= j < labels.len() && labels[j] == remaining[k];
        law_labels_differ(start, count, alphabet, j, i);
    }
    lemma_first_label(remaining, label.second, at);
}

/// Every labelled row is reached by its own label: typing `g`, `w` and the two
/// characters of the `i`-th label selects the `i`-th row in view, and changes
/// nothing else, where no character occurs twice in the alphabet.
pub proof fn law_goto_label_selects_row(panel: PanelView, alphabet: Seq<char>, i: int)
    requires
        panel.valid(),
        panel.pending is None,
        panel.rows.len() <= usize::MAX,
        alphabet.no_duplicates(),
        0 <= i < alphabet.len() * alphabet.len(),
        in_view(panel, panel.scroll + i),
    ensures
        0 <= i / (alphabet.len() as int) < alphabet.len(),
        0 <= i % (alphabet.len() as int) < alphabet.len(),
        ({
            let n = alphabet.len() as int;
            let g = panel.after_key(press('g'), alphabet);
            let w = g.panel.after_key(press('w'), alphabet);
            let first = w.panel.after_key(press(alphabet[i / n]), alphabet);
            let second = first.panel.after_key(press(alphabet[i % n]), alphabet);
            &&& g.request is None
            &&& w.request is None
            &&& first.request is None
            &&& second.request is None
            &&& second.panel == (PanelView {
                selection: (panel.scroll + i) as nat,
                ensure_visible: true,
                ..panel
            })
        }),
{
    let n = alphabet.len() as int;
    assert(n * n >= 0) by (nonlinear_arith);
    assert(n > 0) by (nonlinear_arith)
        requires
            n >= 0,
            0 <= i < n * n,
    ;
    assert(0 <= i / n < n) by (nonlinear_arith)
        requires
            n > 0,
            0 <= i < n * n,
    ;
    let g = panel.after_key(press('g'), alphabet).panel;
    assert(PanelView { pending: None, ..g } == panel);
    law_label_selects_row(panel, alphabet, i);
    assert(g.after_key(press('w'), alphabet).panel == panel.jump_started(alphabet));
}

/// Where a label ends in a character, there is a first such label.
proof fn lemma_first_label(labels: Seq<JumpLabel>, ch: char, at: int)
    requires
        0 <= at < labels.len(),
        labels[at].second == ch,
    ensures
        exists|i: int| is_first_label(labels, ch, i),
    decreases at,
{
    if forall|j: int| 0 <= j < at ==> (#[trigger] labels[j]).second != ch {
        assert(is_first_label(labels, ch, at));
    } else {
        let j = choose|j: int| 0 <= j < at && (#[trigger] labels[j]).second == ch;
        lemma_first_label(labels, ch, j);
    }
}

// ---- the mouse ----

/// An event outside the panel is left to others, and nothing changes.
pub proof fn law_outside_events_fall_through(panel: PanelView, event: MouseEvent, lines: nat)
    requires
        !panel.resizing,
        !covers(panel.area, event.column, event.row),
    ensures
        panel.after_mouse(event, lines).result is None,
        panel.after_mouse(event, lines).request is None,
        panel.after_mouse(event, lines).panel == panel,
{
}

/// While the border is dragged, every event is captured, wherever it happens.
pub proof fn law_drag_captures_events(panel: PanelView, event: MouseEvent, lines: nat)
    requires
        panel.resizing,
    ensures
        panel.after_mouse(event, lines).result == Some(EventResult::Consumed),
        panel.after_mouse(event, lines).request is None,
{
}

/// A drag brings the border to the column that it is dragged to, as far as the
/// panel stays wide enough.
pub proof fn law_border_follows_drag(panel: PanelView, column: u16, area: Rect)
    requires
        column - panel.area.x < u16::MAX,
        area.x == panel.area.x,
        panel.dragged(column).width_override == Some(area.width),
    ensures
        column - panel.area.x + 1 >= 10 ==> column + 1 == area.x + area.width,
        column - panel.area.x + 1 < 10 ==> area.width == 10,
{
}

/// A click on the header changes nothing but that it ends a multi-key input.
pub proof fn law_header_selects_nothing(panel: PanelView, column: u16)
    requires
        covers(panel.area, column, panel.area.y),
        column + 1 != panel.area.x + panel.area.width,
    ensures
        panel.clicked(column, panel.area.y).panel == (PanelView { pending: None, ..panel }),
        panel.clicked(column, panel.area.y).request is None,
{
}

/// A click lands on the row that is drawn there: it selects and activates it.
pub proof fn law_click_hits_drawn_row(panel: PanelView, i: int, column: u16, row: u16)
    requires
        covers(panel.area, column, row),
        column + 1 != panel.area.x + panel.area.width,
        panel.scroll <= i < panel.rows.len(),
        row == panel.area.y + 1 + (i - panel.scroll),
    ensures
        panel.clicked(column, row) == (PanelView {
            pending: None,
            selection: i as nat,
            ..panel
        }).activated(),
{
}

/// A click after a drawing hits the row that was drawn under it. A file is
/// opened, and the panel gives up the focus. A directory is toggled and, once
/// all is read, still the selected row, with the same rows above it; where a row
/// above shows the same directory, that is so only if the directory holds
/// nothing.
pub proof fn law_click_after_drawing(
    panel: PanelView,
    area: Rect,
    i: int,
    event: MouseEvent,
    lines: nat,
    after: PanelView,
)
    requires
        panel.valid(),
        panel.settled(),
        !panel.resizing,
        panel.placed(area).scroll <= i < panel.rows.len(),
        i < panel.placed(area).scroll + room(area),
        event.kind == MouseEventKind::Down(MouseButton::Left),
        area.x <= event.column < area.x + area.width - 1,
        event.row == area.y + 1 + (i - panel.placed(area).scroll),
    ensures
        ({
            let drawn = panel.placed(area);
            let row = panel.rows[i];
            let step = drawn.after_mouse(event, lines);
            &&& step.result == Some(EventResult::Consumed)
            &&& !row.is_dir ==> {
                &&& step.request == Some(RequestView::OpenFile(row.path))
                &&& step.panel == (PanelView {
                    selection: i as nat,
                    focused: false,
                    pending: None,
                    ..drawn
                })
            }
            &&& row.is_dir ==> {
                &&& step.request == if panel.expanded.contains(row.path) {
                    None
                } else {
                    Some(RequestView::ReadDirectory(row.path))
                }
                &&& step.panel.expanded == flip(panel, row.path).expanded
                &&& step.panel.children == flip(panel, row.path).children
                &&& all_read(step.panel, after) && (is_first_dir_row(panel.rows, row.path, i)
                    || panel.tree().listing(row.path).len() == 0 && after.tree().listing(
                    row.path,
                ).len() == 0) ==> {
                    &&& after.selection == i
                    &&& i < after.rows.len()
                    &&& after.rows.take(i + 1) == panel.rows.take(i + 1)
                }
            }
        }),
{
    let drawn = panel.placed(area);
    let row = panel.rows[i];
    law_click_hits_drawn_row(drawn, i, event.column, event.row);
    let hit = PanelView { pending: None, selection: i as nat, ..drawn };
    assert(hit.tree() == panel.tree());
    if row.is_dir {
        hit.lemma_toggled(row.path);
        if !panel.expanded.contains(row.path) {
            law_expand_reads(hit, i);
        }
        let step = hit.toggled(row.path).panel;
        if all_read(step, after) && (is_first_dir_row(panel.rows, row.path, i)
            || panel.tree().listing(row.path).len() == 0 && after.tree().listing(row.path).len()
            == 0) {
            law_toggled_row_stays(hit, after, row.path, i);
            if panel.expanded.contains(row.path) {
                law_toggled_row_stays(hit, step, row.path, i);
            }
        }
    }
}

// ---- drawing ----

/// Where the selection is to be visible, it is in view once the panel is drawn
/// with room for a row, and the rows are not scrolled if it was so before.
pub proof fn law_selection_comes_into_view(panel: PanelView, area: Rect)
    requires
        panel.valid(),
        panel.ensure_visible,
        area.width > 0,
        area.height > 1,
    ensures
        ({
            let placed = panel.placed(area);
            &&& !placed.ensure_visible
            &&& placed.scroll <= placed.selection < placed.scroll + room(area)
            &&& panel.scroll <= panel.selection < panel.scroll + room(area)
                ==> placed.scroll == panel.scroll
        }),
{
}

/// Drawing leaves no more than the last row scrolled to the top.
pub proof fn law_scroll_stays_on_rows(panel: PanelView, area: Rect)
    requires
        area.width > 0,
        area.height > 0,
    ensures
        panel.placed(area).scroll < panel.rows.len() || panel.placed(area).scroll == 0,
{
}

/// The drawing steps of a row in view are among those of the panel.
proof fn lemma_row_drawn(panel: PanelView, to: int, i: int, draw: DrawView)
    requires
        panel.scroll <= i < to,
        panel.row_draws(i).contains(draw),
    ensures
        panel.rows_draws(to).contains(draw),
    decreases to - i,
{
    let before = panel.rows_draws(to - 1);
    let last = panel.row_draws(to - 1);
    if i == to - 1 {
        let k = choose|k: int| 0 <= k < last.len() && last[k] == draw;
        assert((before + last)[before.len() + k] == draw);
    } else {
        lemma_row_drawn(panel, to - 1, i, draw);
        let k = choose|k: int| 0 <= k < before.len() && before[k] == draw;
        assert((before + last)[k] == draw);
    }
}

/// What a drawing step touches lies in the panel's area, and only the border
/// itself reaches the border column.
pub open spec fn stays_inside(panel: PanelView, draw: DrawView) -> bool {
    let area = panel.area;
    match draw {
        DrawView::Text { x, y, text, max_width, style } => {
            &&& area.x <= x < area.x + area.width
            &&& area.y <= y < area.y + area.height
            &&& match max_width {
                Some(width) => 0 <= width && x + width < area.x + area.width,
                None => x + 1 == area.x + area.width && text == "│"@ && style == Style::Border,
            }
        },
        DrawView::Fill { area: filled, style } => {
            &&& filled.x == area.x
            &&& filled.x + filled.width + 1 == area.x + area.width
            &&& area.y <= filled.y
            &&& filled.y + filled.height <= area.y + area.height
        },
    }
}

/// The rows are drawn inside the area.
proof fn lemma_rows_stay_inside(panel: PanelView, to: int)
    requires
        panel.area.on_grid(),
        panel.area.width > 0,
        panel.area.height > 0,
        to <= panel.scroll + panel.view_height(),
        to <= panel.rows.len(),
    ensures
        forall|k: int|
            0 <= k < panel.rows_draws(to).len() ==> stays_inside(
                panel,
                #[trigger] panel.rows_draws(to)[k],
            ),
    decreases to - panel.scroll,
{
    if to > panel.scroll {
        let before = panel.rows_draws(to - 1);
        let row = panel.row_draws(to - 1);
        lemma_rows_stay_inside(panel, to - 1);
        assert(forall|k: int| 0 <= k < row.len() ==> stays_inside(panel, #[trigger] row[k]));
        assert forall|k: int| 0 <= k < (before + row).len() implies stays_inside(
            panel,
            #[trigger] (before + row)[k],
        ) by {
            if k >= before.len() {
                assert((before + row)[k] == row[k - before.len()]);
            }
        }
    }
}

/// Nothing is drawn outside the panel's area, and nothing over its border.
pub proof fn law_drawing_stays_inside(panel: PanelView, k: int)
    requires
        panel.area.width > 0 && panel.area.height > 0 ==> panel.area.on_grid(),
        0 <= k < panel.draws().len(),
    ensures
        stays_inside(panel, panel.draws()[k]),
{
    let to = min((panel.scroll + panel.view_height()) as int, panel.rows.len() as int);
    lemma_rows_stay_inside(panel, to);
}

/// A selected row in view is highlighted, over the width of the rows and on the
/// line that the row is drawn on.
pub proof fn law_selection_is_highlighted(panel: PanelView)
    requires
        panel.area.width > 0,
        panel.area.height > 0,
        panel.selection < panel.rows.len(),
        panel.scroll <= panel.selection < panel.scroll + room(panel.area),
    ensures
        panel.draws().contains(
            DrawView::Fill {
                area: Rect {
                    x: panel.area.x,
                    y: (panel.area.y + 1 + (panel.selection - panel.scroll)) as u16,
                    width: (panel.area.width - 1) as u16,
                    height: 1,
                },
                style: if panel.focused {
                    Style::FocusedSelection
                } else {
                    Style::Selection
                },
            },
        ),
{
    let i = panel.selection as int;
    let draw = panel.highlight_draws(i)[0];
    let names = panel.name_draws(i);
    assert(panel.row_draws(i)[names.len() as int] == draw);
    let to = min((panel.scroll + panel.view_height()) as int, panel.rows.len() as int);
    lemma_row_drawn(panel, to, i, draw);
    let rows = panel.rows_draws(to);
    let k = choose|k: int| 0 <= k < rows.len() && rows[k] == draw;
    let above = panel.border_draws(panel.area.height as nat) + seq![panel.header_draw()];
    assert(panel.draws()[above.len() + k] == draw);
}

} // verus!
