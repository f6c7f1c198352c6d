//! The panel itself.

use vstd::math::max;
use vstd::prelude::*;

use crate::input::Rect;
use crate::listing::{entry_views, is_listing_of, DirEntry, EntryView, Listings};
use crate::model::{read_request, JumpLabel, PanelView, PendingView, MIN_WIDTH};
use crate::path::{below, has_parent, is_ancestor, starts_with, PathSet, PathView, TreePath};
use crate::tree::{
    first_row_of, is_first_row_of, row_views, visible_rows, RowView, Tree, TreeRow,
};

mod keys;
mod mouse;
mod render;

verus! {

/// A multi-key input in progress.
#[derive(Debug)]
enum Pending {
    /// `g` typed, awaiting `w`/`g`/`e`.
    Goto,
    /// `gw` jump labels over the visible rows, and the first character typed.
    Jump { labels: Vec<JumpLabel>, first: Option<char> },
}

impl View for Pending {
    type V = PendingView;

    closed spec fn view(&self) -> PendingView {
        match self {
            Pending::Goto => PendingView::Goto,
            Pending::Jump { labels, first } => PendingView::Jump { labels: labels@, first: *first },
        }
    }
}

spec fn pending_view(pending: Option<Pending>) -> Option<PendingView> {
    match pending {
        Some(pending) => Some(pending@),
        None => None,
    }
}

/// What an optional path stands for.
pub open spec fn path_view(path: Option<TreePath>) -> Option<PathView> {
    match path {
        Some(path) => Some(path@),
        None => None,
    }
}

/// What a listing stands for; a directory that cannot be read counts as empty.
pub open spec fn listing_view(listing: Option<Vec<DirEntry>>) -> Option<Seq<EntryView>> {
    match listing {
        Some(entries) => Some(entry_views(entries@)),
        None => None,
    }
}

/// A persistent file tree side panel.
///
/// The tree is rooted at one directory and its listings are read lazily: where
/// the panel needs one that it does not hold, it names the directory, and its
/// host reads it, hands the listing over with [`FileTreePanel::load_children`]
/// and calls [`FileTreePanel::rebuild_rows`] again. Once nothing is left to be
/// read, the panel is settled and takes the next event.
#[derive(Debug)]
pub struct FileTreePanel {
    root: TreePath,
    /// The root as the system writes it, shown where the root has no name.
    root_display: String,
    focused: bool,
    expanded: PathSet,
    /// Lazily loaded directory listings.
    children: Listings,
    /// Visible rows, flattened in display order.
    rows: Vec<TreeRow>,
    selection: usize,
    scroll: usize,
    /// The area the panel was last rendered into, used for mouse hit-testing.
    area: Rect,
    last_revealed: Option<TreePath>,
    /// Scroll the selection into view on the next render.
    ensure_visible: bool,
    /// Runtime width override (set by resizing); falls back to the config width.
    width_override: Option<u16>,
    /// A mouse drag on the border is resizing the panel.
    resizing: bool,
    /// Multi-key input in progress (`g` prefix or jump labels).
    pending: Option<Pending>,
}

impl View for FileTreePanel {
    type V = PanelView;

    closed spec fn view(&self) -> PanelView {
        PanelView {
            root: self.root@,
            root_display: self.root_display@,
            focused: self.focused,
            expanded: self.expanded@,
            children: self.children@,
            rows: row_views(self.rows@),
            selection: self.selection as nat,
            scroll: self.scroll as nat,
            area: self.area,
            last_revealed: path_view(self.last_revealed),
            ensure_visible: self.ensure_visible,
            width_override: self.width_override,
            resizing: self.resizing,
            pending: pending_view(self.pending),
        }
    }
}

/// The first rows of a tree of which only the root is expanded are the entries
/// of the root's listing, and nothing more must be read.
proof fn lemma_only_root(tree: Tree, from: nat)
    requires
        tree.valid(),
        tree.expanded == Set::<PathView>::empty().insert(tree.root),
        tree.children.contains_key(tree.root),
        from <= tree.children[tree.root].len(),
    ensures
        tree.missing_below(tree.root, from) is None,
        tree.rows_below(tree.root, from, 0) =~= tree.children[tree.root].skip(
            from as int,
        ).map_values(|e: EntryView| RowView { path: e.path, is_dir: e.is_dir, depth: 0 }),
    decreases tree.children[tree.root].len() - from,
{
    if from < tree.children[tree.root].len() {
        lemma_only_root(tree, from + 1);
    }
}

impl FileTreePanel {
    /// The collections that the panel holds are in order.
    pub closed spec fn inv(&self) -> bool {
        self.expanded.wf() && self.children.wf()
    }

    /// What always holds of a panel.
    pub open spec fn wf(&self) -> bool {
        self@.valid() && self.inv()
    }

    /// A panel in memory has no more rows than can be counted, and is not
    /// scrolled further than that.
    pub proof fn lemma_len(&self)
        ensures
            self@.rows.len() <= usize::MAX,
            self@.scroll <= usize::MAX,
    {
        assert(self.rows.len() == self.rows@.len());
    }

    /// A panel on the directory `root`, given what reading `root` returned.
    pub fn new(root: TreePath, root_display: String, listing: Option<Vec<DirEntry>>) -> (res: Self)
        requires
            listing matches Some(entries) ==> is_listing_of(entry_views(entries@), root@),
        ensures
            res.wf(),
            res@.settled(),
            res@ == PanelView::opened(
                root@,
                root_display@,
                match listing_view(listing) {
                    Some(entries) => entries,
                    None => Seq::empty(),
                },
            ),
    {
        let mut expanded = PathSet::new();
        expanded.insert(root.clone());
        let mut panel = FileTreePanel {
            root,
            root_display,
            focused: false,
            expanded,
            children: Listings::new(),
            rows: Vec::new(),
            selection: 0,
            scroll: 0,
            area: Rect { x: 0, y: 0, width: 0, height: 0 },
            last_revealed: None,
            ensure_visible: true,
            width_override: None,
            resizing: false,
            pending: None,
        };
        proof {
            panel.expanded.lemma_finite();
        }
        let root = panel.root.clone();
        panel.load_children(&root, listing);
        proof {
            lemma_only_root(panel@.tree(), 0);
        }
        panel.rebuild_rows();
        panel
    }

    /// Whether the panel has the focus.
    pub fn is_focused(&self) -> (res: bool)
        ensures
            res == self@.focused,
    {
        self.focused
    }

    /// Gives the focus to the panel or takes it away. A multi-key input in
    /// progress does not outlive the focus.
    pub fn set_focus(&mut self, focused: bool)
        requires
            old(self).wf(),
        ensures
            final(self).wf(),
            final(self)@ == (PanelView {
                focused,
                pending: if focused {
                    old(self)@.pending
                } else {
                    None
                },
                ..old(self)@
            }),
    {
        self.focused = focused;
        if !focused {
            self.pending = None;
        }
    }

    /// Whether a drag of the border is resizing the panel.
    pub fn is_resizing(&self) -> (res: bool)
        ensures
            res == self@.resizing,
    {
        self.resizing
    }

    /// The path that was revealed last.
    pub fn last_revealed(&self) -> (res: Option<&TreePath>)
        ensures
            match res {
                Some(path) => self@.last_revealed == Some(path@),
                None => self@.last_revealed is None,
            },
    {
        self.last_revealed.as_ref()
    }

    /// The width that the panel wants, where `default` is the configured one.
    pub fn width(&self, default: u16) -> (res: u16)
        ensures
            res == max(
                (match self@.width_override {
                    Some(width) => width,
                    None => default,
                }) as int,
                MIN_WIDTH as int,
            ),
    {
        let width: u16 = self.width_override.unwrap_or(default);
        if width < MIN_WIDTH {
            MIN_WIDTH
        } else {
            width
        }
    }

    /// Keeps the listing of `dir`, unless there is one already; a directory
    /// that could not be read is kept as an empty one.
    pub fn load_children(&mut self, dir: &TreePath, listing: Option<Vec<DirEntry>>)
        requires
            old(self).wf(),
            old(self)@.expanded.contains(dir@),
            listing matches Some(entries) ==> is_listing_of(entry_views(entries@), dir@),
        ensures
            final(self).wf(),
            final(self)@ == old(self)@.with_listing(dir@, listing_view(listing)),
    {
        proof {
            self@.lemma_with_listing(dir@, listing_view(listing));
        }
        if !self.children.contains_key(dir) {
            let entries = match listing {
                Some(entries) => entries,
                None => Vec::new(),
            };
            self.children.insert(dir.clone(), entries);
            assert(entry_views(Seq::<DirEntry>::empty()) =~= Seq::<EntryView>::empty());
        }
    }

    /// Flattens the tree into rows, and keeps the selection on one of them.
    /// Where a directory must be read first, nothing changes and the result
    /// is that directory.
    pub fn rebuild_rows(&mut self) -> (res: Option<TreePath>)
        requires
            old(self).wf(),
        ensures
            final(self).wf(),
            final(self)@ == old(self)@.rebuilt().panel,
            path_view(res) == old(self)@.tree().first_missing(),
            res is None ==> final(self)@.settled(),
            res matches Some(dir) ==> final(self)@.expanded.contains(dir@),
    {
        proof {
            self@.lemma_rebuilt();
            self@.lemma_missing();
        }
        self.show_tree()
    }

    /// What [`FileTreePanel::rebuild_rows`] does, also while the rows still
    /// show a directory that was just collapsed.
    fn show_tree(&mut self) -> (res: Option<TreePath>)
        requires
            old(self).inv(),
            old(self)@.tree().valid(),
        ensures
            final(self).inv(),
            final(self)@ == old(self)@.rebuilt().panel,
            path_view(res) == old(self)@.tree().first_missing(),
    {
        match visible_rows(&self.root, &self.children, &self.expanded) {
            Ok(rows) => {
                self.rows = rows;
                let last: usize = if self.rows.len() == 0 {
                    0
                } else {
                    self.rows.len() - 1
                };
                if self.selection > last {
                    self.selection = last;
                }
                None
            },
            Err(dir) => Some(dir),
        }
    }

    /// Collapses `dir` if it is expanded, else expands it. Where a directory
    /// must be read first, the result is that directory.
    pub fn toggle_dir(&mut self, dir: &TreePath) -> (res: Option<TreePath>)
        requires
            old(self).wf(),
            old(self)@.settled(),
            old(self)@.pending is None,
            below(dir@, old(self)@.root),
        ensures
            final(self).wf(),
            final(self)@ == old(self)@.toggled(dir@).panel,
            read_request(path_view(res)) == old(self)@.toggled(dir@).request,
            res is None ==> final(self)@.settled(),
            res matches Some(missing) ==> final(self)@.expanded.contains(missing@),
    {
        proof {
            self@.lemma_toggled(dir@);
        }
        if self.expanded.remove(dir) {
            // Drop the cached listing so re-expanding re-reads the filesystem.
            self.children.remove(dir);
        } else {
            assert(self@.expanded =~= old(self)@.expanded);
            self.expanded.insert(dir.clone());
        }
        let res = self.show_tree();
        proof {
            if res is Some {
                self@.lemma_missing();
            }
        }
        res
    }

    /// Expands the ancestors of `path`, from the root down.
    fn expand_ancestors(&mut self, path: &TreePath)
        requires
            old(self).inv(),
            starts_with(path@, old(self)@.root),
        ensures
            final(self).inv(),
            final(self)@ == (PanelView {
                expanded: old(self)@.expanded.union(
                    Set::new(
                        |dir: PathView|
                            is_ancestor(dir, path@) && starts_with(dir, old(self)@.root),
                    ),
                ),
                ..old(self)@
            }),
    {
        let ghost root = self@.root;
        // the ancestors shorter than this are not expanded yet
        let ghost mut floor: int = path@.len() as int;
        let mut ancestor = path.parent();
        loop
            invariant
                self.inv(),
                self@ == (PanelView { expanded: self.expanded@, ..old(self)@ }),
                root == self.root@,
                starts_with(path@, root),
                self.expanded@ == old(self).expanded@.union(climbed(path@, root, floor)),
                0 <= floor <= path@.len(),
                ancestor matches Some(dir) ==> is_ancestor(dir@, path@) && dir@.len() == floor - 1,
                ancestor is None ==> floor == 0 || !has_parent(path@[floor - 1]),
            ensures
                self.inv(),
                self@ == (PanelView { expanded: self.expanded@, ..old(self)@ }),
                self.expanded@ == old(self).expanded@.union(climbed(path@, root, 0)),
            decreases floor,
        {
            match ancestor {
                Some(dir) => {
                    if !dir.starts_with(&self.root) {
                        proof {
                            if dir@.len() >= root.len() {
                                assert(path@.take(dir@.len() as int).take(root.len() as int)
                                    =~= path@.take(root.len() as int));
                            }
                        }
                        break ;
                    }
                    ancestor = dir.parent();
                    let ghost here = dir@;
                    self.expanded.insert(dir);
                    proof {
                        if here.len() > 0 {
                            assert(here.drop_last() =~= path@.take(floor - 2));
                        }
                        floor = floor - 1;
                    }
                },
                None => {
                    break ;
                },
            }
        }
    }

    /// The first row that shows `path`.
    fn row_of(&self, path: &TreePath) -> (res: Option<usize>)
        ensures
            match res {
                Some(i) => i < self@.rows.len() && first_row_of(self@.rows, path@) == Some(i as int),
                None => first_row_of(self@.rows, path@) is None,
            },
    {
        let ghost rows = self@.rows;
        let mut i: usize = 0;
        while i < self.rows.len()
            invariant
                i <= self.rows.len(),
                rows == row_views(self.rows@),
                forall|j: int| 0 <= j < i ==> (#[trigger] rows[j]).path != path@,
            decreases self.rows.len() - i,
        {
            if self.rows[i].path.same(path) {
                assert(is_first_row_of(rows, path@, i as int));
                return Some(i);
            }
            i += 1;
        }
        None
    }

    /// Expands all ancestors of `path` and selects its row, if it is under the
    /// root. Where a directory must be read first, the result is that
    /// directory, and revealing `path` again goes on.
    pub fn reveal_path(&mut self, path: &TreePath) -> (res: Option<TreePath>)
        requires
            old(self).wf(),
        ensures
            final(self).wf(),
            final(self)@ == old(self)@.revealed(path@).panel,
            read_request(path_view(res)) == old(self)@.revealed(path@).request,
            res is None && (old(self)@.settled() || starts_with(path@, old(self)@.root))
                ==> final(self)@.settled(),
            res matches Some(dir) ==> final(self)@.expanded.contains(dir@),
    {
        // Always record the path, even when it is outside the root or filtered
        // out by ignore rules, so that following it is not tried again and again.
        self.last_revealed = Some(path.clone());
        proof {
            old(self)@.lemma_revealing(path@);
        }
        if !path.starts_with(&self.root) {
            return None;
        }
        self.expand_ancestors(path);
        let missing = self.rebuild_rows();
        if missing.is_some() {
            return missing;
        }
        match self.row_of(path) {
            Some(i) => {
                self.selection = i;
                self.ensure_visible = true;
            },
            None => {},
        }
        None
    }
}

/// The ancestors of `path` under `root` with at least `floor` components.
spec fn climbed(path: PathView, root: PathView, floor: int) -> Set<PathView> {
    Set::new(
        |dir: PathView|
            is_ancestor(dir, path) && starts_with(dir, root) && dir.len() >= floor,
    )
}

} // verus!
