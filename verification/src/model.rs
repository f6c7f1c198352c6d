//! What the state of a panel stands for, and how each event changes it.

use vstd::math::{max, min};
use vstd::prelude::*;

use crate::input::{
    command_of, Command, EventResult, KeyEvent, MouseButton, MouseEvent, MouseEventKind, Rect,
};
use crate::listing::{is_listing_of, EntryView};
use crate::path::{
    below, is_ancestor, lemma_ancestors_finite, starts_with, PathView, TreePath,
};
use crate::tree::{first_row_of, parent_row, RowView, Tree};

verus! {

/// The panel is never narrower than this.
pub const MIN_WIDTH: u16 = 10;

/// The root directory name shown above the tree rows.
pub const HEADER_HEIGHT: u16 = 1;

/// A two-character label and the row that typing it selects.
#[derive(Debug, Clone, Copy, PartialEq, Eq, Structural)]
pub struct JumpLabel {
    pub row: usize,
    pub first: char,
    pub second: char,
}

/// What a multi-key input in progress stands for.
pub enum PendingView {
    Goto,
    Jump { labels: Seq<JumpLabel>, first: Option<char> },
}

/// What the panel asks its host to do.
#[derive(Debug, PartialEq, Eq)]
pub enum Request {
    /// Read this directory, hand its listing to the panel, and rebuild the rows.
    ReadDirectory(TreePath),
    /// Open this file in the editor.
    OpenFile(TreePath),
}

/// What a [`Request`] stands for.
pub enum RequestView {
    ReadDirectory(PathView),
    OpenFile(PathView),
}

impl View for Request {
    type V = RequestView;

    open spec fn view(&self) -> RequestView {
        match self {
            Request::ReadDirectory(dir) => RequestView::ReadDirectory(dir@),
            Request::OpenFile(path) => RequestView::OpenFile(path@),
        }
    }
}

/// What an optional request stands for.
pub open spec fn request_view(request: Option<Request>) -> Option<RequestView> {
    match request {
        Some(request) => Some(request@),
        None => None,
    }
}

/// A directory that must be read, as a request.
pub open spec fn read_request(missing: Option<PathView>) -> Option<RequestView> {
    match missing {
        Some(dir) => Some(RequestView::ReadDirectory(dir)),
        None => None,
    }
}

/// What holds of a panel after an event, given what it asks for.
pub open spec fn answered(panel: PanelView, request: Option<Request>) -> bool {
    match request {
        Some(Request::ReadDirectory(dir)) => panel.expanded.contains(dir@),
        _ => panel.settled(),
    }
}

/// The state of a panel.
#[verifier::ext_equal]
pub struct PanelView {
    pub root: PathView,
    /// The root as the system writes it, for a root without a name.
    pub root_display: Seq<char>,
    pub focused: bool,
    pub expanded: Set<PathView>,
    pub children: Map<PathView, Seq<EntryView>>,
    pub rows: Seq<RowView>,
    pub selection: nat,
    pub scroll: nat,
    pub area: Rect,
    pub last_revealed: Option<PathView>,
    pub ensure_visible: bool,
    pub width_override: Option<u16>,
    pub resizing: bool,
    pub pending: Option<PendingView>,
}

/// A panel after an event, and what it asks for.
pub struct Step {
    pub panel: PanelView,
    pub request: Option<RequestView>,
}

/// A panel after a mouse event, what it asks for, and what became of the event;
/// no result means that the event was not the panel's.
pub struct MouseStep {
    pub panel: PanelView,
    pub request: Option<RequestView>,
    pub result: Option<EventResult>,
}

/// The label of row `row`, where it is the `i`-th to be labelled: the `i`-th
/// pair over the alphabet, the second character changing fastest.
pub open spec fn jump_label(row: int, i: int, alphabet: Seq<char>) -> JumpLabel {
    JumpLabel {
        row: row as usize,
        first: alphabet[i / alphabet.len() as int],
        second: alphabet[i % alphabet.len() as int],
    }
}

/// Labels for `count` rows from `start` on.
pub open spec fn jump_labels(start: int, count: nat, alphabet: Seq<char>) -> Seq<JumpLabel> {
    Seq::new(count, |i: int| jump_label(start + i, i, alphabet))
}

/// Label `i` is the first one whose second character is `ch`.
pub open spec fn is_first_label(labels: Seq<JumpLabel>, ch: char, i: int) -> bool {
    &&& 0 <= i < labels.len()
    &&& labels[i].second == ch
    &&& forall|j: int| 0 <= j < i ==> (#[trigger] labels[j]).second != ch
}

impl PanelView {
    pub open spec fn tree(self) -> Tree {
        Tree { root: self.root, children: self.children, expanded: self.expanded }
    }

    /// Every directory that is to be shown has been read, and the rows show
    /// them. The panel is so between events, once its requests are answered.
    pub open spec fn settled(self) -> bool {
        &&& self.tree().first_missing() is None
        &&& self.rows == self.tree().all_rows()
    }

    /// What always holds of a panel.
    pub open spec fn valid(self) -> bool {
        &&& self.tree().valid()
        &&& self.expanded.contains(self.root)
        // listings are kept for expanded directories only
        &&& self.children.dom().subset_of(self.expanded)
        &&& forall|i: int| 0 <= i < self.rows.len() ==> below((#[trigger] self.rows[i]).path, self.root)
        // rebuilding the rows never leaves fewer of them than a jump label counts on
        &&& self.rows.len() <= self.tree().all_rows().len()
        // the selection is a row
        &&& self.selection < self.rows.len() || self.rows.len() == 0 && self.selection == 0
        &&& self.labels_in_range()
        &&& self.width_override matches Some(width) ==> width >= MIN_WIDTH
    }

    /// Every jump label names a row.
    pub open spec fn labels_in_range(self) -> bool {
        self.pending matches Some(PendingView::Jump { labels, first }) ==> forall|i: int|
            0 <= i < labels.len() ==> (#[trigger] labels[i]).row < self.rows.len()
    }

    /// The last row, or the first if there is none.
    pub open spec fn last_row(self) -> nat {
        max(self.rows.len() - 1, 0) as nat
    }

    /// The number of tree rows that fit in the panel, below the header.
    pub open spec fn view_height(self) -> nat {
        max(self.area.height - HEADER_HEIGHT, 0) as nat
    }

    /// A panel on `root`, of which `listing` was read.
    pub open spec fn opened(
        root: PathView,
        root_display: Seq<char>,
        listing: Seq<EntryView>,
    ) -> PanelView {
        PanelView {
            root,
            root_display,
            focused: false,
            expanded: Set::empty().insert(root),
            children: Map::empty().insert(root, listing),
            rows: listing.map_values(
                |e: EntryView| RowView { path: e.path, is_dir: e.is_dir, depth: 0 },
            ),
            selection: 0,
            scroll: 0,
            area: Rect { x: 0, y: 0, width: 0, height: 0 },
            last_revealed: None,
            ensure_visible: true,
            width_override: None,
            resizing: false,
            pending: None,
        }
    }

    /// The listing of `dir` is kept, unless there is one already. A directory
    /// that cannot be read counts as empty.
    pub open spec fn with_listing(self, dir: PathView, listing: Option<Seq<EntryView>>) -> PanelView {
        if self.children.contains_key(dir) {
            self
        } else {
            PanelView {
                children: self.children.insert(
                    dir,
                    match listing {
                        Some(entries) => entries,
                        None => Seq::empty(),
                    },
                ),
                ..self
            }
        }
    }

    /// The rows show the tree, and the selection stays on a row. While a
    /// directory must be read first, nothing changes.
    pub open spec fn rebuilt(self) -> Step {
        match self.tree().first_missing() {
            Some(dir) => Step { panel: self, request: Some(RequestView::ReadDirectory(dir)) },
            None => Step {
                panel: PanelView {
                    rows: self.tree().all_rows(),
                    selection: min(
                        self.selection as int,
                        max(self.tree().all_rows().len() - 1, 0),
                    ) as nat,
                    ..self
                },
                request: None,
            },
        }
    }

    /// `path` is recorded as revealed and, where it is under the root, all its
    /// ancestors from the root down are expanded.
    pub open spec fn revealing(self, path: PathView) -> PanelView {
        PanelView {
            last_revealed: Some(path),
            expanded: if starts_with(path, self.root) {
                self.expanded.union(
                    Set::new(|dir: PathView| is_ancestor(dir, path) && starts_with(dir, self.root)),
                )
            } else {
                self.expanded
            },
            ..self
        }
    }

    /// `path` is revealed: once the rows are rebuilt, its row is selected.
    pub open spec fn revealed(self, path: PathView) -> Step {
        let started = self.revealing(path);
        if !starts_with(path, self.root) {
            Step { panel: started, request: None }
        } else {
            let step = started.rebuilt();
            if step.request is Some {
                step
            } else {
                match first_row_of(step.panel.rows, path) {
                    Some(i) => Step { panel: step.panel.at_row(i as nat), request: None },
                    None => step,
                }
            }
        }
    }

    /// Row `i` is selected and will be scrolled into view.
    pub open spec fn at_row(self, i: nat) -> PanelView {
        PanelView { selection: i, ensure_visible: true, ..self }
    }

    /// An expanded `dir` is collapsed and its listing forgotten; any other
    /// `dir` is expanded.
    pub open spec fn flipped(self, dir: PathView) -> PanelView {
        if self.expanded.contains(dir) {
            PanelView {
                expanded: self.expanded.remove(dir),
                children: self.children.remove(dir),
                ..self
            }
        } else {
            PanelView { expanded: self.expanded.insert(dir), ..self }
        }
    }

    pub open spec fn toggled(self, dir: PathView) -> Step {
        self.flipped(dir).rebuilt()
    }

    /// The selection moved by `offset` rows, as far as there are rows.
    pub open spec fn moved(self, offset: int) -> PanelView {
        if self.rows.len() == 0 {
            self
        } else {
            self.at_row(min(max(self.selection + offset, 0), self.rows.len() - 1) as nat)
        }
    }

    /// The parent directory's row is selected, if there is one.
    pub open spec fn at_parent(self) -> PanelView {
        match parent_row(self.rows, self.selection as int) {
            Some(i) => self.at_row(i as nat),
            None => self,
        }
    }

    pub open spec fn parent_collapsed(self) -> Step {
        if self.selection < self.rows.len() && self.rows[self.selection as int].depth > 0 {
            let moved = self.at_parent();
            let path = moved.rows[moved.selection as int].path;
            if moved.expanded.contains(path) {
                moved.toggled(path)
            } else {
                Step { panel: moved, request: None }
            }
        } else {
            Step { panel: self, request: None }
        }
    }

    /// A selected expanded directory is collapsed; else the parent is selected.
    pub open spec fn collapsed(self) -> Step {
        if self.selection < self.rows.len() && self.tree().opens(
            self.rows[self.selection as int].path,
            self.rows[self.selection as int].is_dir,
        ) {
            self.toggled(self.rows[self.selection as int].path)
        } else {
            Step { panel: self.at_parent(), request: None }
        }
    }

    /// A selected directory is toggled; a selected file is opened, and the
    /// panel gives up the focus.
    pub open spec fn activated(self) -> Step {
        if self.selection < self.rows.len() {
            let row = self.rows[self.selection as int];
            if row.is_dir {
                self.toggled(row.path)
            } else {
                Step {
                    panel: PanelView { focused: false, ..self },
                    request: Some(RequestView::OpenFile(row.path)),
                }
            }
        } else {
            Step { panel: self, request: None }
        }
    }

    /// The number of rows that get a jump label: those in view, as far as
    /// there are pairs over an alphabet of `n` characters.
    pub open spec fn label_count(self, n: nat) -> nat {
        min(
            max(
                min((self.scroll + self.view_height()) as int, self.rows.len() as int) - self.scroll,
                0,
            ),
            (n * n) as int,
        ) as nat
    }

    /// The rows in view are labelled, and a label is awaited.
    pub open spec fn jump_started(self, alphabet: Seq<char>) -> PanelView {
        if self.label_count(alphabet.len()) == 0 {
            self
        } else {
            PanelView {
                pending: Some(
                    PendingView::Jump {
                        labels: jump_labels(
                            self.scroll as int,
                            self.label_count(alphabet.len()),
                            alphabet,
                        ),
                        first: None,
                    },
                ),
                ..self
            }
        }
    }

    /// The next key of the multi-key input `pending`. The panel itself no
    /// longer holds it, so a key that does not continue it cancels it.
    pub open spec fn after_pending_key(
        self,
        pending: PendingView,
        event: KeyEvent,
        alphabet: Seq<char>,
    ) -> PanelView {
        match (pending, event.typed()) {
            (_, None) => self,
            (PendingView::Goto, Some(ch)) => if ch == 'g' {
                self.at_row(0)
            } else if ch == 'e' {
                self.at_row(self.last_row())
            } else if ch == 'w' {
                self.jump_started(alphabet)
            } else {
                self
            },
            (PendingView::Jump { labels, first }, Some(ch)) => if first is None {
                let remaining = labels.filter(|label: JumpLabel| label.first == ch);
                if remaining.len() == 0 {
                    self
                } else {
                    PanelView {
                        pending: Some(PendingView::Jump { labels: remaining, first: Some(ch) }),
                        ..self
                    }
                }
            } else if exists|i: int| is_first_label(labels, ch, i) {
                let i = choose|i: int| is_first_label(labels, ch, i);
                self.at_row(labels[i].row as nat)
            } else {
                self
            },
        }
    }

    /// The width of the panel on screen changed by `delta`, kept for good.
    pub open spec fn widened(self, delta: int) -> PanelView {
        PanelView {
            width_override: Some(
                max(
                    min(max(self.area.width + delta, 0), u16::MAX as int),
                    MIN_WIDTH as int,
                ) as u16,
            ),
            ..self
        }
    }

    pub open spec fn after_command(self, command: Command) -> Step {
        let page = max(self.view_height() as int, 1);
        let half_page = max(self.view_height() as int / 2, 1);
        match command {
            Command::Activate => self.activated(),
            Command::Collapse => self.collapsed(),
            Command::CollapseParent => self.parent_collapsed(),
            Command::Unfocus => Step { panel: PanelView { focused: false, ..self }, request: None },
            Command::SelectNext => Step { panel: self.moved(1), request: None },
            Command::SelectPrevious => Step { panel: self.moved(-1), request: None },
            Command::Narrow => Step { panel: self.widened(-2), request: None },
            Command::Widen => Step { panel: self.widened(2), request: None },
            Command::StartGoto => Step {
                panel: PanelView { pending: Some(PendingView::Goto), ..self },
                request: None,
            },
            Command::HalfPageDown => Step { panel: self.moved(half_page), request: None },
            Command::HalfPageUp => Step { panel: self.moved(-half_page), request: None },
            Command::PageDown => Step { panel: self.moved(page), request: None },
            Command::PageUp => Step { panel: self.moved(-page), request: None },
            Command::Swallow => Step { panel: self, request: None },
        }
    }

    /// A key press: the next key of a multi-key input where one is in
    /// progress, else a command.
    pub open spec fn after_key(self, event: KeyEvent, alphabet: Seq<char>) -> Step {
        match self.pending {
            Some(pending) => Step {
                panel: PanelView { pending: None, ..self }.after_pending_key(
                    pending,
                    event,
                    alphabet,
                ),
                request: None,
            },
            None => self.after_command(command_of(event)),
        }
    }

    /// A drag of the border to `column`.
    pub open spec fn dragged(self, column: u16) -> PanelView {
        PanelView {
            width_override: Some(
                max(max(column - self.area.x, 0) + 1, MIN_WIDTH as int) as u16,
            ),
            ..self
        }
    }

    /// A press of the left button inside the panel.
    pub open spec fn clicked(self, column: u16, row: u16) -> Step {
        let calm = PanelView { pending: None, ..self };
        let i = row - self.area.y - HEADER_HEIGHT + self.scroll;
        if column == self.area.x + self.area.width - 1 {
            Step { panel: PanelView { resizing: true, ..calm }, request: None }
        } else if row >= self.area.y + HEADER_HEIGHT && i < self.rows.len() {
            PanelView { selection: i as nat, ..calm }.activated()
        } else {
            Step { panel: calm, request: None }
        }
    }

    /// A mouse event, with the number of lines that one scroll step moves.
    pub open spec fn after_mouse(self, event: MouseEvent, lines: nat) -> MouseStep {
        if self.resizing {
            MouseStep {
                panel: match event.kind {
                    MouseEventKind::Drag(MouseButton::Left) => self.dragged(event.column),
                    MouseEventKind::Up(_) => PanelView { resizing: false, ..self },
                    _ => self,
                },
                request: None,
                result: Some(EventResult::Consumed),
            }
        } else if !self.area.contains(event.column, event.row) {
            MouseStep { panel: self, request: None, result: None }
        } else {
            match event.kind {
                MouseEventKind::Down(MouseButton::Left) => {
                    let step = self.clicked(event.column, event.row);
                    MouseStep {
                        panel: step.panel,
                        request: step.request,
                        result: Some(EventResult::Consumed),
                    }
                },
                MouseEventKind::ScrollUp => MouseStep {
                    panel: PanelView { scroll: max(self.scroll - lines, 0) as nat, ..self },
                    request: None,
                    result: Some(EventResult::Consumed),
                },
                MouseEventKind::ScrollDown => MouseStep {
                    panel: PanelView {
                        scroll: min((self.scroll + lines) as int, self.last_row() as int) as nat,
                        ..self
                    },
                    request: None,
                    result: Some(EventResult::Consumed),
                },
                _ => MouseStep {
                    panel: self,
                    request: None,
                    result: Some(EventResult::Ignored),
                },
            }
        }
    }

    /// The directory to read next is expanded, and was not read yet.
    pub proof fn lemma_missing(self)
        requires
            self.valid(),
        ensures
            self.tree().first_missing() matches Some(dir) ==> self.expanded.contains(dir)
                && !self.children.contains_key(dir),
    {
        if self.children.contains_key(self.root) {
            self.tree().lemma_missing_below(self.root, 0);
        }
    }

    /// A panel stays valid when a listing is handed to it.
    pub proof fn lemma_with_listing(self, dir: PathView, listing: Option<Seq<EntryView>>)
        requires
            self.valid(),
            self.expanded.contains(dir),
            listing matches Some(entries) ==> is_listing_of(entries, dir),
        ensures
            self.with_listing(dir, listing).valid(),
    {
        let after = self.with_listing(dir, listing);
        if !self.children.contains_key(dir) {
            after.tree().lemma_extends(self.tree(), self.root, 0, 0);
        }
    }

    /// A panel stays valid when its rows are rebuilt, and then is settled
    /// unless a directory must be read.
    pub proof fn lemma_rebuilt(self)
        requires
            self.valid(),
        ensures
            self.rebuilt().panel.valid(),
            self.rebuilt().request is None ==> self.rebuilt().panel.settled(),
            self.rebuilt().request is Some ==> self.rebuilt().panel == self,
    {
        self.tree().lemma_rows_below(self.root, 0, 0);
    }

    /// A panel stays valid when the ancestors of a path are expanded.
    pub proof fn lemma_revealing(self, path: PathView)
        requires
            self.valid(),
        ensures
            self.revealing(path).valid(),
    {
        let after = self.revealing(path);
        if starts_with(path, self.root) {
            lemma_ancestors_finite(path);
            let ancestors = Set::new(|dir: PathView| is_ancestor(dir, path));
            let added = Set::new(
                |dir: PathView| is_ancestor(dir, path) && starts_with(dir, self.root),
            );
            vstd::set_lib::lemma_len_subset(added, ancestors);
            after.tree().lemma_extends(self.tree(), self.root, 0, 0);
        }
    }

    /// A settled panel stays valid when a directory in it is toggled.
    pub proof fn lemma_toggled(self, dir: PathView)
        requires
            self.valid(),
            self.settled(),
            self.pending is None,
            below(dir, self.root),
        ensures
            self.toggled(dir).panel.valid(),
            self.toggled(dir).request is None ==> self.toggled(dir).panel.settled(),
            self.toggled(dir).request is Some ==> self.toggled(dir).panel == self.flipped(dir),
            self.expanded.contains(dir) ==> self.toggled(dir).request is None,
    {
        let flipped = self.flipped(dir);
        if self.expanded.contains(dir) {
            self.tree().lemma_without(dir, self.root, 0);
            flipped.tree().lemma_rows_below(self.root, 0, 0);
        } else {
            flipped.tree().lemma_extends(self.tree(), self.root, 0, 0);
            flipped.lemma_rebuilt();
        }
    }

    /// The panel as it is drawn into `area`: where the selection is to be
    /// visible, the rows are scrolled just so far that it is.
    pub open spec fn placed(self, area: Rect) -> PanelView {
        let placed = PanelView { area, ..self };
        let height = placed.view_height();
        if area.width == 0 || area.height == 0 {
            placed
        } else {
            let followed = if self.ensure_visible && height > 0 {
                PanelView {
                    scroll: if self.selection < self.scroll {
                        self.selection
                    } else if self.selection >= self.scroll + height {
                        (self.selection + 1 - height) as nat
                    } else {
                        self.scroll
                    },
                    ensure_visible: false,
                    ..placed
                }
            } else {
                placed
            };
            PanelView {
                scroll: min(followed.scroll as int, self.last_row() as int) as nat,
                ..followed
            }
        }
    }
}

} // verus!
