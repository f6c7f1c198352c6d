//! The panel's reactions to the keyboard.

use vstd::math::abs;
use vstd::prelude::*;

use super::{path_view, FileTreePanel, Pending};
use crate::input::{Command, KeyEvent};
use crate::model::{
    answered, is_first_label, jump_labels, read_request, request_view, JumpLabel, PanelView, Request,
    HEADER_HEIGHT, MIN_WIDTH,
};
use crate::path::TreePath;
use crate::tree::is_parent_row;

verus! {

/// The magnitude of a number.
pub(super) fn magnitude(n: isize) -> (res: usize)
    ensures
        res == abs(n as int),
{
    if n >= 0 {
        n as usize
    } else {
        (-(n + 1)) as usize + 1
    }
}

/// A directory that must be read, as a request.
pub(super) fn to_request(missing: Option<TreePath>) -> (res: Option<Request>)
    ensures
        request_view(res) == read_request(path_view(missing)),
        missing is None <==> res is None,
        missing matches Some(dir) ==> res == Some(Request::ReadDirectory(dir)),
{
    match missing {
        Some(dir) => Some(Request::ReadDirectory(dir)),
        None => None,
    }
}

impl FileTreePanel {
    /// Moves the selection by `offset` rows, as far as there are rows.
    fn move_selection(&mut self, offset: isize)
        requires
            old(self).wf(),
        ensures
            final(self).wf(),
            final(self)@ == old(self)@.moved(offset as int),
    {
        if self.rows.len() == 0 {
            return;
        }
        let last: usize = self.rows.len() - 1;
        let target: usize = if offset < 0 {
            self.selection.saturating_sub(magnitude(offset))
        } else {
            self.selection.saturating_add(magnitude(offset))
        };
        self.selection = if target > last {
            last
        } else {
            target
        };
        self.ensure_visible = true;
    }

    /// The number of tree rows that fit in the panel, below the header.
    pub(super) fn view_height(&self) -> (res: usize)
        ensures
            res == self@.view_height(),
            res <= u16::MAX,
    {
        self.area.height.saturating_sub(HEADER_HEIGHT) as usize
    }

    /// Moves the selection to the parent directory's row.
    fn select_parent(&mut self)
        requires
            old(self).wf(),
        ensures
            final(self).wf(),
            final(self)@ == old(self)@.at_parent(),
    {
        let ghost rows = self@.rows;
        if self.selection >= self.rows.len() {
            return;
        }
        let depth: usize = self.rows[self.selection].depth;
        if depth == 0 {
            return;
        }
        let mut i: usize = self.selection;
        while i > 0
            invariant
                i <= self.selection < self.rows.len(),
                self == old(self),
                self.wf(),
                rows == self@.rows,
                depth > 0,
                rows[self.selection as int].depth == depth,
                forall|j: int| i <= j < self.selection ==> (#[trigger] rows[j]).depth + 1 != depth,
            decreases i,
        {
            i -= 1;
            if self.rows[i].depth == depth - 1 {
                assert(is_parent_row(rows, self.selection as int, i as int));
                self.selection = i;
                self.ensure_visible = true;
                return;
            }
        }
    }

    /// Moves the selection to the parent directory's row and collapses it.
    fn collapse_parent(&mut self) -> (res: Option<Request>)
        requires
            old(self).wf(),
            old(self)@.settled(),
            old(self)@.pending is None,
        ensures
            final(self).wf(),
            final(self)@ == old(self)@.parent_collapsed().panel,
            request_view(res) == old(self)@.parent_collapsed().request,
            answered(final(self)@, res),
    {
        let on_child = self.selection < self.rows.len() && self.rows[self.selection].depth > 0;
        if !on_child {
            return None;
        }
        self.select_parent();
        let path = self.rows[self.selection].path.clone();
        if self.expanded.contains(&path) {
            to_request(self.toggle_dir(&path))
        } else {
            None
        }
    }

    /// Toggles the selected directory, or asks for the selected file to be
    /// opened and gives up the focus.
    pub(super) fn activate_selection(&mut self) -> (res: Option<Request>)
        requires
            old(self).wf(),
            old(self)@.settled(),
            old(self)@.pending is None,
        ensures
            final(self).wf(),
            final(self)@ == old(self)@.activated().panel,
            request_view(res) == old(self)@.activated().request,
            answered(final(self)@, res),
    {
        if self.selection >= self.rows.len() {
            return None;
        }
        let path = self.rows[self.selection].path.clone();
        let is_dir = self.rows[self.selection].is_dir;
        if is_dir {
            to_request(self.toggle_dir(&path))
        } else {
            self.focused = false;
            Some(Request::OpenFile(path))
        }
    }

    /// Collapses the selected directory if it is expanded, else moves to the
    /// parent directory's row.
    fn collapse_selection(&mut self) -> (res: Option<Request>)
        requires
            old(self).wf(),
            old(self)@.settled(),
            old(self)@.pending is None,
        ensures
            final(self).wf(),
            final(self)@ == old(self)@.collapsed().panel,
            request_view(res) == old(self)@.collapsed().request,
            answered(final(self)@, res),
    {
        if self.selection < self.rows.len() {
            if self.rows[self.selection].is_dir && self.expanded.contains(
                &self.rows[self.selection].path,
            ) {
                let path = self.rows[self.selection].path.clone();
                return to_request(self.toggle_dir(&path));
            }
        }
        self.select_parent();
        None
    }

    /// Changes the width of the panel on screen by `delta`.
    fn adjust_width(&mut self, delta: i16)
        requires
            old(self).wf(),
        ensures
            final(self).wf(),
            final(self)@ == old(self)@.widened(delta as int),
    {
        let wanted: i32 = self.area.width as i32 + delta as i32;
        let width: u16 = if wanted < MIN_WIDTH as i32 {
            MIN_WIDTH
        } else if wanted > u16::MAX as i32 {
            u16::MAX
        } else {
            wanted as u16
        };
        self.width_override = Some(width);
    }

    /// Labels the visible rows with two-char jump labels, like the editor's `gw`.
    fn start_jump(&mut self, alphabet: &Vec<char>)
        requires
            old(self).wf(),
            old(self)@.pending is None,
        ensures
            final(self).wf(),
            final(self)@ == old(self)@.jump_started(alphabet@),
    {
        let n: usize = alphabet.len();
        let below_view: usize = self.scroll.saturating_add(self.view_height());
        let end: usize = if below_view < self.rows.len() {
            below_view
        } else {
            self.rows.len()
        };
        proof {
            assert(n * n >= 0 && (n == 0 ==> n * n == 0)) by (nonlinear_arith);
        }
        if n == 0 || self.scroll >= end {
            return;
        }
        let visible: usize = end - self.scroll;
        let count: usize = match n.checked_mul(n) {
            Some(pairs) => if pairs < visible {
                pairs
            } else {
                visible
            },
            None => visible,
        };
        assert(count > 0) by {
            assert(n * n > 0) by (nonlinear_arith)
                requires
                    n > 0,
            ;
        }
        let mut labels: Vec<JumpLabel> = Vec::new();
        let mut i: usize = 0;
        while i < count
            invariant
                i <= count <= n * n,
                count <= end - self.scroll,
                self.scroll <= end <= self.rows.len(),
                n == alphabet@.len(),
                n > 0,
                labels@ == jump_labels(self.scroll as int, i as nat, alphabet@),
            decreases count - i,
        {
            proof {
                assert(i / n < n) by (nonlinear_arith)
                    requires
                        i < n * n,
                        n > 0,
                ;
            }
            labels.push(
                JumpLabel {
                    row: self.scroll + i,
                    first: alphabet[i / n],
                    second: alphabet[i % n],
                },
            );
            proof {
                let next = jump_labels(self.scroll as int, (i + 1) as nat, alphabet@);
                assert(next[i as int] == labels@[i as int]);
            }
            i += 1;
        }
        self.pending = Some(Pending::Jump { labels, first: None });
    }

    /// Handles the next key of a pending multi-key input. The pending state
    /// has already been taken, so falling through cancels the sequence.
    fn handle_pending_key(&mut self, pending: Pending, event: &KeyEvent, alphabet: &Vec<char>)
        requires
            old(self).wf(),
            old(self)@.pending is None,
            (PanelView { pending: Some(pending@), ..old(self)@ }).valid(),
        ensures
            final(self).wf(),
            final(self)@ == old(self)@.after_pending_key(pending@, *event, alphabet@),
            final(self)@.tree() == old(self)@.tree(),
            final(self)@.rows == old(self)@.rows,
    {
        let ch = match event.typed_char() {
            Some(ch) => ch,
            None => {
                return;
            },
        };
        match pending {
            Pending::Goto => {
                if ch == 'g' {
                    self.selection = 0;
                    self.ensure_visible = true;
                } else if ch == 'e' {
                    self.selection = self.rows.len().saturating_sub(1);
                    self.ensure_visible = true;
                } else if ch == 'w' {
                    self.start_jump(alphabet);
                }
            },
            Pending::Jump { labels, first } => {
                if first.is_none() {
                    let remaining = labels_starting_with(&labels, ch);
                    if remaining.len() > 0 {
                        self.pending = Some(Pending::Jump { labels: remaining, first: Some(ch) });
                    }
                } else {
                    match label_ending_with(&labels, ch) {
                        Some(i) => {
                            self.selection = labels[i].row;
                            self.ensure_visible = true;
                        },
                        None => {},
                    }
                }
            },
        }
    }

    /// Handles a key press while the panel has the focus. `alphabet` are the
    /// characters that jump labels are made of.
    pub fn handle_key_event(&mut self, event: &KeyEvent, alphabet: &Vec<char>) -> (res: Option<
        Request,
    >)
        requires
            old(self).wf(),
            old(self)@.settled(),
        ensures
            final(self).wf(),
            final(self)@ == old(self)@.after_key(*event, alphabet@).panel,
            request_view(res) == old(self)@.after_key(*event, alphabet@).request,
            answered(final(self)@, res),
    {
        match self.pending.take() {
            Some(pending) => {
                self.handle_pending_key(pending, event, alphabet);
                return None;
            },
            None => {},
        }
        let page: usize = if self.view_height() > 1 {
            self.view_height()
        } else {
            1
        };
        let half_page: usize = if self.view_height() / 2 > 1 {
            self.view_height() / 2
        } else {
            1
        };
        match Command::of(event) {
            Command::Unfocus => {
                self.focused = false;
                None
            },
            Command::SelectNext => {
                self.move_selection(1);
                None
            },
            Command::SelectPrevious => {
                self.move_selection(-1);
                None
            },
            Command::Activate => self.activate_selection(),
            Command::Narrow => {
                self.adjust_width(-2);
                None
            },
            Command::Widen => {
                self.adjust_width(2);
                None
            },
            Command::Collapse => self.collapse_selection(),
            Command::CollapseParent => self.collapse_parent(),
            Command::StartGoto => {
                self.pending = Some(Pending::Goto);
                None
            },
            Command::HalfPageDown => {
                self.move_selection(half_page as isize);
                None
            },
            Command::HalfPageUp => {
                self.move_selection(-(half_page as isize));
                None
            },
            Command::PageDown => {
                self.move_selection(page as isize);
                None
            },
            Command::PageUp => {
                self.move_selection(-(page as isize));
                None
            },
            // Swallow everything else so keys never leak into the keymap
            // while the panel has focus.
            Command::Swallow => None,
        }
    }
}

/// The labels whose first character is `ch`, in order.
fn labels_starting_with(labels: &Vec<JumpLabel>, ch: char) -> (res: Vec<JumpLabel>)
    ensures
        res@ == labels@.filter(|label: JumpLabel| label.first == ch),
        forall|i: int| 0 <= i < res@.len() ==> labels@.contains(#[trigger] res@[i]),
{
    let ghost chosen = |label: JumpLabel| label.first == ch;
    let mut res: Vec<JumpLabel> = Vec::new();
    let mut i: usize = 0;
    while i < labels.len()
        invariant
            i <= labels.len(),
            chosen == (|label: JumpLabel| label.first == ch),
            res@ == labels@.take(i as int).filter(chosen),
            forall|j: int| 0 <= j < res@.len() ==> labels@.contains(#[trigger] res@[j]),
        decreases labels.len() - i,
    {
        proof {
            reveal(Seq::filter);
            assert(labels@.take(i + 1).drop_last() =~= labels@.take(i as int));
        }
        if labels[i].first == ch {
            res.push(labels[i]);
        }
        i += 1;
    }
    assert(labels@.take(labels@.len() as int) =~= labels@);
    res
}

/// The first label whose second character is `ch`.
fn label_ending_with(labels: &Vec<JumpLabel>, ch: char) -> (res: Option<usize>)
    ensures
        match res {
            Some(i) => is_first_label(labels@, ch, i as int),
            None => forall|i: int| !is_first_label(labels@, ch, i),
        },
{
    let mut i: usize = 0;
    while i < labels.len()
        invariant
            i <= labels.len(),
            forall|j: int| 0 <= j < i ==> (#[trigger] labels@[j]).second != ch,
        decreases labels.len() - i,
    {
        if labels[i].second == ch {
            return Some(i);
        }
        i += 1;
    }
    None
}

} // verus!
