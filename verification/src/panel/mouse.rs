//! The panel's reactions to the mouse.

use vstd::math::abs;
use vstd::prelude::*;

use super::keys::magnitude;
use super::FileTreePanel;
use crate::input::{EventResult, MouseButton, MouseEvent, MouseEventKind};
use crate::model::{answered, request_view, Request, HEADER_HEIGHT, MIN_WIDTH};

verus! {

impl FileTreePanel {
    /// A drag of the border to `column`.
    fn drag_border(&mut self, column: u16)
        requires
            old(self).wf(),
            column - old(self)@.area.x < u16::MAX,
        ensures
            final(self).wf(),
            final(self)@ == old(self)@.dragged(column),
    {
        let width: u16 = column.saturating_sub(self.area.x) + 1;
        self.width_override = Some(
            if width < MIN_WIDTH {
                MIN_WIDTH
            } else {
                width
            },
        );
    }

    /// A press of the left button inside the panel.
    fn click(&mut self, column: u16, row: u16) -> (res: Option<Request>)
        requires
            old(self).wf(),
            old(self)@.settled(),
            old(self)@.area.contains(column, row),
        ensures
            final(self).wf(),
            final(self)@ == old(self)@.clicked(column, row).panel,
            request_view(res) == old(self)@.clicked(column, row).request,
            answered(final(self)@, res),
    {
        self.pending = None;
        // grabbing the border column starts a resize drag
        if column - self.area.x == self.area.width - 1 {
            self.resizing = true;
            return None;
        }
        // clicks on the header row select nothing
        if row - self.area.y >= HEADER_HEIGHT {
            let line: usize = (row - self.area.y - HEADER_HEIGHT) as usize;
            let i: usize = line.saturating_add(self.scroll);
            if i < self.rows.len() {
                self.selection = i;
                return self.activate_selection();
            }
        }
        None
    }

    /// Handles a mouse event; `scroll_lines` is the number of lines that one
    /// step of the wheel moves. The event's result is `None` when it is
    /// outside the panel area, so that the caller can fall through to its
    /// regular mouse handling.
    pub fn handle_mouse_event(&mut self, event: &MouseEvent, scroll_lines: isize) -> (res: (
        Option<EventResult>,
        Option<Request>,
    ))
        requires
            old(self).wf(),
            old(self)@.settled(),
            // a dragged border leaves the panel a width that can be counted
            old(self)@.resizing && event.kind == MouseEventKind::Drag(MouseButton::Left)
                ==> event.column - old(self)@.area.x < u16::MAX,
        ensures
            final(self).wf(),
            ({
                let step = old(self)@.after_mouse(*event, abs(scroll_lines as int));
                &&& final(self)@ == step.panel
                &&& res.0 == step.result
                &&& request_view(res.1) == step.request
            }),
            answered(final(self)@, res.1),
    {
        // While dragging the border, capture all mouse events regardless of
        // bounds so the drag can move outside the panel.
        if self.resizing {
            match event.kind {
                MouseEventKind::Drag(MouseButton::Left) => self.drag_border(event.column),
                MouseEventKind::Up(_) => {
                    self.resizing = false;
                },
                _ => {},
            }
            return (Some(EventResult::Consumed), None);
        }
        let inside = event.column >= self.area.x && event.column - self.area.x < self.area.width
            && event.row >= self.area.y && event.row - self.area.y < self.area.height;
        if !inside {
            return (None, None);
        }
        match event.kind {
            MouseEventKind::Down(MouseButton::Left) => {
                let request = self.click(event.column, event.row);
                (Some(EventResult::Consumed), request)
            },
            MouseEventKind::ScrollUp => {
                self.scroll = self.scroll.saturating_sub(magnitude(scroll_lines));
                (Some(EventResult::Consumed), None)
            },
            MouseEventKind::ScrollDown => {
                let scroll: usize = self.scroll.saturating_add(magnitude(scroll_lines));
                let last: usize = self.rows.len().saturating_sub(1);
                self.scroll = if scroll < last {
                    scroll
                } else {
                    last
                };
                (Some(EventResult::Consumed), None)
            },
            _ => (Some(EventResult::Ignored), None),
        }
    }
}

} // verus!
