//! What each mouse event does.

use vstd::prelude::*;

use super::terms::{covers, flip};
use crate::input::{EventResult, MouseButton, MouseEvent, MouseEventKind, Rect};
use crate::model::{PanelView, RequestView};

verus! {

/// A cell lies in an area exactly if it lies right of the left edge and below the
/// top edge, and not beyond the width and the height.
pub proof fn law_areas(area: Rect, column: u16, row: u16)
    ensures
        area.contains(column, row) <==> covers(area, column, row),
        area.on_grid() <==> area.x + area.width <= 65535 && area.y + area.height <= 65535,
{
}

/// While the border is dragged, every event is captured, wherever it happens. A
/// move with the left button held brings the border under the pointer, as far as
/// the panel stays at least ten cells wide; a release ends the drag; nothing
/// else changes anything.
pub proof fn law_drag(panel: PanelView, event: MouseEvent, lines: nat)
    requires
        panel.resizing,
        event.kind == MouseEventKind::Drag(MouseButton::Left) ==> event.column - panel.area.x
            < u16::MAX,
    ensures
        ({
            let step = panel.after_mouse(event, lines);
            let width = step.panel.width_override;
            &&& step.result == Some(EventResult::Consumed)
            &&& step.request is None
            &&& match event.kind {
                MouseEventKind::Drag(MouseButton::Left) => {
                    &&& step.panel == (PanelView { width_override: width, ..panel })
                    &&& width is Some
                    &&& panel.area.x + 9 <= event.column ==> panel.area.x + width->0
                        == event.column + 1
                    &&& panel.area.x + 9 > event.column ==> width->0 == 10
                },
                MouseEventKind::Up(_) => step.panel == (PanelView { resizing: false, ..panel }),
                _ => step.panel == panel,
            }
        }),
{
}

/// A press of the left button inside the panel ends a sequence of keys and is
/// put to use. On the border it starts a drag. On the header or below the rows it
/// does no more. On a row it selects that row, and opens the file there and gives
/// up the focus, or toggles the directory there.
pub proof fn law_press(panel: PanelView, event: MouseEvent, lines: nat)
    requires
        !panel.resizing,
        covers(panel.area, event.column, event.row),
        event.kind == MouseEventKind::Down(MouseButton::Left),
    ensures
        ({
            let step = panel.after_mouse(event, lines);
            let calm = PanelView { pending: None, ..panel };
            // the row that is drawn below the header at the event's line
            let i = panel.scroll + (event.row - panel.area.y) - 1;
            let hit = PanelView { selection: i as nat, ..calm };
            &&& step.result == Some(EventResult::Consumed)
            &&& if event.column + 1 == panel.area.x + panel.area.width {
                step.panel == (PanelView { resizing: true, ..calm }) && step.request is None
            } else if event.row == panel.area.y || i >= panel.rows.len() {
                step.panel == calm && step.request is None
            } else if panel.rows[i].is_dir {
                let rebuilt = flip(hit, panel.rows[i].path).rebuilt();
                step.panel == rebuilt.panel && step.request == rebuilt.request
            } else {
                &&& step.panel == (PanelView { focused: false, ..hit })
                &&& step.request == Some(RequestView::OpenFile(panel.rows[i].path))
            }
        }),
{
}

/// A turn of the wheel scrolls by the given lines: up as far as the first row,
/// down as far as the last one. Nothing else changes; the selection does not.
pub proof fn law_wheel(panel: PanelView, event: MouseEvent, lines: nat)
    requires
        !panel.resizing,
        covers(panel.area, event.column, event.row),
        event.kind == MouseEventKind::ScrollUp || event.kind == MouseEventKind::ScrollDown,
    ensures
        ({
            let step = panel.after_mouse(event, lines);
            let scroll = step.panel.scroll;
            &&& step.result == Some(EventResult::Consumed)
            &&& step.request is None
            &&& step.panel == (PanelView { scroll, ..panel })
            &&& event.kind == MouseEventKind::ScrollUp ==> {
                &&& lines >= panel.scroll ==> scroll == 0
                &&& lines < panel.scroll ==> scroll + lines == panel.scroll
                &&& lines > 0 && panel.scroll > 0 ==> scroll < panel.scroll
            }
            &&& event.kind == MouseEventKind::ScrollDown ==> {
                &&& panel.scroll + lines < panel.rows.len() ==> scroll == panel.scroll + lines
                &&& panel.scroll + lines >= panel.rows.len() && panel.rows.len() > 0 ==> scroll + 1
                    == panel.rows.len()
                &&& panel.rows.len() == 0 ==> scroll == 0
                &&& lines > 0 && panel.scroll + 1 < panel.rows.len() ==> scroll > panel.scroll
            }
        }),
{
}

/// Turning the wheel up by as many lines as it was turned down leads back, where
/// there were rows enough to scroll down.
pub proof fn law_wheel_leads_back(panel: PanelView, down: MouseEvent, up: MouseEvent, lines: nat)
    requires
        !panel.resizing,
        covers(panel.area, down.column, down.row),
        covers(panel.area, up.column, up.row),
        down.kind == MouseEventKind::ScrollDown,
        up.kind == MouseEventKind::ScrollUp,
        panel.scroll + lines < panel.rows.len(),
    ensures
        panel.after_mouse(down, lines).panel.after_mouse(up, lines).panel == panel,
{
}

/// The panel after `times` turns of the wheel.
pub open spec fn turned(panel: PanelView, event: MouseEvent, lines: nat, times: nat) -> PanelView
    decreases times,
{
    if times == 0 {
        panel
    } else {
        turned(panel.after_mouse(event, lines).panel, event, lines, (times - 1) as nat)
    }
}

/// Turning the wheel up often enough reaches the first row.
pub proof fn law_wheel_reaches_top(panel: PanelView, event: MouseEvent, lines: nat, times: nat)
    requires
        !panel.resizing,
        covers(panel.area, event.column, event.row),
        event.kind == MouseEventKind::ScrollUp,
        lines > 0,
        times >= panel.scroll,
    ensures
        turned(panel, event, lines, times).scroll == 0,
    decreases times,
{
    if times > 0 {
        law_wheel_reaches_top(
            panel.after_mouse(event, lines).panel,
            event,
            lines,
            (times - 1) as nat,
        );
    }
}

/// Turning the wheel down often enough reaches the last row.
pub proof fn law_wheel_reaches_end(panel: PanelView, event: MouseEvent, lines: nat, times: nat)
    requires
        !panel.resizing,
        covers(panel.area, event.column, event.row),
        event.kind == MouseEventKind::ScrollDown,
        lines > 0,
        panel.scroll < panel.rows.len(),
        panel.scroll + times >= panel.rows.len() - 1,
    ensures
        turned(panel, event, lines, times).scroll + 1 == panel.rows.len(),
    decreases times,
{
    if times > 0 {
        law_wheel_reaches_end(
            panel.after_mouse(event, lines).panel,
            event,
            lines,
            (times - 1) as nat,
        );
    }
}

/// Every other event inside the panel is ignored, and nothing changes.
pub proof fn law_other_events_are_ignored(panel: PanelView, event: MouseEvent, lines: nat)
    requires
        !panel.resizing,
        covers(panel.area, event.column, event.row),
        event.kind != MouseEventKind::Down(MouseButton::Left),
        event.kind != MouseEventKind::ScrollUp,
        event.kind != MouseEventKind::ScrollDown,
    ensures
        panel.after_mouse(event, lines).result == Some(EventResult::Ignored),
        panel.after_mouse(event, lines).request is None,
        panel.after_mouse(event, lines).panel == panel,
{
}

/// A drag from the border follows the pointer and ends where the button is
/// released.
pub proof fn law_drag_from_press_to_release(
    panel: PanelView,
    grab: MouseEvent,
    drag: MouseEvent,
    release: MouseEvent,
    button: MouseButton,
    lines: nat,
)
    requires
        !panel.resizing,
        covers(panel.area, grab.column, grab.row),
        grab.column + 1 == panel.area.x + panel.area.width,
        grab.kind == MouseEventKind::Down(MouseButton::Left),
        drag.kind == MouseEventKind::Drag(MouseButton::Left),
        release.kind == MouseEventKind::Up(button),
        panel.area.x + 9 <= drag.column,
        drag.column - panel.area.x < u16::MAX,
    ensures
        panel.after_mouse(grab, lines).panel.after_mouse(drag, lines).panel.after_mouse(
            release,
            lines,
        ).panel == (PanelView {
            pending: None,
            width_override: Some((drag.column - panel.area.x + 1) as u16),
            ..panel
        }),
{
}

} // verus!
