//! The terms that the laws are stated in.

use vstd::prelude::*;

use crate::input::{KeyCode, KeyEvent, KeyModifiers, Rect};
use crate::model::PanelView;
use crate::path::PathView;
use crate::tree::RowView;

verus! {

/// A key press without modifiers.
pub open spec fn plain(code: KeyCode) -> KeyEvent {
    KeyEvent {
        code,
        modifiers: KeyModifiers { shift: false, control: false, alt: false, logo: false },
    }
}

/// A key press of a character with control held.
pub open spec fn with_control(ch: char) -> KeyEvent {
    KeyEvent {
        code: KeyCode::Char(ch),
        modifiers: KeyModifiers { shift: false, control: true, alt: false, logo: false },
    }
}

/// The lines of an area that are left for rows: all but the header's.
pub open spec fn room(area: Rect) -> int {
    if area.height == 0 {
        0
    } else {
        area.height - 1
    }
}

/// The cell lies in the area.
pub open spec fn covers(area: Rect, column: u16, row: u16) -> bool {
    &&& area.x <= column
    &&& column < area.x + area.width
    &&& area.y <= row
    &&& row < area.y + area.height
}

/// Row `i` is in view: it is scrolled neither off the top nor off the bottom.
pub open spec fn in_view(panel: PanelView, i: int) -> bool {
    &&& panel.scroll <= i
    &&& i < panel.rows.len()
    &&& i - panel.scroll < room(panel.area)
}

/// The panel with `dir` collapsed and forgotten if it was expanded, and
/// expanded if it was not.
pub open spec fn flip(panel: PanelView, dir: PathView) -> PanelView {
    if panel.expanded.contains(dir) {
        PanelView {
            expanded: panel.expanded.remove(dir),
            children: panel.children.remove(dir),
            ..panel
        }
    } else {
        PanelView { expanded: panel.expanded.insert(dir), ..panel }
    }
}

/// Row `i` is the nearest row above row `at` that is one level less deep.
pub open spec fn is_nearest_less_deep(rows: Seq<RowView>, at: int, i: int) -> bool {
    &&& 0 <= i
    &&& i < at
    &&& at < rows.len()
    &&& rows[i].depth == rows[at].depth - 1
    &&& forall|j: int| i < j && j < at ==> (#[trigger] rows[j]).depth != rows[at].depth - 1
}

} // verus!
