//! What the panel draws: strings and styled areas, for its host to put on the
//! screen.

use vstd::math::min;
use vstd::prelude::*;
use vstd::utf8::{decode_utf8, valid_utf8};

use crate::input::Rect;
use crate::model::{JumpLabel, PanelView, PendingView, HEADER_HEIGHT};
use crate::path::{Name, NameView, PathView};

verus! {

/// The styles that the panel draws with.
#[derive(Debug, Clone, Copy, PartialEq, Eq, Structural)]
pub enum Style {
    /// The border column.
    Border,
    /// The root directory name.
    Header,
    /// A directory's row.
    Directory,
    /// A file's row.
    File,
    /// The selected row while the panel has the focus.
    FocusedSelection,
    /// The selected row while it has not.
    Selection,
    /// A jump label.
    JumpLabel,
}

impl Style {
    /// The theme scope that the style is taken from.
    pub fn scope(&self) -> (res: &'static str)
        ensures
            res@ == match *self {
                Style::Border => "ui.window"@,
                Style::Header => "ui.text.directory"@,
                Style::Directory => "ui.text.directory"@,
                Style::File => "ui.text"@,
                Style::FocusedSelection => "ui.menu.selected"@,
                Style::Selection => "ui.selection"@,
                Style::JumpLabel => "ui.virtual.jump-label"@,
            },
    {
        match self {
            Style::Border => "ui.window",
            Style::Header => "ui.text.directory",
            Style::Directory => "ui.text.directory",
            Style::File => "ui.text",
            Style::FocusedSelection => "ui.menu.selected",
            Style::Selection => "ui.selection",
            Style::JumpLabel => "ui.virtual.jump-label",
        }
    }

    /// Whether the style is drawn bold on top of its theme scope.
    pub fn is_bold(&self) -> (res: bool)
        ensures
            res == (*self == Style::Header),
    {
        match self {
            Style::Header => true,
            _ => false,
        }
    }
}

/// One drawing step.
#[derive(Debug, PartialEq, Eq)]
pub enum Draw {
    /// Draw `text` from the given cell on, at most `max_width` cells of it.
    Text { x: u16, y: u16, text: String, max_width: Option<usize>, style: Style },
    /// Give the cells of `area` a style.
    Fill { area: Rect, style: Style },
}

/// What a [`Draw`] stands for.
pub enum DrawView {
    Text { x: int, y: int, text: Seq<char>, max_width: Option<int>, style: Style },
    Fill { area: Rect, style: Style },
}

impl View for Draw {
    type V = DrawView;

    open spec fn view(&self) -> DrawView {
        match self {
            Draw::Text { x, y, text, max_width, style } => DrawView::Text {
                x: *x as int,
                y: *y as int,
                text: text@,
                max_width: match max_width {
                    Some(width) => Some(*width as int),
                    None => None,
                },
                style: *style,
            },
            Draw::Fill { area, style } => DrawView::Fill { area: *area, style: *style },
        }
    }
}

/// What the drawing steps stand for, one by one.
pub open spec fn draw_views(draws: Seq<Draw>) -> Seq<DrawView> {
    draws.map_values(|d: Draw| d@)
}

/// The text of `bytes`, with U+FFFD in place of what is not valid UTF-8.
pub uninterp spec fn lossy_text(bytes: Seq<u8>) -> Seq<char>;

/// `String::from_utf8_lossy`: the text depends on the bytes alone, and valid
/// UTF-8 is decoded as it is. What stands in place of other bytes is left
/// to the name `lossy_text`.
#[verifier::external_body]
pub(crate) fn lossy_string(bytes: &Vec<u8>) -> (res: String)
    ensures
        res@ == lossy_text(bytes@),
        valid_utf8(bytes@) ==> res@ == decode_utf8(bytes@),
{
    String::from_utf8_lossy(bytes).into_owned()
}

/// A 16-bit unit that starts a pair of UTF-16.
pub open spec fn is_high(unit: u16) -> bool {
    0xd800 <= unit < 0xdc00
}

/// A 16-bit unit that ends a pair of UTF-16.
pub open spec fn is_low(unit: u16) -> bool {
    0xdc00 <= unit < 0xe000
}

/// The text of `units` in UTF-16, with one U+FFFD in place of each surrogate
/// that is not part of a pair.
pub open spec fn wide_text(units: Seq<u16>) -> Seq<char>
    decreases units.len(),
{
    if units.len() == 0 {
        Seq::empty()
    } else if units.len() > 1 && is_high(units[0]) && is_low(units[1]) {
        seq![(0x10000 + (units[0] - 0xd800) * 0x400 + (units[1] - 0xdc00)) as char] + wide_text(
            units.skip(2),
        )
    } else if is_high(units[0]) || is_low(units[0]) {
        seq!['\u{fffd}'] + wide_text(units.skip(1))
    } else {
        seq![units[0] as char] + wide_text(units.skip(1))
    }
}

/// `String::from_utf16_lossy`: decodes UTF-16, and puts the replacement
/// character in place of each unpaired surrogate.
#[verifier::external_body]
pub(crate) fn lossy_wide_string(units: &Vec<u16>) -> (res: String)
    ensures
        res@ == wide_text(units@),
{
    String::from_utf16_lossy(units)
}

/// `String::push`: appends the character to the end of the string.
pub assume_specification[ String::push ](string: &mut String, ch: char)
    ensures
        final(string)@ == old(string)@.push(ch),
;

/// How a name is shown: as text, with replacement characters for what is not.
pub open spec fn shown(name: NameView) -> Seq<char> {
    match name {
        NameView::Bytes(bytes) => if valid_utf8(bytes) {
            decode_utf8(bytes)
        } else {
            lossy_text(bytes)
        },
        NameView::Wide(units) => wide_text(units),
    }
}

/// How a name is shown.
pub fn shown_string(name: &Name) -> (res: String)
    ensures
        res@ == shown(name@),
{
    match name {
        Name::Bytes(bytes) => lossy_string(bytes),
        Name::Wide(units) => lossy_wide_string(units),
    }
}

/// The name of the file or directory at `path`, empty where it has none.
pub open spec fn name_text(path: PathView) -> Seq<char> {
    if path.len() > 0 && path.last() is Normal {
        shown(path.last()->Normal_0)
    } else {
        Seq::empty()
    }
}

/// The text of a row: a file's name, or a directory's between an arrow that
/// says whether it is expanded and a slash.
pub open spec fn row_text(name: Seq<char>, is_dir: bool, is_expanded: bool) -> Seq<char> {
    if !is_dir {
        name
    } else if is_expanded {
        seq!['▾', ' '] + name + seq!['/']
    } else {
        seq!['▸', ' '] + name + seq!['/']
    }
}

/// The text of a row, from the name of its file or directory.
pub fn row_string(name: String, is_dir: bool, is_expanded: bool) -> (res: String)
    ensures
        res@ == row_text(name@, is_dir, is_expanded),
{
    if !is_dir {
        return name;
    }
    let mut text = String::new();
    text.push(
        if is_expanded {
            '▾'
        } else {
            '▸'
        },
    );
    text.push(' ');
    text.append(name.as_str());
    text.push('/');
    text
}

/// The text of the header, from the name of the root.
pub fn header_string(name: String) -> (res: String)
    ensures
        res@ == name@.push('/'),
{
    let mut text = name;
    text.push('/');
    text
}

/// What remains to be typed of a jump label.
pub open spec fn label_text(label: JumpLabel, first: Option<char>) -> Seq<char> {
    if first is None {
        seq![label.first, label.second]
    } else {
        seq![label.second]
    }
}

/// What remains to be typed of a jump label.
pub fn label_string(label: &JumpLabel, first: Option<char>) -> (res: String)
    ensures
        res@ == label_text(*label, first),
{
    let mut text = String::new();
    if first.is_none() {
        text.push(label.first);
    }
    text.push(label.second);
    text
}

/// The message shown when a file cannot be opened: what caused the error, if
/// that is known, else that the file, as the system writes its path, cannot be
/// opened.
pub open spec fn open_error_text(source: Option<Seq<char>>, display: Seq<char>) -> Seq<char> {
    match source {
        Some(text) => text,
        None => "unable to open \""@ + display + "\""@,
    }
}

/// Label `k` is the first one on row `i`.
pub open spec fn is_label_of(labels: Seq<JumpLabel>, i: int, k: int) -> bool {
    &&& 0 <= k < labels.len()
    &&& labels[k].row == i
    &&& forall|j: int| 0 <= j < k ==> (#[trigger] labels[j]).row != i
}

impl PanelView {
    /// The name shown in the header.
    pub open spec fn root_name(self) -> Seq<char> {
        if self.root.len() > 0 && self.root.last() is Normal {
            name_text(self.root)
        } else {
            self.root_display
        }
    }

    /// The column right of the rows, which is the border's.
    pub open spec fn border_x(self) -> int {
        self.area.x + self.area.width - 1
    }

    /// The border, down to and without line `to` of the area.
    pub open spec fn border_draws(self, to: nat) -> Seq<DrawView> {
        Seq::new(
            to,
            |i: int|
                DrawView::Text {
                    x: self.border_x(),
                    y: self.area.y + i,
                    text: "│"@,
                    max_width: None,
                    style: Style::Border,
                },
        )
    }

    pub open spec fn header_draw(self) -> DrawView {
        DrawView::Text {
            x: self.area.x as int,
            y: self.area.y as int,
            text: self.root_name().push('/'),
            max_width: Some(self.area.width - 1),
            style: Style::Header,
        }
    }

    /// The line of the screen that row `i` is drawn on.
    pub open spec fn row_y(self, i: int) -> int {
        self.area.y + HEADER_HEIGHT + (i - self.scroll)
    }

    /// The column at which row `i` starts, two cells further in per level.
    pub open spec fn row_x(self, i: int) -> int {
        min(self.area.x + 2 * self.rows[i].depth, u16::MAX as int)
    }

    /// A string in the line of row `i`, from where the row starts up to the
    /// border; nothing where the row starts at the border or beyond.
    pub open spec fn in_row(self, i: int, text: Seq<char>, style: Style) -> Seq<DrawView> {
        if self.row_x(i) < self.border_x() {
            seq![
                DrawView::Text {
                    x: self.row_x(i),
                    y: self.row_y(i),
                    text,
                    max_width: Some(self.border_x() - self.row_x(i)),
                    style,
                },
            ]
        } else {
            Seq::empty()
        }
    }

    pub open spec fn name_draws(self, i: int) -> Seq<DrawView> {
        let row = self.rows[i];
        self.in_row(
            i,
            row_text(name_text(row.path), row.is_dir, self.expanded.contains(row.path)),
            if row.is_dir {
                Style::Directory
            } else {
                Style::File
            },
        )
    }

    /// The highlight, on the selected row.
    pub open spec fn highlight_draws(self, i: int) -> Seq<DrawView> {
        if i == self.selection {
            seq![
                DrawView::Fill {
                    area: Rect {
                        x: self.area.x,
                        y: self.row_y(i) as u16,
                        width: (self.area.width - 1) as u16,
                        height: 1,
                    },
                    style: if self.focused {
                        Style::FocusedSelection
                    } else {
                        Style::Selection
                    },
                },
            ]
        } else {
            Seq::empty()
        }
    }

    /// The jump label of row `i`, over its name.
    pub open spec fn label_draws(self, i: int) -> Seq<DrawView> {
        match self.pending {
            Some(PendingView::Jump { labels, first }) => if exists|k: int|
                is_label_of(labels, i, k) {
                let k = choose|k: int| is_label_of(labels, i, k);
                self.in_row(i, label_text(labels[k], first), Style::JumpLabel)
            } else {
                Seq::empty()
            },
            _ => Seq::empty(),
        }
    }

    pub open spec fn row_draws(self, i: int) -> Seq<DrawView> {
        self.name_draws(i) + self.highlight_draws(i) + self.label_draws(i)
    }

    /// The rows from the first in view down to and without row `to`.
    pub open spec fn rows_draws(self, to: int) -> Seq<DrawView>
        decreases to - self.scroll,
    {
        if to <= self.scroll {
            Seq::empty()
        } else {
            self.rows_draws(to - 1) + self.row_draws(to - 1)
        }
    }

    /// All that is drawn of the panel: the border, the header, and the rows in
    /// view from top to bottom. Nothing where the panel has no area.
    pub open spec fn draws(self) -> Seq<DrawView> {
        if self.area.width == 0 || self.area.height == 0 {
            Seq::empty()
        } else {
            self.border_draws(self.area.height as nat) + seq![self.header_draw()]
                + self.rows_draws(
                min((self.scroll + self.view_height()) as int, self.rows.len() as int),
            )
        }
    }
}

} // verus!
