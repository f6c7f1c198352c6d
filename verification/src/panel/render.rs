//! Drawing the panel.

use vstd::math::min;
use vstd::prelude::*;

use super::{FileTreePanel, Pending};
use crate::draw::{
    draw_views, header_string, is_label_of, label_string, name_text, open_error_text, row_string,
    shown_string, Draw, Style,
};
use crate::input::Rect;
use crate::model::{JumpLabel, HEADER_HEIGHT};
use crate::path::TreePath;

verus! {

/// The name of the file or directory at `path`, empty where it has none.
fn name_string(path: &TreePath) -> (res: String)
    ensures
        res@ == name_text(path@),
{
    match path.file_name() {
        Some(name) => shown_string(name),
        None => String::new(),
    }
}

/// The first label on row `i`.
fn label_on(labels: &Vec<JumpLabel>, i: usize) -> (res: Option<JumpLabel>)
    ensures
        match res {
            Some(label) => exists|k: int| is_label_of(labels@, i as int, k) && labels@[k] == label,
            None => forall|k: int| !is_label_of(labels@, i as int, k),
        },
{
    let mut k: usize = 0;
    while k < labels.len()
        invariant
            k <= labels.len(),
            forall|j: int| 0 <= j < k ==> (#[trigger] labels@[j]).row != i,
        decreases labels.len() - k,
    {
        if labels[k].row == i {
            return Some(labels[k]);
        }
        k += 1;
    }
    None
}

impl FileTreePanel {
    /// The message for a file that could not be opened, given what the error
    /// names as its cause and how the system writes the file's path.
    pub fn open_file_error(source: Option<String>, display: &str) -> (res: String)
        ensures
            res@ == open_error_text(
                match source {
                    Some(text) => Some(text@),
                    None => None,
                },
                display@,
            ),
    {
        match source {
            Some(text) => text,
            None => {
                let mut text = String::new();
                text.append("unable to open \"");
                text.append(display);
                text.append("\"");
                text
            },
        }
    }

    /// Puts the panel into `area`, and scrolls the selection into view where
    /// that was asked for.
    fn place(&mut self, area: Rect)
        requires
            old(self).wf(),
        ensures
            final(self).wf(),
            final(self)@ == old(self)@.placed(area),
    {
        self.area = area;
        if area.width == 0 || area.height == 0 {
            return;
        }
        let height: usize = self.view_height();
        if self.ensure_visible && height > 0 {
            if self.selection < self.scroll {
                self.scroll = self.selection;
            } else if self.selection - self.scroll >= height {
                self.scroll = self.selection - height + 1;
            }
            self.ensure_visible = false;
        }
        let last: usize = self.rows.len().saturating_sub(1);
        if self.scroll > last {
            self.scroll = last;
        }
    }

    /// Draws `text` in the line of row `i`.
    fn draw_in_row(&self, draws: &mut Vec<Draw>, i: usize, text: String, style: Style)
        requires
            self.wf(),
            self@.area.on_grid(),
            self@.area.width > 0,
            self@.area.height > 0,
            self@.scroll <= i < self@.rows.len(),
            i < self@.scroll + self@.view_height(),
        ensures
            draw_views(final(draws)@) == draw_views(old(draws)@) + self@.in_row(
                i as int,
                text@,
                style,
            ),
    {
        let depth: usize = self.rows[i].depth;
        let indent: u16 = if depth > 0x7fff {
            u16::MAX
        } else {
            (depth * 2) as u16
        };
        let x: u16 = self.area.x.saturating_add(indent);
        let y: u16 = self.area.y + HEADER_HEIGHT + (i - self.scroll) as u16;
        let border_x: u16 = self.area.x + (self.area.width - 1);
        if x < border_x {
            let draw = Draw::Text {
                x,
                y,
                text,
                max_width: Some((border_x - x) as usize),
                style,
            };
            draws.push(draw);
        }
    }

    /// Draws row `i`.
    fn draw_row(&self, draws: &mut Vec<Draw>, i: usize)
        requires
            self.wf(),
            self@.area.on_grid(),
            self@.area.width > 0,
            self@.area.height > 0,
            self@.scroll <= i < self@.rows.len(),
            i < self@.scroll + self@.view_height(),
        ensures
            draw_views(final(draws)@) == draw_views(old(draws)@) + self@.row_draws(i as int),
    {
        let row = &self.rows[i];
        let is_expanded = self.expanded.contains(&row.path);
        let text = row_string(name_string(&row.path), row.is_dir, is_expanded);
        let style = if row.is_dir {
            Style::Directory
        } else {
            Style::File
        };
        self.draw_in_row(draws, i, text, style);
        let ghost named = draw_views(draws@);
        if i == self.selection {
            let fill = Draw::Fill {
                area: Rect {
                    x: self.area.x,
                    y: self.area.y + HEADER_HEIGHT + (i - self.scroll) as u16,
                    width: self.area.width - 1,
                    height: 1,
                },
                style: if self.focused {
                    Style::FocusedSelection
                } else {
                    Style::Selection
                },
            };
            draws.push(fill);
            assert(draw_views(draws@) =~= named.push(fill@));
        }
        match &self.pending {
            Some(Pending::Jump { labels, first }) => {
                match label_on(labels, i) {
                    Some(label) => {
                        self.draw_in_row(draws, i, label_string(&label, *first), Style::JumpLabel);
                    },
                    None => {},
                }
            },
            _ => {},
        }
    }

    /// Puts the panel into `area` and says how to draw it there.
    pub fn render(&mut self, area: Rect) -> (res: Vec<Draw>)
        requires
            old(self).wf(),
            area.width > 0 && area.height > 0 ==> area.on_grid(),
        ensures
            final(self).wf(),
            final(self)@ == old(self)@.placed(area),
            draw_views(res@) == final(self)@.draws(),
    {
        self.place(area);
        let mut draws: Vec<Draw> = Vec::new();
        if area.width == 0 || area.height == 0 {
            return draws;
        }
        let border_x: u16 = area.x + (area.width - 1);
        let mut line: u16 = 0;
        while line < area.height
            invariant
                line <= area.height,
                area == self@.area,
                area.on_grid(),
                border_x == self@.border_x(),
                draw_views(draws@) == self@.border_draws(line as nat),
            decreases area.height - line,
        {
            let ghost before = draw_views(draws@);
            let draw = Draw::Text {
                x: border_x,
                y: area.y + line,
                text: "│".to_owned(),
                max_width: None,
                style: Style::Border,
            };
            draws.push(draw);
            line += 1;
            proof {
                assert(draw_views(draws@) =~= before.push(draw@));
            }
        }

        // Header: the name of the directory that the tree is rooted at.
        let root_name = match self.root.file_name() {
            Some(name) => shown_string(name),
            None => self.root_display.clone(),
        };
        let header = Draw::Text {
            x: area.x,
            y: area.y,
            text: header_string(root_name),
            max_width: Some((area.width - 1) as usize),
            style: Style::Header,
        };
        draws.push(header);
        let ghost headed = draw_views(draws@);

        let bottom: usize = self.scroll.saturating_add(self.view_height());
        let end: usize = if bottom < self.rows.len() {
            bottom
        } else {
            self.rows.len()
        };
        let mut i: usize = self.scroll;
        while i < end
            invariant
                self.wf(),
                self@.area.on_grid(),
                self@.area.width > 0,
                self@.area.height > 0,
                self@.scroll <= i,
                i <= end || i == self@.scroll,
                end == min(
                    (self@.scroll + self@.view_height()) as int,
                    self@.rows.len() as int,
                ),
                draw_views(draws@) == headed + self@.rows_draws(i as int),
            decreases end - i,
        {
            self.draw_row(&mut draws, i);
            i += 1;
        }
        draws
    }
}

} // verus!
