//! Where the panel is put, and what is drawn where.

use vstd::math::min;
use vstd::prelude::*;
use vstd::utf8::{decode_utf8, valid_utf8};

use super::terms::{in_view, room};
use crate::draw::{
    draw_views, is_label_of, label_text, lossy_text, open_error_text, row_text, shown, wide_text,
    Draw, DrawView, Style,
};
use crate::input::Rect;
use crate::model::{JumpLabel, PanelView, PendingView};
use crate::path::{NameView, Part, PathView};

verus! {

/// The panel is put into the area that it is drawn into. Where the selection was
/// to be scrolled into view, and there is room for a row, it is in view, with the
/// rows scrolled no further than that takes; else the rows stay where they are,
/// but for a scroll beyond the last row, which ends there.
pub proof fn law_placed(panel: PanelView, area: Rect)
    requires
        panel.valid(),
    ensures
        ({
            let after = panel.placed(area);
            let follows = panel.ensure_visible && room(area) > 0;
            if area.width == 0 || area.height == 0 {
                after == (PanelView { area, ..panel })
            } else {
                &&& after == (PanelView {
                    area,
                    scroll: after.scroll,
                    ensure_visible: panel.ensure_visible && !follows,
                    ..panel
                })
                &&& !follows && panel.scroll < panel.rows.len() ==> after.scroll == panel.scroll
                &&& !follows && panel.scroll >= panel.rows.len() > 0 ==> after.scroll + 1
                    == panel.rows.len()
                &&& panel.rows.len() == 0 ==> after.scroll == 0
                &&& follows && panel.rows.len() > 0 ==> {
                    &&& in_view(after, panel.selection as int)
                    // above the view: it becomes the first row in view
                    &&& panel.selection < panel.scroll ==> after.scroll == panel.selection
                    // below the view: it becomes the last row in view
                    &&& panel.selection - panel.scroll >= room(area) ==> panel.selection
                        - after.scroll + 1 == room(area)
                    &&& panel.scroll <= panel.selection && panel.selection - panel.scroll < room(
                        area,
                    ) ==> after.scroll == panel.scroll
                }
            }
        }),
{
}

/// Drawing the panel once more, into the same area, moves nothing.
pub proof fn law_drawing_again_moves_nothing(panel: PanelView, area: Rect)
    requires
        panel.valid(),
    ensures
        panel.placed(area).placed(area) == panel.placed(area),
        panel.placed(area).placed(area).draws() == panel.placed(area).draws(),
{
}

/// The text that a name is shown as.
pub open spec fn text_of(name: NameView) -> Seq<char> {
    match name {
        NameView::Bytes(bytes) => {
            if valid_utf8(bytes) {
                decode_utf8(bytes)
            } else {
                lossy_text(bytes)
            }
        },
        NameView::Wide(units) => wide_text(units),
    }
}

/// A name is shown as its text.
pub proof fn law_names_are_shown(name: NameView)
    ensures
        shown(name) == text_of(name),
{
}

/// The text of 16-bit units is found unit by unit: a pair of surrogates is one
/// character beyond the first plane, a surrogate without its pair the replacement
/// character, and any other unit the character of that number.
pub proof fn law_wide_text_goes_on(a: u16, b: u16, rest: Seq<u16>)
    ensures
        wide_text(Seq::empty()).len() == 0,
        a < 0xd800 || a > 0xdfff ==> wide_text(seq![a] + rest) == seq![a as char] + wide_text(rest),
        0xdc00 <= a <= 0xdfff ==> wide_text(seq![a] + rest) == seq!['\u{fffd}'] + wide_text(rest),
        0xd800 <= a <= 0xdbff && rest.len() == 0 ==> wide_text(seq![a] + rest)
            == seq!['\u{fffd}'],
        0xd800 <= a <= 0xdbff && 0xdc00 <= b <= 0xdfff ==> wide_text(seq![a, b] + rest) == seq![
            (0x10000 + 1024 * (a - 0xd800) + (b - 0xdc00)) as char,
        ] + wide_text(rest),
        0xd800 <= a <= 0xdbff && !(0xdc00 <= b <= 0xdfff) ==> wide_text(seq![a, b] + rest) == seq![
            '\u{fffd}',
        ] + wide_text(seq![b] + rest),
{
    assert((seq![a] + rest).skip(1) =~= rest);
    assert((seq![a, b] + rest).skip(2) =~= rest);
    assert((seq![a, b] + rest).skip(1) =~= seq![b] + rest);
    assert((seq![a] + rest)[0] == a);
    assert((seq![a, b] + rest)[0] == a && (seq![a, b] + rest)[1] == b);
    if rest.len() == 0 {
        assert(wide_text(rest) =~= Seq::<char>::empty());
    }
}

/// A file's row says its name, a directory's its name between an arrow, which
/// points down where it is expanded, and a slash. Of a label, both characters are
/// shown until the first is typed, and the second after that.
pub proof fn law_texts(name: Seq<char>, label: JumpLabel, typed: char)
    ensures
        row_text(name, false, false) == name,
        row_text(name, false, true) == name,
        row_text(name, true, true) == seq!['▾', ' '] + name + seq!['/'],
        row_text(name, true, false) == seq!['▸', ' '] + name + seq!['/'],
        label_text(label, None) == seq![label.first, label.second],
        label_text(label, Some(typed)) == seq![label.second],
{
}

/// The text that the last part of a path is shown as.
pub open spec fn last_name(path: PathView) -> Seq<char> {
    if path.len() == 0 {
        Seq::empty()
    } else {
        match path[path.len() - 1] {
            Part::Normal(name) => text_of(name),
            _ => Seq::empty(),
        }
    }
}

/// The line of the screen that belongs to row `i`: the first row in view has the
/// line below the header, and each row the one below that of the row before.
pub open spec fn line_of(panel: PanelView, i: int) -> int {
    panel.area.y + 1 + (i - panel.scroll)
}

/// The column that row `i` starts at, two further in for each level.
pub open spec fn column_of(panel: PanelView, i: int) -> int {
    panel.area.x + panel.rows[i].depth + panel.rows[i].depth
}

/// The border's column, the last one of the area.
pub open spec fn border_of(panel: PanelView) -> int {
    panel.area.x + panel.area.width - 1
}

/// Row `i` is in view, and starts left of the border.
pub open spec fn fits(panel: PanelView, i: int) -> bool {
    in_view(panel, i) && column_of(panel, i) < border_of(panel)
}

/// The step that draws the name of row `i`.
pub open spec fn name_step(panel: PanelView, i: int) -> DrawView {
    let row = panel.rows[i];
    let name = last_name(row.path);
    DrawView::Text {
        x: column_of(panel, i),
        y: line_of(panel, i),
        text: if row.is_dir && panel.expanded.contains(row.path) {
            seq!['▾', ' '] + name + seq!['/']
        } else if row.is_dir {
            seq!['▸', ' '] + name + seq!['/']
        } else {
            name
        },
        max_width: Some(border_of(panel) - column_of(panel, i)),
        style: if row.is_dir {
            Style::Directory
        } else {
            Style::File
        },
    }
}

/// The step that draws what remains to be typed of a label on row `i`.
pub open spec fn label_step(
    panel: PanelView,
    i: int,
    label: JumpLabel,
    first: Option<char>,
) -> DrawView {
    DrawView::Text {
        x: column_of(panel, i),
        y: line_of(panel, i),
        text: match first {
            Some(_) => seq![label.second],
            None => seq![label.first, label.second],
        },
        max_width: Some(border_of(panel) - column_of(panel, i)),
        style: Style::JumpLabel,
    }
}

/// The step that highlights the selected row, from the left edge to the border.
pub open spec fn is_highlight(panel: PanelView, draw: DrawView) -> bool {
    match draw {
        DrawView::Fill { area, style } => {
            &&& area.x == panel.area.x
            &&& area.y == line_of(panel, panel.selection as int)
            &&& area.x + area.width == border_of(panel)
            &&& area.height == 1
            &&& style == if panel.focused {
                Style::FocusedSelection
            } else {
                Style::Selection
            }
        },
        _ => false,
    }
}

/// The step that draws the header: the root's name, or how the system writes it
/// where it has none, and a slash.
pub open spec fn header_step(panel: PanelView) -> DrawView {
    let named = panel.root.len() > 0 && panel.root[panel.root.len() - 1] is Normal;
    DrawView::Text {
        x: panel.area.x as int,
        y: panel.area.y as int,
        text: (if named {
            last_name(panel.root)
        } else {
            panel.root_display
        }) + seq!['/'],
        max_width: Some(panel.area.width - 1),
        style: Style::Header,
    }
}

/// The step that draws the border on line `y`.
pub open spec fn border_step(panel: PanelView, y: int) -> DrawView {
    DrawView::Text {
        x: border_of(panel),
        y,
        text: "│"@,
        max_width: None,
        style: Style::Border,
    }
}

/// Label `k` is the one that is awaited for row `i`.
pub open spec fn labels_row(labels: Seq<JumpLabel>, i: int, k: int) -> bool {
    &&& 0 <= k < labels.len()
    &&& labels[k].row == i
    &&& forall|j: int| 0 <= j < k ==> (#[trigger] labels[j]).row != i
}

/// A row has one label at most.
proof fn lemma_labels_row(labels: Seq<JumpLabel>, i: int, k: int)
    ensures
        labels_row(labels, i, k) <==> is_label_of(labels, i, k),
{
}

/// The steps of row `i`, in their order.
proof fn lemma_row_steps(panel: PanelView, i: int)
    requires
        panel.area.on_grid(),
        panel.area.width > 0,
        panel.area.height > 0,
        in_view(panel, i),
    ensures
        fits(panel, i) ==> panel.name_draws(i) == seq![name_step(panel, i)],
        !fits(panel, i) ==> panel.name_draws(i).len() == 0,
        i == panel.selection ==> panel.highlight_draws(i).len() == 1 && is_highlight(
            panel,
            panel.highlight_draws(i)[0],
        ),
        i != panel.selection ==> panel.highlight_draws(i).len() == 0,
        match panel.pending {
            Some(PendingView::Jump { labels, first }) => {
                &&& forall|k: int| #[trigger]
                    labels_row(labels, i, k) ==> panel.label_draws(i) == if fits(panel, i) {
                        seq![label_step(panel, i, labels[k], first)]
                    } else {
                        Seq::empty()
                    }
                &&& (forall|k: int| !#[trigger] labels_row(labels, i, k)) ==> panel.label_draws(
                    i,
                ).len() == 0
            },
            _ => panel.label_draws(i).len() == 0,
        },
{
    if let Some(PendingView::Jump { labels, first }) = panel.pending {
        assert forall|k: int| #[trigger] labels_row(labels, i, k) implies panel.label_draws(i)
            == if fits(panel, i) {
            seq![label_step(panel, i, labels[k], first)]
        } else {
            Seq::empty()
        } by {
            assert(is_label_of(labels, i, k));
            let chosen = choose|c: int| is_label_of(labels, i, c);
            assert(chosen == k);
        }
        if forall|k: int| !#[trigger] labels_row(labels, i, k) {
            assert forall|k: int| !#[trigger] is_label_of(labels, i, k) by {
                lemma_labels_row(labels, i, k);
                assert(!labels_row(labels, i, k));
            }
        }
    }
}

/// The steps of a row are drawn one after the other.
proof fn lemma_row_is_drawn(panel: PanelView, to: int, i: int) -> (at: int)
    requires
        panel.scroll <= i < to,
    ensures
        0 <= at,
        at + panel.row_draws(i).len() <= panel.rows_draws(to).len(),
        forall|t: int|
            0 <= t < panel.row_draws(i).len() ==> panel.rows_draws(to)[at + t]
                == #[trigger] panel.row_draws(i)[t],
    decreases to - i,
{
    let before = panel.rows_draws(to - 1);
    let last = panel.row_draws(to - 1);
    if i == to - 1 {
        assert forall|t: int| 0 <= t < last.len() implies (before + last)[before.len() + t]
            == #[trigger] last[t] by {}
        before.len() as int
    } else {
        let at = lemma_row_is_drawn(panel, to - 1, i);
        assert forall|t: int| 0 <= t < panel.row_draws(i).len() implies (before + last)[at + t]
            == #[trigger] panel.row_draws(i)[t] by {
            assert(before[at + t] == panel.row_draws(i)[t]);
        }
        at
    }
}

/// Every step of the rows is a step of one of them.
proof fn lemma_step_is_of_row(panel: PanelView, to: int, k: int) -> (res: (int, int))
    requires
        0 <= k < panel.rows_draws(to).len(),
    ensures
        panel.scroll <= res.0 < to,
        0 <= res.1 < panel.row_draws(res.0).len(),
        panel.rows_draws(to)[k] == panel.row_draws(res.0)[res.1],
    decreases to - panel.scroll,
{
    let before = panel.rows_draws(to - 1);
    let last = panel.row_draws(to - 1);
    if k < before.len() {
        let res = lemma_step_is_of_row(panel, to - 1, k);
        assert((before + last)[k] == before[k]);
        res
    } else {
        assert((before + last)[k] == last[k - before.len()]);
        (to - 1, k - before.len())
    }
}

/// Where the rows in view end.
spec fn view_end(panel: PanelView) -> int {
    min((panel.scroll + panel.view_height()) as int, panel.rows.len() as int)
}

/// The number of steps before those of the rows.
spec fn steps_before_rows(panel: PanelView) -> int {
    panel.border_draws(panel.area.height as nat).len() as int + 1
}

/// Every row in view that starts left of the border has its name drawn on its own
/// line, and the selected row in view is highlighted there, over its name. A row
/// with a jump label has it drawn over both.
pub proof fn law_rows_are_drawn(panel: PanelView, i: int) -> (at: int)
    requires
        panel.area.on_grid(),
        panel.area.width > 0,
        panel.area.height > 0,
        in_view(panel, i),
    ensures
        0 <= at <= panel.draws().len(),
        ({
            let draws = panel.draws();
            let lit = at + if fits(panel, i) {
                1int
            } else {
                0int
            };
            let labelled = lit + if i == panel.selection {
                1int
            } else {
                0int
            };
            &&& fits(panel, i) ==> at < draws.len() && draws[at] == name_step(panel, i)
            &&& i == panel.selection ==> lit < draws.len() && is_highlight(panel, draws[lit])
            &&& match panel.pending {
                Some(PendingView::Jump { labels, first }) => forall|k: int| #[trigger]
                    labels_row(labels, i, k) && fits(panel, i) ==> labelled < draws.len()
                        && draws[labelled] == label_step(panel, i, labels[k], first),
                _ => true,
            }
        }),
{
    let to = view_end(panel);
    let start = steps_before_rows(panel);
    let rows = panel.rows_draws(to);
    let row = panel.row_draws(i);
    let at = lemma_row_is_drawn(panel, to, i);
    lemma_row_steps(panel, i);
    assert forall|t: int| 0 <= t < row.len() implies panel.draws()[start + at + t]
        == #[trigger] row[t] by {
        assert(panel.draws()[start + (at + t)] == rows[at + t]);
    }
    let names = panel.name_draws(i);
    let lights = panel.highlight_draws(i);
    if fits(panel, i) {
        assert(row[0] == names[0]);
    }
    if i == panel.selection {
        assert(row[names.len() as int] == lights[0]);
    }
    if let Some(PendingView::Jump { labels, first }) = panel.pending {
        assert forall|k: int| #[trigger] labels_row(labels, i, k) && fits(panel, i) implies {
            let labelled = start + at + names.len() + lights.len();
            labelled < panel.draws().len() && panel.draws()[labelled] == label_step(
                panel,
                i,
                labels[k],
                first,
            )
        } by {
            assert(row[(names.len() + lights.len()) as int] == panel.label_draws(i)[0]);
        }
    }
    start + at
}

/// The border is drawn on every line of the area, and the header on the first.
pub proof fn law_frame_is_drawn(panel: PanelView, y: int)
    requires
        panel.area.width > 0,
        panel.area.height > 0,
    ensures
        panel.draws().contains(header_step(panel)),
        panel.area.y <= y < panel.area.y + panel.area.height ==> panel.draws().contains(
            border_step(panel, y),
        ),
{
    let border = panel.border_draws(panel.area.height as nat);
    assert(panel.header_draw() == header_step(panel)) by {
        assert(panel.root_name().push('/') =~= panel.root_name() + seq!['/']);
    }
    assert(panel.draws()[border.len() as int] == header_step(panel));
    if panel.area.y <= y < panel.area.y + panel.area.height {
        assert(panel.draws()[y - panel.area.y] == border_step(panel, y));
    }
}

/// A step of row `i`: its name, its highlight or its label.
pub open spec fn is_step_of(panel: PanelView, i: int, draw: DrawView) -> bool {
    &&& in_view(panel, i)
    &&& {
        ||| fits(panel, i) && draw == name_step(panel, i)
        ||| i == panel.selection && is_highlight(panel, draw)
        ||| fits(panel, i) && match panel.pending {
            Some(PendingView::Jump { labels, first }) => exists|k: int|
                #[trigger] labels_row(labels, i, k) && draw == label_step(
                    panel,
                    i,
                    labels[k],
                    first,
                ),
            _ => false,
        }
    }
}

/// Nothing else is drawn: every step is of the border, of the header or of a row
/// in view. Where the panel has no area, nothing is drawn.
pub proof fn law_nothing_else_is_drawn(panel: PanelView, k: int)
    requires
        panel.area.width > 0 && panel.area.height > 0 ==> panel.area.on_grid(),
        0 <= k < panel.draws().len(),
    ensures
        panel.area.width > 0,
        panel.area.height > 0,
        ({
            let draw = panel.draws()[k];
            ||| draw == header_step(panel)
            ||| exists|y: int|
                panel.area.y <= y < panel.area.y + panel.area.height && draw
                    == #[trigger] border_step(panel, y)
            ||| exists|i: int| #[trigger] is_step_of(panel, i, draw)
        }),
{
    let start = steps_before_rows(panel);
    let draw = panel.draws()[k];
    if k < start - 1 {
        assert(draw == border_step(panel, panel.area.y + k));
    } else if k == start - 1 {
        assert(panel.root_name().push('/') =~= panel.root_name() + seq!['/']);
        assert(draw == header_step(panel));
    } else {
        let to = view_end(panel);
        let (i, t) = lemma_step_is_of_row(panel, to, k - start);
        assert(panel.draws()[k] == panel.rows_draws(to)[k - start]);
        lemma_row_steps(panel, i);
        let names = panel.name_draws(i);
        let lights = panel.highlight_draws(i);
        let row = panel.row_draws(i);
        if t < names.len() {
            assert(row[t] == names[t]);
        } else if t < names.len() + lights.len() {
            assert(row[t] == lights[t - names.len()]);
        } else {
            assert(row[t] == panel.label_draws(i)[t - names.len() - lights.len()]);
            if let Some(PendingView::Jump { labels, first }) = panel.pending {
                let c = choose|c: int| #[trigger] labels_row(labels, i, c);
                assert(labels_row(labels, i, c));
            }
        }
        assert(is_step_of(panel, i, draw));
    }
}

/// Each line belongs to one row: left of the border, nothing is written on the
/// line of a row in view but the name and the label of that row, and no line but
/// the selected row's is highlighted.
pub proof fn law_rows_do_not_share_lines(panel: PanelView, i: int, k: int)
    requires
        panel.area.width > 0 && panel.area.height > 0 ==> panel.area.on_grid(),
        0 <= k < panel.draws().len(),
        in_view(panel, i),
    ensures
        match panel.draws()[k] {
            DrawView::Text { x, y, text, max_width, style } => y == line_of(panel, i) && style
                != Style::Border ==> is_step_of(panel, i, panel.draws()[k]),
            DrawView::Fill { area, style } => area.y == line_of(panel, i) ==> i == panel.selection,
        },
{
    law_nothing_else_is_drawn(panel, k);
    let draw = panel.draws()[k];
    if exists|r: int| #[trigger] is_step_of(panel, r, draw) {
        let r = choose|r: int| #[trigger] is_step_of(panel, r, draw);
        assert(is_step_of(panel, r, draw));
    }
}

/// Drawing steps stand for themselves, one by one and in order.
pub proof fn law_steps_stand_for_themselves(draws: Seq<Draw>, i: int)
    requires
        0 <= i < draws.len(),
    ensures
        draw_views(draws).len() == draws.len(),
        match draws[i] {
            Draw::Text { x, y, text, max_width, style } => draw_views(draws)[i] == (DrawView::Text {
                x: x as int,
                y: y as int,
                text: text@,
                max_width: match max_width {
                    Some(width) => Some(width as int),
                    None => None,
                },
                style,
            }),
            Draw::Fill { area, style } => draw_views(draws)[i] == (DrawView::Fill { area, style }),
        },
{
}

/// The message for a file that cannot be opened is what caused the error, or else
/// names the file.
pub proof fn law_open_error(cause: Seq<char>, display: Seq<char>)
    ensures
        open_error_text(Some(cause), display) == cause,
        open_error_text(None, display) == "unable to open \""@ + display + "\""@,
{
}

} // verus!
