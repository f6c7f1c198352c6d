//! What each key does.

use vstd::prelude::*;

use super::terms::{flip, in_view, is_nearest_less_deep, plain, room, with_control};
use super::{law_parent_row_is_directory, press};
use crate::input::{command_of, Command, KeyCode, KeyEvent, Rect};
use crate::model::{is_first_label, jump_labels, JumpLabel, PanelView, PendingView, RequestView};
use crate::path::{below, PathView};
use crate::tree::facts::lemma_parent_row;
use crate::tree::{is_parent_row, parent_row};

verus! {

/// The key moves the selection by `k` rows: one row, half a page or a page, and
/// always at least one row. `next`, `half` and `full` are the keys for each.
pub open spec fn moves_by(
    panel: PanelView,
    event: KeyEvent,
    next: Seq<KeyEvent>,
    half: KeyEvent,
    full: KeyEvent,
    k: int,
) -> bool {
    let lines = room(panel.area);
    ||| next.contains(event) && k == 1
    ||| event == half && if lines < 4 {
        k == 1
    } else {
        lines == 2 * k || lines == 2 * k + 1
    }
    ||| event == full && if lines < 2 {
        k == 1
    } else {
        k == lines
    }
}

/// A move down goes `k` rows down, or to the last row where there are fewer
/// below, and nothing else changes but that the row is to be scrolled into
/// view. So from any row but the last, it goes down.
pub proof fn law_move_down(panel: PanelView, event: KeyEvent, alphabet: Seq<char>, k: int)
    requires
        panel.valid(),
        panel.pending is None,
        moves_by(
            panel,
            event,
            seq![press('j'), plain(KeyCode::Down)],
            with_control('d'),
            plain(KeyCode::PageDown),
            k,
        ),
    ensures
        ({
            let step = panel.after_key(event, alphabet);
            let after = step.panel;
            let len = panel.rows.len();
            &&& step.request is None
            &&& len == 0 ==> after == panel
            &&& len > 0 ==> {
                &&& after == (PanelView {
                    selection: after.selection,
                    ensure_visible: true,
                    ..panel
                })
                &&& panel.selection + k < len ==> after.selection == panel.selection + k
                &&& panel.selection + k >= len ==> after.selection + 1 == len
                &&& panel.selection + 1 < len ==> panel.selection < after.selection
            }
        }),
{
    let next = seq![press('j'), plain(KeyCode::Down)];
    assert(next[0] == press('j') && next[1] == plain(KeyCode::Down));
}

/// A move up goes `k` rows up, or to the first row where there are fewer above,
/// and nothing else changes but that the row is to be scrolled into view. So
/// from any row but the first, it goes up.
pub proof fn law_move_up(panel: PanelView, event: KeyEvent, alphabet: Seq<char>, k: int)
    requires
        panel.valid(),
        panel.pending is None,
        moves_by(
            panel,
            event,
            seq![press('k'), plain(KeyCode::Up)],
            with_control('u'),
            plain(KeyCode::PageUp),
            k,
        ),
    ensures
        ({
            let step = panel.after_key(event, alphabet);
            let after = step.panel;
            let len = panel.rows.len();
            &&& step.request is None
            &&& len == 0 ==> after == panel
            &&& len > 0 ==> {
                &&& after == (PanelView {
                    selection: after.selection,
                    ensure_visible: true,
                    ..panel
                })
                &&& k <= panel.selection ==> after.selection + k == panel.selection
                &&& k > panel.selection ==> after.selection == 0
                &&& panel.selection > 0 ==> after.selection < panel.selection
            }
        }),
{
    let next = seq![press('k'), plain(KeyCode::Up)];
    assert(next[0] == press('k') && next[1] == plain(KeyCode::Up));
}

/// Moving down by a row and up again, or the other way round, leads back.
pub proof fn law_moves_undo_each_other(panel: PanelView, alphabet: Seq<char>)
    requires
        panel.valid(),
        panel.pending is None,
    ensures
        panel.selection + 1 < panel.rows.len() ==> panel.after_key(
            press('j'),
            alphabet,
        ).panel.after_key(press('k'), alphabet).panel.selection == panel.selection,
        panel.selection > 0 ==> panel.after_key(press('k'), alphabet).panel.after_key(
            press('j'),
            alphabet,
        ).panel.selection == panel.selection,
{
}

/// Toggling a directory flips whether it is expanded, forgets its listing if it
/// was, and rebuilds the rows.
pub proof fn law_toggle(panel: PanelView, dir: PathView)
    ensures
        panel.toggled(dir) == flip(panel, dir).rebuilt(),
{
}

/// Enter, `l` and right open a selected file and give up the focus, and toggle a
/// selected directory.
pub proof fn law_activate(panel: PanelView, event: KeyEvent, alphabet: Seq<char>)
    requires
        panel.pending is None,
        event == plain(KeyCode::Enter) || event == press('l') || event == plain(KeyCode::Right),
    ensures
        ({
            let step = panel.after_key(event, alphabet);
            let row = panel.rows[panel.selection as int];
            if panel.selection >= panel.rows.len() {
                step.panel == panel && step.request is None
            } else if row.is_dir {
                let rebuilt = flip(panel, row.path).rebuilt();
                step.panel == rebuilt.panel && step.request == rebuilt.request
            } else {
                &&& step.panel == (PanelView { focused: false, ..panel })
                &&& step.request == Some(RequestView::OpenFile(row.path))
            }
        }),
{
}

/// `h` and left collapse a selected directory that is expanded; else they go to
/// the nearest row above that is one level less deep, which is to be scrolled
/// into view. On a row of the top level nothing changes.
pub proof fn law_collapse_or_go_up(panel: PanelView, event: KeyEvent, alphabet: Seq<char>, i: int)
    requires
        panel.valid(),
        panel.pending is None,
        event == press('h') || event == plain(KeyCode::Left),
    ensures
        ({
            let step = panel.after_key(event, alphabet);
            let row = panel.rows[panel.selection as int];
            let on_open = panel.selection < panel.rows.len() && row.is_dir
                && panel.expanded.contains(row.path);
            &&& on_open ==> {
                let rebuilt = flip(panel, row.path).rebuilt();
                step.panel == rebuilt.panel && step.request == rebuilt.request
            }
            &&& !on_open ==> step.request is None
            &&& !on_open && is_nearest_less_deep(panel.rows, panel.selection as int, i)
                ==> step.panel == (PanelView { selection: i as nat, ensure_visible: true, ..panel })
            &&& !on_open && (panel.rows.len() == 0 || row.depth == 0) ==> step.panel == panel
        }),
{
    if is_nearest_less_deep(panel.rows, panel.selection as int, i) {
        assert(is_parent_row(panel.rows, panel.selection as int, i));
        lemma_parent_row(panel.rows, panel.selection as int, i);
    }
}

/// `H` goes to the nearest row above that is one level less deep, which is to be
/// scrolled into view, and collapses the directory there. On a row of the top
/// level nothing changes.
pub proof fn law_collapse_parent(panel: PanelView, alphabet: Seq<char>, i: int)
    requires
        panel.valid(),
        panel.pending is None,
    ensures
        ({
            let step = panel.after_key(press('H'), alphabet);
            let moved = PanelView { selection: i as nat, ensure_visible: true, ..panel };
            let dir = panel.rows[i].path;
            &&& is_nearest_less_deep(panel.rows, panel.selection as int, i) ==> if panel.expanded.contains(
                dir,
            ) {
                let rebuilt = flip(moved, dir).rebuilt();
                step.panel == rebuilt.panel && step.request == rebuilt.request
            } else {
                step.panel == moved && step.request is None
            }
            &&& panel.rows.len() == 0 || panel.rows[panel.selection as int].depth == 0
                ==> step.panel == panel && step.request is None
        }),
{
    if is_nearest_less_deep(panel.rows, panel.selection as int, i) {
        assert(is_parent_row(panel.rows, panel.selection as int, i));
        lemma_parent_row(panel.rows, panel.selection as int, i);
    }
}

/// `<` and `>` make the panel on screen two cells narrower or wider, as far as
/// it stays at least ten cells wide, and keep that width.
pub proof fn law_resize_by_key(panel: PanelView, alphabet: Seq<char>)
    requires
        panel.pending is None,
    ensures
        ({
            let wide = panel.after_key(press('>'), alphabet);
            let slim = panel.after_key(press('<'), alphabet);
            let width = panel.area.width as int;
            &&& wide.request is None
            &&& slim.request is None
            &&& wide.panel.width_override is Some
            &&& slim.panel.width_override is Some
            &&& wide.panel == (PanelView { width_override: wide.panel.width_override, ..panel })
            &&& slim.panel == (PanelView { width_override: slim.panel.width_override, ..panel })
            &&& width + 2 < 10 ==> wide.panel.width_override->0 == 10
            &&& 10 <= width + 2 <= u16::MAX ==> wide.panel.width_override->0 == width + 2
            &&& width + 2 > u16::MAX ==> wide.panel.width_override->0 == u16::MAX
            &&& width - 2 < 10 ==> slim.panel.width_override->0 == 10
            &&& width - 2 >= 10 ==> slim.panel.width_override->0 == width - 2
        }),
{
}

/// Escape gives up the focus, and `g` starts a sequence; nothing else changes.
pub proof fn law_escape_and_goto(panel: PanelView, alphabet: Seq<char>)
    requires
        panel.pending is None,
    ensures
        panel.after_key(plain(KeyCode::Esc), alphabet).panel == (PanelView {
            focused: false,
            ..panel
        }),
        panel.after_key(plain(KeyCode::Esc), alphabet).request is None,
        panel.after_key(press('g'), alphabet).panel == (PanelView {
            pending: Some(PendingView::Goto),
            ..panel
        }),
        panel.after_key(press('g'), alphabet).request is None,
{
}

/// A character is typed by a key press of it without modifiers, and by no other.
pub proof fn law_typed_characters(event: KeyEvent, ch: char)
    ensures
        event.typed() == Some(ch) <==> event == press(ch),
{
}

/// A key with a meaning of its own, where no sequence is in progress.
pub open spec fn has_meaning(event: KeyEvent) -> bool {
    ||| event == plain(KeyCode::Esc)
    ||| event == plain(KeyCode::Enter)
    ||| event == plain(KeyCode::Up)
    ||| event == plain(KeyCode::Down)
    ||| event == plain(KeyCode::Left)
    ||| event == plain(KeyCode::Right)
    ||| event == plain(KeyCode::PageUp)
    ||| event == plain(KeyCode::PageDown)
    ||| event == press('j')
    ||| event == press('k')
    ||| event == press('h')
    ||| event == press('l')
    ||| event == press('H')
    ||| event == press('g')
    ||| event == press('<')
    ||| event == press('>')
    ||| event == with_control('d')
    ||| event == with_control('u')
}

/// After `g`, `g` goes to the first row and `e` to the last one, which are to be
/// scrolled into view; the sequence ends.
pub proof fn law_goto_ends(panel: PanelView, alphabet: Seq<char>)
    requires
        panel.valid(),
        panel.pending == Some(PendingView::Goto),
    ensures
        ({
            let top = panel.after_key(press('g'), alphabet);
            let end = panel.after_key(press('e'), alphabet);
            &&& top.request is None
            &&& top.panel == (PanelView {
                selection: 0,
                ensure_visible: true,
                pending: None,
                ..panel
            })
            &&& end.request is None
            &&& end.panel == (PanelView {
                selection: end.panel.selection,
                ensure_visible: true,
                pending: None,
                ..panel
            })
            &&& panel.rows.len() > 0 ==> end.panel.selection + 1 == panel.rows.len()
            &&& panel.rows.len() == 0 ==> end.panel.selection == 0
        }),
{
}

/// Row `r` has a label exactly if it is in view and fewer rows than there are
/// pairs of characters lie between the top of the view and it.
pub open spec fn label_rows_in_view(
    panel: PanelView,
    labels: Seq<JumpLabel>,
    alphabet: Seq<char>,
) -> bool {
    forall|r: int|
        #![trigger in_view(panel, r)]
        in_view(panel, r) && r - panel.scroll < alphabet.len() * alphabet.len() <==> exists|j: int|
            0 <= j < labels.len() && (#[trigger] labels[j]).row == r
}

/// The labels go down the view and through the pairs of characters, of which the
/// second changes first.
pub open spec fn label_in_order(
    panel: PanelView,
    labels: Seq<JumpLabel>,
    alphabet: Seq<char>,
) -> bool {
    forall|j: int|
        #![trigger labels[j]]
        0 <= j < labels.len() ==> labels[j].row == panel.scroll + j && is_pair(
            alphabet,
            j,
            labels[j].first,
            labels[j].second,
        )
}

/// The two characters are the `j`-th pair over the alphabet.
pub open spec fn is_pair(alphabet: Seq<char>, j: int, first: char, second: char) -> bool {
    exists|a: int, b: int|
        {
            &&& 0 <= a < alphabet.len()
            &&& 0 <= b < alphabet.len()
            &&& a * alphabet.len() + b == j
            &&& first == #[trigger] alphabet[a]
            &&& second == #[trigger] alphabet[b]
        }
}

/// After `g`, `w` labels the rows in view, as far as there are pairs of
/// characters. With a row to label, a label is awaited; with none, nothing is.
/// Nothing else changes.
pub proof fn law_jump_labels_rows_in_view(panel: PanelView, alphabet: Seq<char>)
    requires
        panel.pending == Some(PendingView::Goto),
        panel.rows.len() <= usize::MAX,
    ensures
        ({
            let step = panel.after_key(press('w'), alphabet);
            let after = step.panel;
            &&& step.request is None
            &&& after == (PanelView { pending: after.pending, ..panel })
            &&& if alphabet.len() > 0 && in_view(panel, panel.scroll as int) {
                match after.pending {
                    Some(PendingView::Jump { labels, first }) => {
                        &&& first is None
                        &&& label_rows_in_view(panel, labels, alphabet)
                        &&& label_in_order(panel, labels, alphabet)
                    },
                    _ => false,
                }
            } else {
                after.pending is None
            }
        }),
{
    let n = alphabet.len() as int;
    let after = panel.after_key(press('w'), alphabet).panel;
    let calm = PanelView { pending: None, ..panel };
    let count = calm.label_count(alphabet.len());
    assert(n > 0 ==> n * n > 0) by (nonlinear_arith);
    assert(n == 0 ==> n * n == 0) by (nonlinear_arith);
    if n > 0 && in_view(panel, panel.scroll as int) {
        let labels = jump_labels(panel.scroll as int, count, alphabet);
        assert(count > 0);
        assert(after.pending == Some(PendingView::Jump { labels, first: None }));
        assert forall|j: int| 0 <= j < labels.len() implies (#[trigger] labels[j]).row
            == panel.scroll + j && in_view(panel, panel.scroll + j) && is_pair(
            alphabet,
            j,
            labels[j].first,
            labels[j].second,
        ) by {
            let a = j / n;
            let b = j % n;
            assert(0 <= a < n && 0 <= b < n && a * n + b == j) by (nonlinear_arith)
                requires
                    n > 0,
                    0 <= j < n * n,
                    a == j / n,
                    b == j % n,
            ;
            assert(labels[j].first == alphabet[a] && labels[j].second == alphabet[b]);
        }
        assert forall|r: int|
            #![trigger in_view(panel, r)]
            in_view(panel, r) && r - panel.scroll < alphabet.len() * alphabet.len() implies exists|
            j: int,
        |
            0 <= j < labels.len() && (#[trigger] labels[j]).row == r by {
            assert(labels[r - panel.scroll].row == r);
        }
        assert(label_rows_in_view(panel, labels, alphabet));
    }
}

/// The first character of a label leaves the labels that start with it, in their
/// order, to be completed; nothing else changes.
pub proof fn law_first_label_key(
    panel: PanelView,
    labels: Seq<JumpLabel>,
    alphabet: Seq<char>,
    i: int,
)
    requires
        panel.pending == Some(PendingView::Jump { labels, first: None }),
        0 <= i < labels.len(),
    ensures
        ({
            let ch = labels[i].first;
            let step = panel.after_key(press(ch), alphabet);
            &&& step.request is None
            &&& step.panel == (PanelView {
                pending: Some(
                    PendingView::Jump {
                        labels: labels.filter(|label: JumpLabel| label.first == ch),
                        first: Some(ch),
                    },
                ),
                ..panel
            })
        }),
{
    let ch = labels[i].first;
    labels.lemma_filter_contains(|label: JumpLabel| label.first == ch, i);
}

/// The second character of a label selects the row of the first label that it
/// completes, which is to be scrolled into view, and ends the jump.
pub proof fn law_second_label_key(
    panel: PanelView,
    labels: Seq<JumpLabel>,
    first: char,
    alphabet: Seq<char>,
    i: int,
)
    requires
        panel.pending == Some(PendingView::Jump { labels, first: Some(first) }),
        0 <= i < labels.len(),
        forall|j: int| 0 <= j < i ==> (#[trigger] labels[j]).second != labels[i].second,
    ensures
        ({
            let step = panel.after_key(press(labels[i].second), alphabet);
            &&& step.request is None
            &&& step.panel == (PanelView {
                selection: labels[i].row as nat,
                ensure_visible: true,
                pending: None,
                ..panel
            })
        }),
{
    assert(is_first_label(labels, labels[i].second, i));
}

/// The panel is in order, and its rows show all there is, unless a directory
/// that is expanded and was not read is asked for.
pub open spec fn in_order(panel: PanelView, request: Option<RequestView>) -> bool {
    &&& panel.valid()
    &&& match request {
        Some(RequestView::ReadDirectory(dir)) => {
            &&& panel.expanded.contains(dir)
            &&& !panel.children.contains_key(dir)
        },
        _ => panel.settled(),
    }
}

/// Toggling a directory leaves the panel in order.
proof fn lemma_toggled_in_order(panel: PanelView, dir: PathView)
    requires
        panel.valid(),
        panel.settled(),
        panel.pending is None,
        below(dir, panel.root),
    ensures
        in_order(panel.toggled(dir).panel, panel.toggled(dir).request),
{
    panel.lemma_toggled(dir);
    if panel.toggled(dir).request is Some {
        panel.toggled(dir).panel.lemma_missing();
    }
}

/// Selecting a row leaves the panel in order.
proof fn lemma_at_row(panel: PanelView, i: nat)
    requires
        panel.valid(),
        i < panel.rows.len() || i == 0,
    ensures
        panel.at_row(i).valid(),
        panel.settled() ==> panel.at_row(i).settled(),
{
    assert(panel.at_row(i).tree() == panel.tree());
}

/// The commands that toggle leave the panel in order.
proof fn lemma_toggling_commands(panel: PanelView)
    requires
        panel.valid(),
        panel.settled(),
        panel.pending is None,
    ensures
        in_order(panel.activated().panel, panel.activated().request),
        in_order(panel.collapsed().panel, panel.collapsed().request),
        in_order(panel.parent_collapsed().panel, panel.parent_collapsed().request),
{
    let at = panel.selection as int;
    if at < panel.rows.len() {
        lemma_toggled_in_order(panel, panel.rows[at].path);
        let moved = panel.at_parent();
        if parent_row(panel.rows, at) is Some {
            lemma_at_row(panel, parent_row(panel.rows, at)->0 as nat);
        }
        lemma_toggled_in_order(moved, moved.rows[moved.selection as int].path);
    }
    assert(PanelView { focused: false, ..panel }.tree() == panel.tree());
}

/// The commands that do not toggle leave the panel in order.
proof fn lemma_other_commands(panel: PanelView, command: Command)
    requires
        panel.valid(),
        panel.settled(),
        panel.pending is None,
        command != Command::Activate,
        command != Command::Collapse,
        command != Command::CollapseParent,
    ensures
        in_order(panel.after_command(command).panel, panel.after_command(command).request),
{
    assert(panel.after_command(command).panel.tree() == panel.tree());
}

/// Every key leaves the panel in order. Where it asks for nothing, or for a file
/// to be opened, the rows show all there is; else it asks for a directory that
/// is expanded and was not read.
pub proof fn law_keys_keep_order(panel: PanelView, event: KeyEvent, alphabet: Seq<char>)
    requires
        panel.valid(),
        panel.settled(),
    ensures
        in_order(
            panel.after_key(event, alphabet).panel,
            panel.after_key(event, alphabet).request,
        ),
{
    if panel.pending is Some {
        lemma_pending_key(panel, event, alphabet);
    } else {
        let command = command_of(event);
        lemma_toggling_commands(panel);
        if command != Command::Activate && command != Command::Collapse && command
            != Command::CollapseParent {
            lemma_other_commands(panel, command);
        }
    }
}

/// The next key of a sequence leaves the panel in order.
proof fn lemma_pending_key(panel: PanelView, event: KeyEvent, alphabet: Seq<char>)
    requires
        panel.valid(),
        panel.pending is Some,
    ensures
        panel.after_key(event, alphabet).panel.valid(),
        panel.settled() ==> panel.after_key(event, alphabet).panel.settled(),
{
    let n = alphabet.len() as int;
    let calm = PanelView { pending: None, ..panel };
    assert(n * n >= 0) by (nonlinear_arith);
    assert(calm.tree() == panel.tree());
    assert(panel.after_key(event, alphabet).panel.tree() == panel.tree());
    if let (Some(PendingView::Jump { labels, first }), Some(ch)) = (panel.pending, event.typed()) {
        let chosen = |label: JumpLabel| label.first == ch;
        let remaining = labels.filter(chosen);
        assert forall|i: int| 0 <= i < remaining.len() implies (#[trigger] remaining[i]).row
            < panel.rows.len() by {
            labels.lemma_filter_contains_rev(chosen, remaining[i]);
        }
    }
}

/// A row that a key selects is drawn: once the panel is put into an area with
/// room for a row, the row is in view. Left out is only a selection that the
/// rows shrank away from, other than by `H`.
pub proof fn law_selected_row_is_drawn(
    panel: PanelView,
    event: KeyEvent,
    alphabet: Seq<char>,
    area: Rect,
)
    requires
        panel.valid(),
        panel.settled(),
        panel.after_key(event, alphabet).panel.selection != panel.selection,
        panel.after_key(event, alphabet).panel.rows.len() >= panel.rows.len() || event == press('H'),
        area.width > 0,
        area.height > 1,
    ensures
        ({
            let after = panel.after_key(event, alphabet).panel;
            let drawn = after.placed(area);
            &&& after.ensure_visible
            &&& drawn.area == area
            &&& drawn.selection == after.selection
            &&& in_view(drawn, drawn.selection as int)
        }),
{
    law_keys_keep_order(panel, event, alphabet);
    if event == press('H') && panel.rows.len() > 0 && panel.rows[panel.selection as int].depth
        > 0 {
        law_parent_row_is_directory(panel, panel.selection as int);
    }
}

} // verus!
