use file_tree::{
    Component, DirEntry, Draw, EventResult, FileTreePanel, KeyCode, KeyEvent, KeyModifiers,
    MouseButton, MouseEvent, MouseEventKind, Name, Rect, Request, Style, TreePath,
};

fn path(text: &str) -> TreePath {
    let mut components = Vec::new();
    if text.starts_with('/') {
        components.push(Component::RootDir);
    }
    for name in text.split('/') {
        if !name.is_empty() {
            components.push(Component::Normal(Name::Bytes(name.as_bytes().to_vec())));
        }
    }
    TreePath::new(components)
}

fn entry(text: &str) -> DirEntry {
    let is_dir = text.ends_with('/');
    DirEntry { path: path(text), is_dir }
}

fn entries(texts: &[&str]) -> Vec<DirEntry> {
    texts.iter().map(|text| entry(text)).collect()
}

/// The directories of a small project, as reading them would list them.
fn read(dir: &TreePath) -> Option<Vec<DirEntry>> {
    let listings: Vec<(&str, Vec<&str>)> = vec![
        ("/w", vec!["/w/docs/", "/w/src/", "/w/a.txt", "/w/b.txt"]),
        ("/w/docs", vec!["/w/docs/guide.md"]),
        ("/w/src", vec!["/w/src/ui/", "/w/src/lib.rs"]),
        ("/w/src/ui", vec!["/w/src/ui/tree.rs"]),
    ];
    for (name, listed) in &listings {
        if path(name).same(dir) {
            return Some(entries(listed));
        }
    }
    None
}

fn open_project() -> FileTreePanel {
    let root = path("/w");
    let listing = read(&root);
    FileTreePanel::new(root, String::from("/w"), listing)
}

/// Reads what the panel asks for, until its rows are rebuilt.
fn answer(panel: &mut FileTreePanel, request: Option<Request>) -> Vec<TreePath> {
    let mut asked = Vec::new();
    if let Some(Request::ReadDirectory(dir)) = request {
        let mut next = Some(dir);
        while let Some(dir) = next {
            let listing = read(&dir);
            panel.load_children(&dir, listing);
            asked.push(dir);
            next = panel.rebuild_rows();
        }
    }
    asked
}

fn show(panel: &mut FileTreePanel, target: &str) -> Vec<TreePath> {
    let target = path(target);
    let mut asked = Vec::new();
    while let Some(dir) = panel.reveal_path(&target) {
        let listing = read(&dir);
        panel.load_children(&dir, listing);
        asked.push(dir);
    }
    asked
}

fn plain(code: KeyCode) -> KeyEvent {
    KeyEvent {
        code,
        modifiers: KeyModifiers { shift: false, control: false, alt: false, logo: false },
    }
}

fn ctrl(ch: char) -> KeyEvent {
    KeyEvent {
        code: KeyCode::Char(ch),
        modifiers: KeyModifiers { shift: false, control: true, alt: false, logo: false },
    }
}

fn alphabet() -> Vec<char> {
    vec!['a', 'b', 'c']
}

fn press(panel: &mut FileTreePanel, event: KeyEvent) -> Option<Request> {
    panel.handle_key_event(&event, &alphabet())
}

fn type_keys(panel: &mut FileTreePanel, keys: &str) {
    for ch in keys.chars() {
        let request = press(panel, plain(KeyCode::Char(ch)));
        answer(panel, request);
    }
}

const AREA: Rect = Rect { x: 0, y: 0, width: 20, height: 11 };

/// The texts of the rows in view, each with its column, and a mark on the
/// selected one.
fn screen(panel: &mut FileTreePanel) -> Vec<String> {
    screen_in(panel, AREA)
}

fn screen_in(panel: &mut FileTreePanel, area: Rect) -> Vec<String> {
    let mut lines: Vec<String> = Vec::new();
    for draw in panel.render(area) {
        match draw {
            Draw::Text { x, text, style, .. } => {
                if style == Style::Directory || style == Style::File {
                    lines.push(format!("{}:{}", x - area.x, text));
                } else if style == Style::JumpLabel {
                    let last = lines.pop().unwrap();
                    lines.push(format!("{}[{}]", last, text));
                }
            }
            Draw::Fill { .. } => {
                let last = lines.pop().unwrap();
                lines.push(format!("{} <", last));
            }
        }
    }
    lines
}

fn mouse(panel: &mut FileTreePanel, kind: MouseEventKind, column: u16, row: u16) -> (Option<EventResult>, Option<Request>) {
    panel.handle_mouse_event(&MouseEvent { kind, column, row }, 3)
}

// ---- opening ----

#[test]
fn a_new_panel_shows_the_root() {
    let mut panel = open_project();
    assert!(!panel.is_focused());
    assert_eq!(panel.last_revealed(), None);
    assert_eq!(
        screen(&mut panel),
        vec!["0:▸ docs/ <", "0:▸ src/", "0:a.txt", "0:b.txt"]
    );
}

#[test]
fn a_root_that_cannot_be_read_is_empty() {
    let mut panel = FileTreePanel::new(path("/gone"), String::from("/gone"), None);
    assert_eq!(screen(&mut panel), Vec::<String>::new());
    assert_eq!(panel.rebuild_rows(), None);
    assert_eq!(press(&mut panel, plain(KeyCode::Enter)), None);
    assert_eq!(press(&mut panel, plain(KeyCode::Down)), None);
    assert_eq!(press(&mut panel, plain(KeyCode::Char('h'))), None);
    assert_eq!(press(&mut panel, plain(KeyCode::Char('H'))), None);
    type_keys(&mut panel, "ge");
    type_keys(&mut panel, "gw");
    assert_eq!(screen(&mut panel), Vec::<String>::new());
}

#[test]
fn losing_the_focus_cancels_a_sequence() {
    let mut panel = open_project();
    panel.set_focus(true);
    assert!(panel.is_focused());
    type_keys(&mut panel, "jjg");
    panel.set_focus(true);
    type_keys(&mut panel, "g");
    assert_eq!(screen(&mut panel)[0], "0:▸ docs/ <");
    type_keys(&mut panel, "jjg");
    panel.set_focus(false);
    assert!(!panel.is_focused());
    // no sequence is open, so this `e` is swallowed
    type_keys(&mut panel, "e");
    assert_eq!(screen(&mut panel)[2], "0:a.txt <");
}

// ---- expanding and collapsing ----

#[test]
fn enter_expands_and_collapses_a_directory() {
    let mut panel = open_project();
    type_keys(&mut panel, "j");
    let request = press(&mut panel, plain(KeyCode::Enter));
    assert_eq!(request, Some(Request::ReadDirectory(path("/w/src"))));
    // until the directory is read, the rows stay
    assert_eq!(screen(&mut panel).len(), 4);
    assert_eq!(answer(&mut panel, request), vec![path("/w/src")]);
    assert_eq!(
        screen(&mut panel),
        vec!["0:▸ docs/", "0:▾ src/ <", "2:▸ ui/", "2:lib.rs", "0:a.txt", "0:b.txt"]
    );
    assert_eq!(press(&mut panel, plain(KeyCode::Enter)), None);
    assert_eq!(
        screen(&mut panel),
        vec!["0:▸ docs/", "0:▸ src/ <", "0:a.txt", "0:b.txt"]
    );
}

#[test]
fn a_collapsed_directory_is_read_again() {
    let mut panel = open_project();
    type_keys(&mut panel, "jl");
    assert_eq!(press(&mut panel, plain(KeyCode::Char('h'))), None);
    let request = press(&mut panel, plain(KeyCode::Right));
    assert_eq!(request, Some(Request::ReadDirectory(path("/w/src"))));
    // by now there is another file in it
    panel.load_children(&path("/w/src"), Some(entries(&["/w/src/main.rs"])));
    assert_eq!(panel.rebuild_rows(), None);
    assert_eq!(
        screen(&mut panel),
        vec!["0:▸ docs/", "0:▾ src/ <", "2:main.rs", "0:a.txt", "0:b.txt"]
    );
}

#[test]
fn toggling_a_directory_twice_restores_the_rows() {
    let mut panel = open_project();
    let before = screen(&mut panel);
    let missing = panel.toggle_dir(&path("/w/src"));
    assert_eq!(missing, Some(path("/w/src")));
    assert_eq!(answer(&mut panel, missing.map(Request::ReadDirectory)), vec![path("/w/src")]);
    assert_eq!(screen(&mut panel).len(), 6);
    assert_eq!(panel.toggle_dir(&path("/w/src")), None);
    assert_eq!(screen(&mut panel), before);
}

#[test]
fn expanding_again_restores_the_rows() {
    let mut panel = open_project();
    type_keys(&mut panel, "jljlk");
    let before = screen(&mut panel);
    assert_eq!(before.len(), 7);
    type_keys(&mut panel, "l");
    assert_eq!(screen(&mut panel).len(), 4);
    type_keys(&mut panel, "l");
    assert_eq!(screen(&mut panel), before);
}

#[test]
fn directories_inside_stay_expanded() {
    let mut panel = open_project();
    type_keys(&mut panel, "jljlk");
    assert_eq!(screen(&mut panel)[1], "0:▾ src/ <");
    assert_eq!(screen(&mut panel)[2], "2:▾ ui/");
    assert_eq!(screen(&mut panel)[3], "4:tree.rs");
    type_keys(&mut panel, "h");
    // the inner directory was not forgotten, so only the outer one is read
    let request = press(&mut panel, plain(KeyCode::Char('l')));
    assert_eq!(answer(&mut panel, request), vec![path("/w/src")]);
    assert_eq!(screen(&mut panel)[3], "4:tree.rs");
}

#[test]
fn a_listing_is_kept_until_its_directory_is_collapsed() {
    let mut panel = open_project();
    panel.load_children(&path("/w"), Some(entries(&["/w/other"])));
    assert_eq!(panel.rebuild_rows(), None);
    assert_eq!(screen(&mut panel).len(), 4);
}

#[test]
fn an_unreadable_directory_is_empty() {
    let mut panel = FileTreePanel::new(
        path("/w"),
        String::from("/w"),
        Some(entries(&["/w/locked/", "/w/z"])),
    );
    let request = press(&mut panel, plain(KeyCode::Enter));
    assert_eq!(answer(&mut panel, request), vec![path("/w/locked")]);
    assert_eq!(screen(&mut panel), vec!["0:▾ locked/ <", "0:z"]);
}

#[test]
fn left_goes_to_the_parent_and_then_collapses_it() {
    let mut panel = open_project();
    type_keys(&mut panel, "jljlj");
    assert_eq!(screen(&mut panel)[3], "4:tree.rs <");
    press(&mut panel, plain(KeyCode::Left));
    assert_eq!(screen(&mut panel)[2], "2:▾ ui/ <");
    press(&mut panel, plain(KeyCode::Left));
    assert_eq!(screen(&mut panel)[2], "2:▸ ui/ <");
    press(&mut panel, plain(KeyCode::Left));
    assert_eq!(screen(&mut panel)[1], "0:▾ src/ <");
    press(&mut panel, plain(KeyCode::Left));
    assert_eq!(screen(&mut panel)[1], "0:▸ src/ <");
    // at the top level there is no parent
    press(&mut panel, plain(KeyCode::Left));
    assert_eq!(screen(&mut panel)[1], "0:▸ src/ <");
}

#[test]
fn the_parent_is_the_nearest_row_one_level_up() {
    let mut panel = open_project();
    // expand docs, then src, then src/ui, and go to src/lib.rs
    type_keys(&mut panel, "ljjljljj");
    assert_eq!(screen(&mut panel)[5], "2:lib.rs <");
    type_keys(&mut panel, "h");
    assert_eq!(screen(&mut panel)[2], "0:▾ src/ <");
}

#[test]
fn capital_h_collapses_the_parent() {
    let mut panel = open_project();
    type_keys(&mut panel, "jljj");
    assert_eq!(screen(&mut panel)[3], "2:lib.rs <");
    type_keys(&mut panel, "H");
    assert_eq!(
        screen(&mut panel),
        vec!["0:▸ docs/", "0:▸ src/ <", "0:a.txt", "0:b.txt"]
    );
    // a row at the top level has nothing to collapse
    type_keys(&mut panel, "H");
    assert_eq!(screen(&mut panel)[1], "0:▸ src/ <");
}

#[test]
fn activating_a_file_opens_it() {
    let mut panel = open_project();
    panel.set_focus(true);
    type_keys(&mut panel, "jj");
    assert_eq!(
        press(&mut panel, plain(KeyCode::Char('l'))),
        Some(Request::OpenFile(path("/w/a.txt")))
    );
    assert!(!panel.is_focused());
}

#[test]
fn activating_a_directory_keeps_the_focus() {
    let mut panel = open_project();
    panel.set_focus(true);
    type_keys(&mut panel, "l");
    assert!(panel.is_focused());
    press(&mut panel, plain(KeyCode::Esc));
    assert!(!panel.is_focused());
}

// ---- moving ----

#[test]
fn the_selection_stops_at_both_ends() {
    let mut panel = open_project();
    press(&mut panel, plain(KeyCode::Up));
    assert_eq!(screen(&mut panel)[0], "0:▸ docs/ <");
    for _ in 0..9 {
        press(&mut panel, plain(KeyCode::Down));
    }
    assert_eq!(screen(&mut panel)[3], "0:b.txt <");
    type_keys(&mut panel, "k");
    assert_eq!(screen(&mut panel)[2], "0:a.txt <");
}

/// A panel on a directory of a hundred files, named by their number.
fn open_many() -> FileTreePanel {
    let names: Vec<String> = (0..100).map(|i| format!("/m/{:02}", i)).collect();
    let listing = names.iter().map(|name| entry(name)).collect();
    FileTreePanel::new(path("/m"), String::from("/m"), Some(listing))
}

fn selected(panel: &mut FileTreePanel) -> String {
    let line = screen(panel).into_iter().find(|line| line.ends_with(" <")).unwrap();
    line[2..4].to_string()
}

#[test]
fn pages_are_as_high_as_the_view() {
    let mut panel = open_many();
    // before it is drawn, a page is one row
    press(&mut panel, plain(KeyCode::PageDown));
    press(&mut panel, ctrl('d'));
    assert_eq!(selected(&mut panel), "02");
    press(&mut panel, plain(KeyCode::PageDown));
    assert_eq!(selected(&mut panel), "12");
    press(&mut panel, ctrl('d'));
    assert_eq!(selected(&mut panel), "17");
    press(&mut panel, ctrl('u'));
    press(&mut panel, ctrl('u'));
    assert_eq!(selected(&mut panel), "07");
    press(&mut panel, plain(KeyCode::PageUp));
    assert_eq!(selected(&mut panel), "00");
}

#[test]
fn goto_jumps_to_the_ends() {
    let mut panel = open_many();
    type_keys(&mut panel, "ge");
    assert_eq!(selected(&mut panel), "99");
    type_keys(&mut panel, "gg");
    assert_eq!(selected(&mut panel), "00");
}

#[test]
fn another_key_cancels_goto() {
    let mut panel = open_many();
    type_keys(&mut panel, "gj");
    assert_eq!(selected(&mut panel), "00");
    type_keys(&mut panel, "j");
    assert_eq!(selected(&mut panel), "01");
    type_keys(&mut panel, "g");
    press(&mut panel, plain(KeyCode::Down));
    assert_eq!(selected(&mut panel), "01");
    type_keys(&mut panel, "g");
    press(&mut panel, ctrl('e'));
    assert_eq!(selected(&mut panel), "01");
}

#[test]
fn keys_without_a_meaning_are_swallowed() {
    let mut panel = open_many();
    panel.set_focus(true);
    let before = screen(&mut panel);
    type_keys(&mut panel, "xq");
    press(&mut panel, plain(KeyCode::Other));
    press(&mut panel, ctrl('j'));
    press(
        &mut panel,
        KeyEvent {
            code: KeyCode::Char('j'),
            modifiers: KeyModifiers { shift: false, control: false, alt: true, logo: false },
        },
    );
    press(
        &mut panel,
        KeyEvent {
            code: KeyCode::Char('d'),
            modifiers: KeyModifiers { shift: true, control: true, alt: false, logo: false },
        },
    );
    assert_eq!(screen(&mut panel), before);
    assert!(panel.is_focused());
}

// ---- jump labels ----

#[test]
fn rows_in_view_get_labels() {
    let mut panel = open_many();
    screen(&mut panel);
    type_keys(&mut panel, "gw");
    let lines = screen(&mut panel);
    assert_eq!(lines[0], "0:00 <[aa]");
    assert_eq!(lines[1], "0:01[ab]");
    assert_eq!(lines[2], "0:02[ac]");
    assert_eq!(lines[3], "0:03[ba]");
    assert_eq!(lines[8], "0:08[cc]");
    // there are nine pairs over three characters
    assert_eq!(lines[9], "0:09");
}

#[test]
fn typing_a_label_selects_its_row() {
    let mut panel = open_many();
    screen(&mut panel);
    type_keys(&mut panel, "gwb");
    let lines = screen(&mut panel);
    assert_eq!(lines[2], "0:02");
    assert_eq!(lines[3], "0:03[a]");
    assert_eq!(lines[5], "0:05[c]");
    type_keys(&mut panel, "c");
    assert_eq!(selected(&mut panel), "05");
    assert_eq!(screen(&mut panel)[3], "0:03");
}

#[test]
fn labels_follow_the_scroll() {
    let mut panel = open_many();
    type_keys(&mut panel, "ge");
    screen(&mut panel);
    type_keys(&mut panel, "gwab");
    assert_eq!(selected(&mut panel), "91");
}

#[test]
fn another_key_cancels_a_jump() {
    let mut panel = open_many();
    screen(&mut panel);
    type_keys(&mut panel, "gwz");
    assert_eq!(screen(&mut panel)[0], "0:00 <");
    type_keys(&mut panel, "gwbz");
    assert_eq!(screen(&mut panel)[3], "0:03");
    assert_eq!(selected(&mut panel), "00");
    type_keys(&mut panel, "gw");
    press(&mut panel, plain(KeyCode::Esc));
    assert_eq!(screen(&mut panel)[0], "0:00 <");
}

#[test]
fn without_an_alphabet_there_are_no_labels() {
    let mut panel = open_many();
    screen(&mut panel);
    panel.handle_key_event(&plain(KeyCode::Char('g')), &vec![]);
    panel.handle_key_event(&plain(KeyCode::Char('w')), &vec![]);
    assert_eq!(screen(&mut panel)[0], "0:00 <");
}

#[test]
fn without_a_view_there_are_no_labels() {
    let mut panel = open_many();
    type_keys(&mut panel, "gw");
    // so `j` moves
    type_keys(&mut panel, "j");
    assert_eq!(selected(&mut panel), "01");
}

// ---- revealing ----

#[test]
fn revealing_a_path_expands_its_ancestors() {
    let mut panel = open_project();
    assert_eq!(
        show(&mut panel, "/w/src/ui/tree.rs"),
        vec![path("/w/src"), path("/w/src/ui")]
    );
    assert_eq!(panel.last_revealed(), Some(&path("/w/src/ui/tree.rs")));
    assert_eq!(
        screen(&mut panel),
        vec![
            "0:▸ docs/",
            "0:▾ src/",
            "2:▾ ui/",
            "4:tree.rs <",
            "2:lib.rs",
            "0:a.txt",
            "0:b.txt"
        ]
    );
    // once more, nothing is read and nothing changes
    assert_eq!(show(&mut panel, "/w/src/ui/tree.rs"), vec![]);
    assert_eq!(screen(&mut panel)[3], "4:tree.rs <");
}

#[test]
fn a_path_outside_the_root_is_only_recorded() {
    let mut panel = open_project();
    type_keys(&mut panel, "j");
    assert_eq!(show(&mut panel, "/elsewhere/x"), vec![]);
    assert_eq!(panel.last_revealed(), Some(&path("/elsewhere/x")));
    assert_eq!(screen(&mut panel)[1], "0:▸ src/ <");
}

#[test]
fn a_path_that_is_not_listed_is_not_selected() {
    let mut panel = open_project();
    type_keys(&mut panel, "jj");
    assert_eq!(show(&mut panel, "/w/src/ignored.o"), vec![path("/w/src")]);
    assert_eq!(panel.last_revealed(), Some(&path("/w/src/ignored.o")));
    // its directory is expanded all the same
    assert_eq!(screen(&mut panel)[1], "0:▾ src/");
    assert_eq!(screen(&mut panel)[2], "2:▸ ui/ <");
}

#[test]
fn revealing_the_root_changes_no_row() {
    let mut panel = open_project();
    assert_eq!(show(&mut panel, "/w"), vec![]);
    assert_eq!(screen(&mut panel)[0], "0:▸ docs/ <");
}

// ---- the mouse ----

#[test]
fn a_click_activates_the_row_under_it() {
    let mut panel = open_project();
    screen(&mut panel);
    let (result, request) = mouse(&mut panel, MouseEventKind::Down(MouseButton::Left), 3, 2);
    assert_eq!(result, Some(EventResult::Consumed));
    assert_eq!(request, Some(Request::ReadDirectory(path("/w/src"))));
    answer(&mut panel, request);
    assert_eq!(screen(&mut panel)[1], "0:▾ src/ <");
    let (_, request) = mouse(&mut panel, MouseEventKind::Down(MouseButton::Left), 0, 4);
    assert_eq!(request, Some(Request::OpenFile(path("/w/src/lib.rs"))));
}

#[test]
fn a_click_on_a_directory_leaves_the_rows_above() {
    let mut panel = open_project();
    screen(&mut panel);
    let down = MouseEventKind::Down(MouseButton::Left);
    let (_, request) = mouse(&mut panel, down, 3, 2);
    assert_eq!(answer(&mut panel, request), vec![path("/w/src")]);
    assert_eq!(
        screen(&mut panel),
        vec!["0:▸ docs/", "0:▾ src/ <", "2:▸ ui/", "2:lib.rs", "0:a.txt", "0:b.txt"]
    );
    assert_eq!(mouse(&mut panel, down, 3, 2), (Some(EventResult::Consumed), None));
    assert_eq!(screen(&mut panel), vec!["0:▸ docs/", "0:▸ src/ <", "0:a.txt", "0:b.txt"]);
}

#[test]
fn a_click_counts_from_the_scroll() {
    let mut panel = open_many();
    type_keys(&mut panel, "ge");
    screen(&mut panel);
    let (_, request) = mouse(&mut panel, MouseEventKind::Down(MouseButton::Left), 5, 1);
    assert_eq!(request, Some(Request::OpenFile(path("/m/90"))));
}

#[test]
fn a_click_on_the_header_or_below_the_rows_selects_nothing() {
    let mut panel = open_project();
    screen(&mut panel);
    type_keys(&mut panel, "g");
    let click = MouseEventKind::Down(MouseButton::Left);
    assert_eq!(mouse(&mut panel, click, 3, 0), (Some(EventResult::Consumed), None));
    // the open sequence is gone
    type_keys(&mut panel, "e");
    assert_eq!(screen(&mut panel)[0], "0:▸ docs/ <");
    assert_eq!(mouse(&mut panel, click, 3, 5), (Some(EventResult::Consumed), None));
    assert_eq!(screen(&mut panel)[0], "0:▸ docs/ <");
}

#[test]
fn events_outside_are_not_the_panels() {
    let mut panel = open_project();
    let click = MouseEventKind::Down(MouseButton::Left);
    // not drawn yet
    assert_eq!(mouse(&mut panel, click, 0, 0), (None, None));
    screen_in(&mut panel, Rect { x: 5, y: 2, width: 20, height: 4 });
    assert_eq!(mouse(&mut panel, click, 4, 3), (None, None));
    assert_eq!(mouse(&mut panel, click, 25, 3), (None, None));
    assert_eq!(mouse(&mut panel, click, 6, 1), (None, None));
    assert_eq!(mouse(&mut panel, click, 6, 6), (None, None));
    assert_eq!(mouse(&mut panel, click, 5, 2), (Some(EventResult::Consumed), None));
}

#[test]
fn other_events_inside_are_ignored() {
    let mut panel = open_project();
    screen(&mut panel);
    for kind in [
        MouseEventKind::Moved,
        MouseEventKind::Down(MouseButton::Right),
        MouseEventKind::Up(MouseButton::Left),
        MouseEventKind::Drag(MouseButton::Left),
        MouseEventKind::ScrollLeft,
        MouseEventKind::ScrollRight,
    ] {
        assert_eq!(mouse(&mut panel, kind, 3, 3), (Some(EventResult::Ignored), None));
    }
    assert_eq!(screen(&mut panel)[0], "0:▸ docs/ <");
}

#[test]
fn the_wheel_scrolls_the_rows() {
    let mut panel = open_many();
    screen(&mut panel);
    assert_eq!(
        mouse(&mut panel, MouseEventKind::ScrollDown, 3, 3),
        (Some(EventResult::Consumed), None)
    );
    assert_eq!(screen(&mut panel)[0], "0:03");
    mouse(&mut panel, MouseEventKind::ScrollDown, 3, 3);
    mouse(&mut panel, MouseEventKind::ScrollUp, 3, 3);
    assert_eq!(screen(&mut panel)[0], "0:03");
    mouse(&mut panel, MouseEventKind::ScrollUp, 3, 3);
    mouse(&mut panel, MouseEventKind::ScrollUp, 3, 3);
    assert_eq!(screen(&mut panel)[0], "0:00 <");
    // a negative number of lines counts by its size
    let down = MouseEvent { kind: MouseEventKind::ScrollDown, column: 3, row: 3 };
    panel.handle_mouse_event(&down, -2);
    assert_eq!(screen(&mut panel)[0], "0:02");
    panel.handle_mouse_event(&down, isize::MIN);
    assert_eq!(screen(&mut panel), vec!["0:99"]);
}

#[test]
fn the_border_is_dragged_to_resize() {
    let mut panel = open_project();
    screen(&mut panel);
    assert_eq!(panel.width(20), 20);
    assert!(!panel.is_resizing());
    let grab = MouseEventKind::Down(MouseButton::Left);
    assert_eq!(mouse(&mut panel, grab, 19, 4), (Some(EventResult::Consumed), None));
    assert!(panel.is_resizing());
    let drag = MouseEventKind::Drag(MouseButton::Left);
    // also outside of the panel
    assert_eq!(mouse(&mut panel, drag, 29, 90), (Some(EventResult::Consumed), None));
    assert_eq!(panel.width(20), 30);
    // any other event is captured and does nothing
    assert_eq!(
        mouse(&mut panel, MouseEventKind::ScrollDown, 3, 3),
        (Some(EventResult::Consumed), None)
    );
    assert_eq!(
        mouse(&mut panel, MouseEventKind::Drag(MouseButton::Right), 3, 3),
        (Some(EventResult::Consumed), None)
    );
    assert_eq!(panel.width(20), 30);
    mouse(&mut panel, drag, 3, 4);
    assert_eq!(panel.width(20), 10);
    assert_eq!(
        mouse(&mut panel, MouseEventKind::Up(MouseButton::Left), 3, 4),
        (Some(EventResult::Consumed), None)
    );
    assert!(!panel.is_resizing());
    assert_eq!(mouse(&mut panel, drag, 3, 4), (Some(EventResult::Ignored), None));
    assert_eq!(screen(&mut panel)[0], "0:▸ docs/ <");
}

#[test]
fn a_drag_left_of_the_panel_leaves_the_least_width() {
    let mut panel = open_project();
    screen_in(&mut panel, Rect { x: 40, y: 0, width: 20, height: 9 });
    mouse(&mut panel, MouseEventKind::Down(MouseButton::Left), 59, 4);
    mouse(&mut panel, MouseEventKind::Drag(MouseButton::Left), 2, 4);
    assert_eq!(panel.width(20), 10);
    mouse(&mut panel, MouseEventKind::Drag(MouseButton::Left), 64, 4);
    assert_eq!(panel.width(20), 25);
}

#[test]
fn keys_change_the_width() {
    let mut panel = open_project();
    assert_eq!(panel.width(4), 10);
    screen(&mut panel);
    type_keys(&mut panel, ">");
    assert_eq!(panel.width(4), 22);
    type_keys(&mut panel, "<");
    assert_eq!(panel.width(4), 18);
    screen_in(&mut panel, Rect { x: 0, y: 0, width: 11, height: 9 });
    type_keys(&mut panel, "<");
    assert_eq!(panel.width(30), 10);
    screen_in(&mut panel, Rect { x: 0, y: 0, width: u16::MAX, height: 9 });
    type_keys(&mut panel, ">");
    assert_eq!(panel.width(30), u16::MAX);
}

// ---- drawing ----

#[test]
fn the_whole_panel_is_drawn_in_order() {
    let mut panel = FileTreePanel::new(
        path("/w"),
        String::from("/w"),
        Some(entries(&["/w/d/", "/w/f"])),
    );
    panel.set_focus(true);
    let area = Rect { x: 3, y: 5, width: 12, height: 3 };
    let border = |y: u16| Draw::Text {
        x: 14,
        y,
        text: String::from("│"),
        max_width: None,
        style: Style::Border,
    };
    assert_eq!(
        panel.render(area),
        vec![
            border(5),
            border(6),
            border(7),
            Draw::Text {
                x: 3,
                y: 5,
                text: String::from("w/"),
                max_width: Some(11),
                style: Style::Header,
            },
            Draw::Text {
                x: 3,
                y: 6,
                text: String::from("▸ d/"),
                max_width: Some(11),
                style: Style::Directory,
            },
            Draw::Fill {
                area: Rect { x: 3, y: 6, width: 11, height: 1 },
                style: Style::FocusedSelection,
            },
            Draw::Text {
                x: 3,
                y: 7,
                text: String::from("f"),
                max_width: Some(11),
                style: Style::File,
            },
        ]
    );
    panel.set_focus(false);
    assert_eq!(
        panel.render(area)[5],
        Draw::Fill {
            area: Rect { x: 3, y: 6, width: 11, height: 1 },
            style: Style::Selection,
        }
    );
}

#[test]
fn no_area_draws_nothing() {
    let mut panel = open_project();
    assert_eq!(panel.render(Rect { x: 9, y: 9, width: 0, height: 5 }), vec![]);
    assert_eq!(panel.render(Rect { x: 9, y: 9, width: 5, height: 0 }), vec![]);
    // the corner of the screen is an area without extent, too
    assert_eq!(
        panel.render(Rect { x: u16::MAX, y: u16::MAX, width: 0, height: 7 }),
        vec![]
    );
}

#[test]
fn a_header_without_rows() {
    let mut panel = open_many();
    let draws = panel.render(Rect { x: 0, y: 0, width: 1, height: 1 });
    assert_eq!(draws.len(), 2);
    assert_eq!(
        draws[1],
        Draw::Text {
            x: 0,
            y: 0,
            text: String::from("m/"),
            max_width: Some(0),
            style: Style::Header,
        }
    );
}

#[test]
fn the_selection_is_scrolled_into_view() {
    let mut panel = open_many();
    type_keys(&mut panel, "ge");
    // without room for a row, the wish stays
    panel.render(Rect { x: 0, y: 0, width: 20, height: 1 });
    let lines = screen(&mut panel);
    assert_eq!(lines[0], "0:90");
    assert_eq!(lines[9], "0:99 <");
    type_keys(&mut panel, "k");
    // it is in view, so nothing scrolls
    assert_eq!(screen(&mut panel)[0], "0:90");
    type_keys(&mut panel, "gg");
    assert_eq!(screen(&mut panel)[0], "0:00 <");
    // the wheel may leave the selection out of view
    mouse(&mut panel, MouseEventKind::ScrollDown, 3, 3);
    assert_eq!(screen(&mut panel)[0], "0:03");
    type_keys(&mut panel, "j");
    assert_eq!(screen(&mut panel)[0], "0:01 <");
}

#[test]
fn the_scroll_is_cut_to_the_rows() {
    let mut panel = FileTreePanel::new(
        path("/m"),
        String::from("/m"),
        Some(entries(&["/m/dir/"])),
    );
    let request = press(&mut panel, plain(KeyCode::Enter));
    assert_eq!(request, Some(Request::ReadDirectory(path("/m/dir"))));
    let names: Vec<String> = (0..50).map(|i| format!("/m/dir/{:02}", i)).collect();
    panel.load_children(&path("/m/dir"), Some(names.iter().map(|name| entry(name)).collect()));
    assert_eq!(panel.rebuild_rows(), None);
    type_keys(&mut panel, "ge");
    assert_eq!(screen(&mut panel)[9], "2:49 <");
    type_keys(&mut panel, "H");
    assert_eq!(screen(&mut panel), vec!["0:▸ dir/ <"]);
}

#[test]
fn deep_rows_reach_the_border() {
    let mut panel = open_project();
    show(&mut panel, "/w/src/ui/tree.rs");
    let area = Rect { x: 0, y: 0, width: 5, height: 11 };
    // the rows of the third level start at the border and are not written, so
    // that the highlight of the selected one comes after the row above it
    assert_eq!(
        screen_in(&mut panel, area),
        vec!["0:▸ docs/", "0:▾ src/", "2:▾ ui/ <", "2:lib.rs", "0:a.txt", "0:b.txt"]
    );
    let draws = panel.render(area);
    let selected = Rect { x: 0, y: 4, width: 4, height: 1 };
    assert!(draws.contains(&Draw::Fill { area: selected, style: Style::Selection }));
}

#[test]
fn names_that_are_not_unicode_are_shown_with_replacements() {
    let mut parts = path("/w").components().clone();
    parts.push(Component::Normal(Name::Bytes(vec![b'a', 0xff, b'b'])));
    let odd = DirEntry { path: TreePath::new(parts), is_dir: false };
    let mut panel = FileTreePanel::new(
        path("/w"),
        String::from("/w"),
        Some(vec![odd, entry("/w/gr\u{fc}n")]),
    );
    assert_eq!(screen(&mut panel), vec!["0:a\u{fffd}b <", "0:gr\u{fc}n"]);
}

#[test]
fn unpaired_surrogates_are_shown_as_one_replacement_each() {
    let shown = |units: Vec<u16>| {
        let mut parts = path("/w").components().clone();
        parts.push(Component::Normal(Name::Wide(units)));
        let odd = DirEntry { path: TreePath::new(parts), is_dir: false };
        let mut panel = FileTreePanel::new(path("/w"), String::from("/w"), Some(vec![odd]));
        screen(&mut panel)
    };
    assert_eq!(shown(vec![0x67, 0xfc, 0xd83d, 0xde00]), vec!["0:g\u{fc}\u{1f600} <"]);
    assert_eq!(shown(vec![0x61, 0xd800, 0x62]), vec!["0:a\u{fffd}b <"]);
    assert_eq!(shown(vec![0xdc00, 0xd800]), vec!["0:\u{fffd}\u{fffd} <"]);
    assert_eq!(shown(vec![0xd800, 0xd83d, 0xde00]), vec!["0:\u{fffd}\u{1f600} <"]);
    assert_eq!(shown(vec![0xdbff, 0xdfff, 0xd7ff, 0xe000]), vec!["0:\u{10ffff}\u{d7ff}\u{e000} <"]);
}

#[test]
fn names_that_look_alike_stay_apart() {
    let with = |byte: u8| {
        let mut parts = path("/w").components().clone();
        parts.push(Component::Normal(Name::Bytes(vec![byte])));
        TreePath::new(parts)
    };
    let mut panel = FileTreePanel::new(
        path("/w"),
        String::from("/w"),
        Some(vec![
            DirEntry { path: with(0xfe), is_dir: false },
            DirEntry { path: with(0xff), is_dir: false },
        ]),
    );
    assert_eq!(panel.reveal_path(&with(0xff)), None);
    assert_eq!(screen(&mut panel), vec!["0:\u{fffd}", "0:\u{fffd} <"]);
}

#[test]
fn a_root_without_a_name_is_written_out() {
    let mut panel = FileTreePanel::new(path("/"), String::from("/"), Some(entries(&["/etc/"])));
    let header = panel.render(AREA).into_iter().find_map(|draw| match draw {
        Draw::Text { text, style: Style::Header, .. } => Some(text),
        _ => None,
    });
    assert_eq!(header, Some(String::from("//")));
    assert_eq!(screen(&mut panel), vec!["0:▸ etc/ <"]);
}

#[test]
fn styles_name_their_theme_scopes() {
    assert_eq!(Style::Border.scope(), "ui.window");
    assert_eq!(Style::Header.scope(), "ui.text.directory");
    assert_eq!(Style::Directory.scope(), "ui.text.directory");
    assert_eq!(Style::File.scope(), "ui.text");
    assert_eq!(Style::FocusedSelection.scope(), "ui.menu.selected");
    assert_eq!(Style::Selection.scope(), "ui.selection");
    assert_eq!(Style::JumpLabel.scope(), "ui.virtual.jump-label");
    assert!(Style::Header.is_bold());
    assert!(!Style::Directory.is_bold());
}

#[test]
fn a_file_that_cannot_be_opened_gets_a_message() {
    assert_eq!(
        FileTreePanel::open_file_error(Some(String::from("permission denied")), "/w/a"),
        "permission denied"
    );
    assert_eq!(
        FileTreePanel::open_file_error(None, "/w/a"),
        "unable to open \"/w/a\""
    );
}
