use file_tree::listing::Listings;
use file_tree::path::PathSet;
use file_tree::{is_listing, Component, DirEntry, Name, TreePath};

fn path(text: &str) -> TreePath {
    let mut components = Vec::new();
    if text.starts_with('/') {
        components.push(Component::RootDir);
    }
    for name in text.split('/') {
        if name == ".." {
            components.push(Component::ParentDir);
        } else if name == "." {
            components.push(Component::CurDir);
        } else if !name.is_empty() {
            components.push(Component::Normal(Name::Bytes(name.as_bytes().to_vec())));
        }
    }
    TreePath::new(components)
}

fn entry(text: &str, is_dir: bool) -> DirEntry {
    DirEntry { path: path(text), is_dir }
}

#[test]
fn a_path_starts_with_whole_components_only() {
    assert!(path("/a/b").starts_with(&path("/a")));
    assert!(path("/a/b").starts_with(&path("/a/b")));
    assert!(path("/a/b").starts_with(&path("/")));
    assert!(!path("/ab").starts_with(&path("/a")));
    assert!(!path("/a").starts_with(&path("/a/b")));
    assert!(!path("a/b").starts_with(&path("/a")));
}

#[test]
fn below_leaves_the_path_itself_out() {
    assert!(path("/a/b").is_below(&path("/a")));
    assert!(!path("/a").is_below(&path("/a")));
    assert!(!path("/b/a").is_below(&path("/a")));
}

#[test]
fn equal_components_make_equal_paths() {
    assert!(path("/a//b/").same(&path("/a/b")));
    assert!(!path("/a/b").same(&path("/a/c")));
    assert!(!path("/a/b").same(&path("/a")));
    assert!(!path("..").same(&path(".")));
    let prefix = TreePath::new(vec![Component::Prefix(Name::Bytes(b"C:".to_vec())), Component::RootDir]);
    let other = TreePath::new(vec![Component::Prefix(Name::Bytes(b"D:".to_vec())), Component::RootDir]);
    assert!(prefix.same(&prefix.clone()));
    assert!(!prefix.same(&other));
    let wide = |units: Vec<u16>| TreePath::new(vec![Component::Normal(Name::Wide(units))]);
    assert!(wide(vec![0xd800]).same(&wide(vec![0xd800]).clone()));
    assert!(!wide(vec![0xd800]).same(&wide(vec![0xd801])));
    assert!(!wide(vec![0xd800]).same(&wide(vec![])));
    assert!(!wide(vec![0x61]).same(&path("a")));
}

#[test]
fn the_parent_drops_the_last_component() {
    assert_eq!(path("/a/b").parent(), Some(path("/a")));
    assert_eq!(path("/a").parent(), Some(path("/")));
    assert_eq!(path("/").parent(), None);
    assert_eq!(path("a/..").parent(), Some(path("a")));
    assert_eq!(path("a").parent(), Some(path("")));
    assert_eq!(path("").parent(), None);
    let drive = TreePath::new(vec![Component::Prefix(Name::Bytes(b"C:".to_vec()))]);
    assert_eq!(drive.parent(), None);
}

#[test]
fn only_a_name_is_a_file_name() {
    assert_eq!(path("/a/b.txt").file_name(), Some(&Name::Bytes(b"b.txt".to_vec())));
    assert_eq!(path("/").file_name(), None);
    assert_eq!(path("/a/..").file_name(), None);
    assert_eq!(path("").file_name(), None);
}

#[test]
fn components_come_back_as_given() {
    let parts = vec![
        Component::RootDir,
        Component::CurDir,
        Component::Normal(Name::Bytes(vec![0xff, b'a'])),
        Component::Normal(Name::Wide(vec![0xd800, 0x61])),
    ];
    assert_eq!(TreePath::new(parts.clone()).components(), &parts);
}

#[test]
fn a_set_holds_each_path_once() {
    let mut set = PathSet::new();
    assert!(!set.contains(&path("/a")));
    set.insert(path("/a"));
    set.insert(path("/a"));
    set.insert(path("/b"));
    assert!(set.contains(&path("/a")));
    assert!(set.remove(&path("/a")));
    assert!(!set.contains(&path("/a")));
    assert!(!set.remove(&path("/a")));
    assert!(set.contains(&path("/b")));
}

#[test]
fn listings_are_found_by_directory() {
    let mut listings = Listings::new();
    assert!(listings.get(&path("/a")).is_none());
    listings.insert(path("/a"), vec![entry("/a/x", false)]);
    listings.insert(path("/b"), vec![]);
    assert_eq!(listings.get(&path("/a")), Some(&vec![entry("/a/x", false)]));
    assert!(listings.contains_key(&path("/b")));
    listings.remove(&path("/a"));
    listings.remove(&path("/c"));
    assert!(!listings.contains_key(&path("/a")));
    assert_eq!(listings.get(&path("/b")), Some(&vec![]));
}

#[test]
fn entries_of_a_listing_lie_below_its_directory() {
    assert!(is_listing(&vec![], &path("/a")));
    assert!(is_listing(&vec![entry("/a/b", true), entry("/a/c/d", false)], &path("/a")));
    assert!(!is_listing(&vec![entry("/a/b", true), entry("/a", true)], &path("/a")));
    assert!(!is_listing(&vec![entry("/b", false)], &path("/a")));
}
