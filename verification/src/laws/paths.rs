//! What holds of paths, names and listings.

use vstd::prelude::*;

use crate::listing::{entry_views, is_listing_of, DirEntry, EntryView};
use crate::model::{read_request, request_view, Request, RequestView};
use crate::panel::{listing_view, path_view};
use crate::path::{
    below, has_parent, is_ancestor, parts, starts_with, Component, Name, NameView, Part, PathView,
    TreePath,
};
use crate::tree::{row_views, RowView, TreeRow};

verus! {

/// A path starts with another exactly if it is the other, continued.
pub proof fn law_starts_with_is_continuation(path: PathView, base: PathView, rest: PathView)
    ensures
        starts_with(base + rest, base),
        starts_with(path, base) ==> path == base + path.skip(base.len() as int),
{
    assert((base + rest).take(base.len() as int) =~= base);
    if starts_with(path, base) {
        assert(path =~= path.take(base.len() as int) + path.skip(base.len() as int));
    }
}

/// A path lies below another exactly if it starts with it and is not it.
pub proof fn law_below_is_proper(path: PathView, base: PathView)
    ensures
        below(path, base) <==> starts_with(path, base) && path != base,
{
    if starts_with(path, base) && path.len() == base.len() {
        assert(path.take(base.len() as int) =~= path);
    }
}

/// The ancestors of a path are found one by one from its end: those of a path
/// that ends in a name, `.` or `..` are the path without that and the ancestors
/// of that path. The empty path and a path that ends in a root or a prefix have
/// none.
pub proof fn law_ancestors_go_up(dir: PathView, path: PathView, last: Part)
    ensures
        has_parent(last) <==> !(last is Prefix || last is RootDir),
        !is_ancestor(dir, Seq::empty()),
        match last {
            Part::Prefix(_) | Part::RootDir => !is_ancestor(dir, path.push(last)),
            _ => is_ancestor(dir, path.push(last)) <==> dir == path || is_ancestor(dir, path),
        },
{
    let longer = path.push(last);
    assert(longer[path.len() as int] == last);
    assert(longer.take(path.len() as int) =~= path);
    if dir.len() <= path.len() {
        assert(longer.take(dir.len() as int) =~= path.take(dir.len() as int));
    }
    if dir.len() == path.len() {
        assert(path.take(dir.len() as int) =~= path);
    }
    if is_ancestor(dir, path) && has_parent(last) {
        assert forall|i: int| dir.len() <= i < longer.len() implies has_parent(
            #[trigger] longer[i],
        ) by {
            if i < path.len() {
                assert(longer[i] == path[i]);
            }
        }
    }
    if is_ancestor(dir, longer) {
        assert forall|i: int| dir.len() <= i < path.len() implies has_parent(#[trigger] path[i]) by {
            assert(longer[i] == path[i]);
        }
    }
}

/// Names and components stand for themselves: two that stand for the same are of
/// the same kind and hold the same.
pub proof fn law_names_stay_apart(left: Name, right: Name, bytes: Vec<u8>, units: Vec<u16>)
    ensures
        Name::Bytes(bytes)@ == NameView::Bytes(bytes@),
        Name::Wide(units)@ == NameView::Wide(units@),
        Component::Normal(left)@ == Part::Normal(left@),
        Component::Prefix(left)@ == Part::Prefix(left@),
        Component::RootDir@ == Part::RootDir,
        Component::CurDir@ == Part::CurDir,
        Component::ParentDir@ == Part::ParentDir,
        Component::Normal(left)@ == Component::Normal(right)@ ==> left@ == right@,
{
}

/// Sequences of components, entries and rows stand for what they hold, one by
/// one and in order.
pub proof fn law_sequences_keep_order(
    components: Seq<Component>,
    entries: Seq<DirEntry>,
    rows: Seq<TreeRow>,
    i: int,
)
    ensures
        parts(components).len() == components.len(),
        0 <= i < components.len() ==> parts(components)[i] == components[i]@,
        entry_views(entries).len() == entries.len(),
        0 <= i < entries.len() ==> entry_views(entries)[i] == (EntryView {
            path: entries[i].path@,
            is_dir: entries[i].is_dir,
        }),
        row_views(rows).len() == rows.len(),
        0 <= i < rows.len() ==> row_views(rows)[i] == (RowView {
            path: rows[i].path@,
            is_dir: rows[i].is_dir,
            depth: rows[i].depth as nat,
        }),
{
}

/// What reading a directory returned stands for its entries, or for nothing.
pub proof fn law_listings_stand_for_their_entries(entries: Vec<DirEntry>)
    ensures
        listing_view(None) is None,
        listing_view(Some(entries)) == Some(entry_views(entries@)),
{
}

/// A listing of a directory holds paths that continue the directory's path, and
/// no other.
pub proof fn law_listings_lie_below(entries: Seq<EntryView>, dir: PathView)
    ensures
        is_listing_of(entries, dir) <==> forall|i: int|
            0 <= i < entries.len() ==> (#[trigger] entries[i]).path.len() > dir.len()
                && entries[i].path == dir + entries[i].path.skip(dir.len() as int),
{
    assert forall|i: int| 0 <= i < entries.len() implies (below(
        (#[trigger] entries[i]).path,
        dir,
    ) <==> entries[i].path.len() > dir.len() && entries[i].path == dir + entries[i].path.skip(
        dir.len() as int,
    )) by {
        let path = entries[i].path;
        law_starts_with_is_continuation(path, dir, path.skip(dir.len() as int));
    }
}

/// A request stands for itself, and a directory that must be read for the request
/// to read it.
pub proof fn law_requests_stand_for_themselves(request: Request, dir: TreePath)
    ensures
        request_view(None) is None,
        path_view(None) is None,
        path_view(Some(dir)) == Some(dir@),
        read_request(None) is None,
        read_request(Some(dir@)) == Some(RequestView::ReadDirectory(dir@)),
        match request {
            Request::ReadDirectory(dir) => request_view(Some(request)) == Some(
                RequestView::ReadDirectory(dir@),
            ),
            Request::OpenFile(path) => request_view(Some(request)) == Some(
                RequestView::OpenFile(path@),
            ),
        },
{
}

} // verus!
