//! Paths as sequences of components, and sets of them.
//!
//! Two paths are the same when their components are; one starts with another
//! when it continues the other's components; going to the parent drops the
//! last component. That is all the panel needs to know of a path.

use vstd::prelude::*;

verus! {

/// A name as the system has it, which need not be valid Unicode: names that are
/// not stay distinct.
#[derive(Debug, PartialEq, Eq)]
pub enum Name {
    /// Bytes, by custom in UTF-8.
    Bytes(Vec<u8>),
    /// 16-bit units, by custom in UTF-16.
    Wide(Vec<u16>),
}

/// What a [`Name`] stands for.
pub enum NameView {
    Bytes(Seq<u8>),
    Wide(Seq<u16>),
}

/// One component of a path.
#[derive(Debug, PartialEq, Eq)]
pub enum Component {
    /// A drive or share prefix.
    Prefix(Name),
    /// The root directory.
    RootDir,
    /// `.`
    CurDir,
    /// `..`
    ParentDir,
    /// A file or directory name.
    Normal(Name),
}

/// What a [`Component`] stands for.
pub enum Part {
    Prefix(NameView),
    RootDir,
    CurDir,
    ParentDir,
    Normal(NameView),
}

/// What a [`TreePath`] stands for.
pub type PathView = Seq<Part>;

/// `path` is `base` or lies below it.
pub open spec fn starts_with(path: PathView, base: PathView) -> bool {
    base.len() <= path.len() && path.take(base.len() as int) == base
}

/// `path` lies below `base` and is not `base` itself.
pub open spec fn below(path: PathView, base: PathView) -> bool {
    starts_with(path, base) && path.len() > base.len()
}

/// A path that ends in this part has a parent.
pub open spec fn has_parent(last: Part) -> bool {
    !(last is Prefix) && !(last is RootDir)
}

/// `dir` is reached from `path` by going to the parent one or more times.
pub open spec fn is_ancestor(dir: PathView, path: PathView) -> bool {
    &&& below(path, dir)
    &&& forall|i: int| dir.len() <= i < path.len() ==> has_parent(#[trigger] path[i])
}

/// What lies below a path that lies below `base` lies below `base`.
pub proof fn lemma_below_trans(path: PathView, middle: PathView, base: PathView)
    requires
        below(path, middle),
        below(middle, base),
    ensures
        below(path, base),
{
    assert(path.take(base.len() as int) =~= middle.take(base.len() as int));
}

/// A path has finitely many ancestors.
pub proof fn lemma_ancestors_finite(path: PathView)
    ensures
        Set::new(|dir: PathView| is_ancestor(dir, path)).finite(),
{
    let lengths = Set::new(|n: int| 0 <= n < path.len());
    vstd::set_lib::lemma_int_range(0, path.len() as int);
    let prefixes = lengths.map(|n: int| path.take(n));
    assert(lengths =~= vstd::set_lib::set_int_range(0, path.len() as int));
    lengths.lemma_map_finite(|n: int| path.take(n));
    let ancestors = Set::new(|dir: PathView| is_ancestor(dir, path));
    assert forall|dir: PathView| ancestors.contains(dir) implies prefixes.contains(dir) by {
        assert(lengths.contains(dir.len() as int));
    }
    vstd::set_lib::lemma_len_subset(ancestors, prefixes);
}

impl View for Name {
    type V = NameView;

    open spec fn view(&self) -> NameView {
        match self {
            Name::Bytes(bytes) => NameView::Bytes(bytes@),
            Name::Wide(units) => NameView::Wide(units@),
        }
    }
}

impl View for Component {
    type V = Part;

    open spec fn view(&self) -> Part {
        match self {
            Component::Prefix(name) => Part::Prefix(name@),
            Component::RootDir => Part::RootDir,
            Component::CurDir => Part::CurDir,
            Component::ParentDir => Part::ParentDir,
            Component::Normal(name) => Part::Normal(name@),
        }
    }
}

/// Whether two names in bytes are the same.
fn same_bytes(left: &Vec<u8>, right: &Vec<u8>) -> (res: bool)
    ensures
        res == (left@ == right@),
{
    if left.len() != right.len() {
        return false;
    }
    let mut i: usize = 0;
    while i < left.len()
        invariant
            left.len() == right.len(),
            i <= left.len(),
            forall|j: int| 0 <= j < i ==> left@[j] == right@[j],
        decreases left.len() - i,
    {
        if left[i] != right[i] {
            return false;
        }
        i += 1;
    }
    assert(left@ =~= right@);
    true
}

/// Whether two names in 16-bit units are the same.
fn same_units(left: &Vec<u16>, right: &Vec<u16>) -> (res: bool)
    ensures
        res == (left@ == right@),
{
    if left.len() != right.len() {
        return false;
    }
    let mut i: usize = 0;
    while i < left.len()
        invariant
            left.len() == right.len(),
            i <= left.len(),
            forall|j: int| 0 <= j < i ==> left@[j] == right@[j],
        decreases left.len() - i,
    {
        if left[i] != right[i] {
            return false;
        }
        i += 1;
    }
    assert(left@ =~= right@);
    true
}

impl Clone for Name {
    fn clone(&self) -> (res: Self)
        ensures
            res@ == self@,
    {
        match self {
            Name::Bytes(bytes) => {
                let copy = bytes.clone();
                assert(copy@ =~= bytes@);
                Name::Bytes(copy)
            },
            Name::Wide(units) => {
                let copy = units.clone();
                assert(copy@ =~= units@);
                Name::Wide(copy)
            },
        }
    }
}

impl Name {
    fn same(&self, other: &Name) -> (res: bool)
        ensures
            res == (self@ == other@),
    {
        match (self, other) {
            (Name::Bytes(left), Name::Bytes(right)) => same_bytes(left, right),
            (Name::Wide(left), Name::Wide(right)) => same_units(left, right),
            _ => false,
        }
    }
}

impl Clone for Component {
    fn clone(&self) -> (res: Self)
        ensures
            res@ == self@,
    {
        match self {
            Component::Prefix(name) => Component::Prefix(name.clone()),
            Component::RootDir => Component::RootDir,
            Component::CurDir => Component::CurDir,
            Component::ParentDir => Component::ParentDir,
            Component::Normal(name) => Component::Normal(name.clone()),
        }
    }
}

impl Component {
    fn same(&self, other: &Component) -> (res: bool)
        ensures
            res == (self@ == other@),
    {
        match (self, other) {
            (Component::Prefix(left), Component::Prefix(right)) => left.same(right),
            (Component::RootDir, Component::RootDir) => true,
            (Component::CurDir, Component::CurDir) => true,
            (Component::ParentDir, Component::ParentDir) => true,
            (Component::Normal(left), Component::Normal(right)) => left.same(right),
            _ => false,
        }
    }
}

/// A path, as the sequence of its components.
#[derive(Debug, PartialEq, Eq)]
pub struct TreePath {
    components: Vec<Component>,
}

impl View for TreePath {
    type V = PathView;

    closed spec fn view(&self) -> PathView {
        parts(self.components@)
    }
}

/// What the components stand for, one by one.
pub open spec fn parts(components: Seq<Component>) -> PathView {
    components.map_values(|c: Component| c@)
}

impl TreePath {
    /// A path in memory has no more components than can be counted.
    pub proof fn lemma_len(&self)
        ensures
            self@.len() <= usize::MAX,
    {
        assert(self.components.len() == self.components@.len());
    }

    /// The path with the given components.
    pub fn new(components: Vec<Component>) -> (res: TreePath)
        ensures
            res@ == parts(components@),
    {
        TreePath { components }
    }

    /// The components of the path.
    pub fn components(&self) -> (res: &Vec<Component>)
        ensures
            parts(res@) == self@,
    {
        &self.components
    }

    /// The path made of the first `len` components.
    fn prefix(&self, len: usize) -> (res: TreePath)
        requires
            len <= self@.len(),
        ensures
            res@ == self@.take(len as int),
    {
        let mut components: Vec<Component> = Vec::new();
        let mut i: usize = 0;
        while i < len
            invariant
                i <= len <= self.components.len(),
                components.len() == i,
                forall|j: int| 0 <= j < i ==> (#[trigger] components@[j])@ == self.components@[j]@,
            decreases len - i,
        {
            components.push(self.components[i].clone());
            i += 1;
        }
        TreePath { components }
    }

    /// Whether the two paths have the same components.
    pub fn same(&self, other: &TreePath) -> (res: bool)
        ensures
            res == (self@ == other@),
    {
        let res = self.components.len() == other.components.len() && self.starts_with(other);
        proof {
            if self@.len() == other@.len() {
                assert(self@.take(other@.len() as int) =~= self@);
            }
        }
        res
    }

    /// Whether `base` is a prefix of the path, component by component.
    pub fn starts_with(&self, base: &TreePath) -> (res: bool)
        ensures
            res == starts_with(self@, base@),
    {
        if base.components.len() > self.components.len() {
            return false;
        }
        let mut i: usize = 0;
        while i < base.components.len()
            invariant
                base.components.len() <= self.components.len(),
                i <= base.components.len(),
                forall|j: int| 0 <= j < i ==> (#[trigger] self.components@[j])@
                    == base.components@[j]@,
            decreases base.components.len() - i,
        {
            if !self.components[i].same(&base.components[i]) {
                proof {
                    assert(self@.take(base@.len() as int)[i as int] == self.components@[i as int]@);
                }
                return false;
            }
            i += 1;
        }
        assert(self@.take(base@.len() as int) =~= base@);
        true
    }

    /// Whether the path lies below `base` and is not `base` itself.
    pub fn is_below(&self, base: &TreePath) -> (res: bool)
        ensures
            res == below(self@, base@),
    {
        self.components.len() > base.components.len() && self.starts_with(base)
    }

    /// The path without its last component, unless it is empty or ends in a
    /// root or a prefix.
    pub fn parent(&self) -> (res: Option<TreePath>)
        ensures
            res is Some <==> self@.len() > 0 && has_parent(self@.last()),
            res matches Some(dir) ==> dir@ == self@.drop_last(),
    {
        let len: usize = self.components.len();
        if len == 0 {
            return None;
        }
        match &self.components[len - 1] {
            Component::Prefix(_) => None,
            Component::RootDir => None,
            _ => Some(self.prefix(len - 1)),
        }
    }

    /// The last component, if that is a name.
    pub fn file_name(&self) -> (res: Option<&Name>)
        ensures
            res is Some <==> self@.len() > 0 && self@.last() is Normal,
            res matches Some(name) ==> self@.last() == Part::Normal(name@),
    {
        let len: usize = self.components.len();
        if len == 0 {
            return None;
        }
        match &self.components[len - 1] {
            Component::Normal(name) => Some(name),
            _ => None,
        }
    }
}

impl Clone for TreePath {
    fn clone(&self) -> (res: Self)
        ensures
            res@ == self@,
    {
        let res = self.prefix(self.components.len());
        res
    }
}

/// What the paths stand for, one by one.
pub open spec fn path_views(paths: Seq<TreePath>) -> Seq<PathView> {
    paths.map_values(|p: TreePath| p@)
}

/// A set of paths.
#[derive(Debug)]
pub struct PathSet {
    paths: Vec<TreePath>,
}

impl View for PathSet {
    type V = Set<PathView>;

    closed spec fn view(&self) -> Set<PathView> {
        path_views(self.paths@).to_set()
    }
}

impl PathSet {
    /// No path is held twice.
    pub closed spec fn wf(&self) -> bool {
        path_views(self.paths@).no_duplicates()
    }

    pub proof fn lemma_finite(&self)
        ensures
            self@.finite(),
    {
        vstd::seq_lib::seq_to_set_is_finite(path_views(self.paths@));
    }

    pub fn new() -> (res: PathSet)
        ensures
            res.wf(),
            res@ == Set::<PathView>::empty(),
    {
        let res = PathSet { paths: Vec::new() };
        res
    }

    /// Where `path` is held, or the number of paths if it is not.
    fn position(&self, path: &TreePath) -> (res: usize)
        ensures
            res <= self.paths.len(),
            res < self.paths.len() <==> self@.contains(path@),
            res < self.paths.len() ==> self.paths@[res as int]@ == path@,
    {
        let mut i: usize = 0;
        while i < self.paths.len()
            invariant
                i <= self.paths.len(),
                forall|j: int| 0 <= j < i ==> (#[trigger] self.paths@[j])@ != path@,
            decreases self.paths.len() - i,
        {
            if self.paths[i].same(path) {
                assert(path_views(self.paths@)[i as int] == path@);
                return i;
            }
            i += 1;
        }
        i
    }

    pub fn contains(&self, path: &TreePath) -> (res: bool)
        ensures
            res == self@.contains(path@),
    {
        self.position(path) < self.paths.len()
    }

    /// Adds `path`, unless it is there already.
    pub fn insert(&mut self, path: TreePath)
        requires
            old(self).wf(),
        ensures
            final(self).wf(),
            final(self)@ == old(self)@.insert(path@),
    {
        if self.contains(&path) {
            return;
        }
        let ghost before = path_views(self.paths@);
        let ghost added = path@;
        self.paths.push(path);
        proof {
            let after = path_views(self.paths@);
            assert(after =~= before.push(added));
            assert forall|p: PathView| after.contains(p) <==> before.contains(p) || p == added by {
                if before.contains(p) {
                    let i = choose|i: int| 0 <= i < before.len() && before[i] == p;
                    assert(after[i] == p);
                }
                assert(after[before.len() as int] == added);
            }
        }
    }

    /// Takes `path` out, and says whether it was there.
    pub fn remove(&mut self, path: &TreePath) -> (res: bool)
        requires
            old(self).wf(),
        ensures
            final(self).wf(),
            res == old(self)@.contains(path@),
            final(self)@ == old(self)@.remove(path@),
    {
        let i: usize = self.position(path);
        if i == self.paths.len() {
            return false;
        }
        let ghost before = path_views(self.paths@);
        self.paths.remove(i);
        proof {
            let after = path_views(self.paths@);
            assert(after =~= before.remove(i as int));
            assert(before[i as int] == path@);
            assert forall|p: PathView| after.contains(p) <==> before.contains(p) && p != path@ by {
                if before.contains(p) && p != path@ {
                    let j = choose|j: int| 0 <= j < before.len() && before[j] == p;
                    if j < i {
                        assert(after[j] == p);
                    } else {
                        assert(after[j - 1] == p);
                    }
                }
            }
        }
        true
    }
}

} // verus!
