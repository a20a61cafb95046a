//! The x86 kernel's first file system layer: paths and a tree of folders in
//! memory.
//!
//! The folders live in one arena, a [`VFSTree`], and refer to each other by
//! their index in it.
use crate::kernel::vfs::{
    after_last_slash, append_component, find_last_slash,
    lemma_last_slash_bounds, last_slash, str_eq,
};
use vstd::prelude::*;
use vstd::string::*;

verus! {

/// `s` up to and with its last `/` (empty if it holds none).
pub open spec fn cut_after_last_slash(s: Seq<char>) -> Seq<char> {
    match last_slash(s) {
        None => Seq::empty(),
        Some(k) => s.subrange(0, k + 1),
    }
}

/// A path of the virtual file system: absolute, its parts separated by `/`.
#[derive(Debug)]
pub struct VFSPath {
    inner: String,
}

impl Clone for VFSPath {
    fn clone(&self) -> (r: Self)
        ensures
            r.view() == self.view(),
    {
        VFSPath { inner: self.inner.clone() }
    }
}

impl VFSPath {
    /// The characters of the path.
    pub closed spec fn view(&self) -> Seq<char> {
        self.inner@
    }

    /// `/`
    pub fn root() -> (r: Self)
        ensures
            r.view() == seq!['/'],
    {
        proof {
            reveal_strlit("/");
        }
        VFSPath { inner: String::from_str("/") }
    }

    /// The part of the path after its last `/`.
    pub fn last(&self) -> (r: Option<&str>)
        ensures
            r matches Some(l) && l@ == after_last_slash(self.view()),
    {
        let s = self.inner.as_str();
        let n = s.unicode_len();
        assert(s@.subrange(0, n as int) =~= s@);
        proof {
            lemma_last_slash_bounds(s@);
        }
        let start = match find_last_slash(s, n) {
            Some(k) => k + 1,
            None => 0,
        };
        assert(after_last_slash(s@) =~= s@.subrange(start as int, n as int));
        Some(s.substring_char(start, n))
    }

    /// Removes what follows the last `/` of the path (nothing is left of a
    /// path without one).
    pub fn del_last(&mut self)
        ensures
            final(self).view() == cut_after_last_slash(old(self).view()),
    {
        let s = self.inner.as_str();
        let n = s.unicode_len();
        assert(s@.subrange(0, n as int) =~= s@);
        proof {
            lemma_last_slash_bounds(s@);
        }
        match find_last_slash(s, n) {
            None => {
                proof {
                    reveal_strlit("");
                }
                self.inner = String::from_str("");
            },
            Some(k) => {
                let head = String::from_str(s.substring_char(0, k + 1));
                self.inner = head;
            },
        }
    }

    /// Appends a part to the path, after a `/`.
    pub fn append(&mut self, subnode: &str)
        ensures
            final(self).view() == append_component(old(self).view(), subnode@),
    {
        let n = self.inner.as_str().unicode_len();
        if n == 0 || self.inner.as_str().get_char(n - 1) != '/' {
            proof {
                reveal_strlit("/");
            }
            self.inner.append("/");
        }
        self.inner.append(subnode);
    }

    /// Whether two paths are the same characters.
    pub fn same_as(&self, other: &VFSPath) -> (r: bool)
        ensures
            r == (self.view() == other.view()),
    {
        str_eq(self.inner.as_str(), other.inner.as_str())
    }

    /// The path `value`, which must start with `/`.
    pub fn try_from_str(value: &str) -> (r: Result<Self, ()>)
        ensures
            match r {
                Ok(p) => value@.len() > 0 && value@[0] == '/' && p.view() == value@,
                Err(_) => !(value@.len() > 0 && value@[0] == '/'),
            },
    {
        let n = value.unicode_len();
        if n == 0 || value.get_char(0) != '/' {
            return Err(());
        }
        Ok(VFSPath { inner: String::from_str(value) })
    }

    /// The path `value`, which must start with `/`.
    pub fn try_from_string(value: String) -> (r: Result<Self, ()>)
        ensures
            match r {
                Ok(p) => value@.len() > 0 && value@[0] == '/' && p.view() == value@,
                Err(_) => !(value@.len() > 0 && value@[0] == '/'),
            },
    {
        let n = value.as_str().unicode_len();
        if n == 0 || value.as_str().get_char(0) != '/' {
            return Err(());
        }
        Ok(VFSPath { inner: value })
    }
}

/// A folder of the virtual file system.
#[derive(Debug)]
pub struct VFSNode {
    path: VFSPath,
    parent: Option<usize>,
    children: Vec<usize>,
}

impl VFSNode {
    pub closed spec fn path_view(&self) -> Seq<char> {
        self.path.view()
    }

    pub closed spec fn parent_index(&self) -> Option<usize> {
        self.parent
    }

    pub closed spec fn child_indices(&self) -> Seq<usize> {
        self.children@
    }

    /// The root folder: path `/`, no parent, no children.
    pub fn new_root() -> (r: Self)
        ensures
            r.path_view() == seq!['/'],
            r.parent_index() is None,
            r.child_indices() == Seq::<usize>::empty(),
    {
        VFSNode { path: VFSPath::root(), parent: None, children: Vec::new() }
    }

    /// The indices of the folder's children.
    pub fn get_children(&self) -> (r: &Vec<usize>)
        ensures
            r@ == self.child_indices(),
    {
        &self.children
    }

    pub fn get_parent(&self) -> (r: Option<usize>)
        ensures
            r == self.parent_index(),
    {
        self.parent
    }

    pub fn get_path(&self) -> (r: &VFSPath)
        ensures
            r.view() == self.path_view(),
    {
        &self.path
    }
}

/// The folders of the virtual file system; folder 0 is the root.
#[derive(Debug)]
pub struct VFSTree {
    nodes: Vec<VFSNode>,
}

impl VFSTree {
    pub closed spec fn nodes(&self) -> Seq<VFSNode> {
        self.nodes@
    }

    /// Every parent and child index names a folder of the arena.
    pub open spec fn wf(&self) -> bool {
        &&& self.nodes().len() > 0
        &&& forall|i: int, j: int|
            0 <= i < self.nodes().len() && 0 <= j < self.nodes()[i].child_indices().len()
                ==> #[trigger] self.nodes()[i].child_indices()[j] < self.nodes().len()
        &&& forall|i: int|
            0 <= i < self.nodes().len() ==> (#[trigger] self.nodes()[i].parent_index() matches Some(
                p,
            ) ==> p < self.nodes().len())
    }

    /// A virtual file system holding the root folder only.
    pub fn new() -> (r: Self)
        ensures
            r.wf(),
            r.nodes().len() == 1,
            r.nodes()[0].path_view() == seq!['/'],
            r.nodes()[0].child_indices().len() == 0,
            r.nodes()[0].parent_index() is None,
    {
        let mut nodes: Vec<VFSNode> = Vec::new();
        nodes.push(VFSNode::new_root());
        VFSTree { nodes }
    }

    pub fn node(&self, i: usize) -> (r: &VFSNode)
        requires
            i < self.nodes().len(),
        ensures
            *r == self.nodes()[i as int],
    {
        &self.nodes[i]
    }

    /// Adds a folder named `name` to the folder `slf`; returns its index.
    pub fn add_folder(&mut self, slf: usize, name: &str) -> (r: usize)
        requires
            old(self).wf(),
            slf < old(self).nodes().len(),
        ensures
            final(self).wf(),
            r == old(self).nodes().len(),
            final(self).nodes().len() == old(self).nodes().len() + 1,
            final(self).nodes()[r as int].path_view() == append_component(
                old(self).nodes()[slf as int].path_view(),
                name@,
            ),
            final(self).nodes()[r as int].parent_index() == Some(slf),
            final(self).nodes()[r as int].child_indices().len() == 0,
            final(self).nodes()[slf as int].child_indices() == old(self).nodes()[slf as int].child_indices().push(r),
            final(self).nodes()[slf as int].path_view() == old(self).nodes()[slf as int].path_view(),
            final(self).nodes()[slf as int].parent_index() == old(self).nodes()[slf as int].parent_index(),
            forall|i: int| 0 <= i < old(self).nodes().len() && i != slf ==> #[trigger] final(self).nodes()[i] == old(self).nodes()[i],
    {
        let mut new_p = self.nodes[slf].path.clone();
        new_p.append(name);
        let idx = self.nodes.len();
        self.nodes.push(VFSNode { path: new_p, parent: Some(slf), children: Vec::new() });
        self.nodes[slf].children.push(idx);
        proof {
            let o = old(self).nodes@;
            let n = self.nodes@;
            assert(n.len() == o.len() + 1);
            assert forall|i: int, j: int|
                0 <= i < n.len() && 0 <= j < n[i].child_indices().len() implies #[trigger] n[i].child_indices()[j] < n.len() by {
                if i == slf {
                    if j < o[i].child_indices().len() {
                        assert(n[i].child_indices()[j] == o[i].child_indices()[j]);
                    }
                } else if i < o.len() {
                    assert(n[i] == o[i]);
                }
            }
            assert forall|i: int| 0 <= i < n.len() implies (#[trigger] n[i].parent_index() matches Some(p) ==> p < n.len()) by {
                if i < o.len() && i != slf {
                    assert(n[i] == o[i]);
                }
            }
        }
        idx
    }
}

/// Whether folder `c` of the arena is named `name` (the last part of its path).
pub open spec fn named(nodes: Seq<VFSNode>, c: usize, name: Seq<char>) -> bool {
    c < nodes.len() && after_last_slash(nodes[c as int].path_view()) == name
}

/// Whether folder `c` may be deleted under the name `name`: it has no
/// children and is so named.
pub open spec fn deletable(nodes: Seq<VFSNode>, c: usize, name: Seq<char>) -> bool {
    c < nodes.len() && nodes[c as int].child_indices().len() == 0 && named(nodes, c, name)
}

impl VFSTree {
    /// The first child of `slf` that is named `name`.
    pub fn find_child(&self, slf: usize, name: &str) -> (r: Option<usize>)
        requires
            self.wf(),
            slf < self.nodes().len(),
        ensures
            match r {
                Some(c) => exists|i: int|
                    0 <= i < self.nodes()[slf as int].child_indices().len()
                        && self.nodes()[slf as int].child_indices()[i] == c && named(self.nodes(), c, name@)
                        && forall|k: int| 0 <= k < i ==> !named(self.nodes(), #[trigger] self.nodes()[slf as int].child_indices()[k], name@),
                None => forall|k: int|
                    0 <= k < self.nodes()[slf as int].child_indices().len() ==> !named(
                        self.nodes(),
                        #[trigger] self.nodes()[slf as int].child_indices()[k],
                        name@,
                    ),
            },
    {
        let children = &self.nodes[slf].children;
        let mut i: usize = 0;
        while i < children.len()
            invariant
                self.wf(),
                slf < self.nodes().len(),
                *children == self.nodes@[slf as int].children,
                i <= children@.len(),
                forall|k: int| 0 <= k < i ==> !named(self.nodes(), #[trigger] children@[k], name@),
            decreases children@.len() - i,
        {
            let c = children[i];
            assert(self.nodes()[slf as int].child_indices()[i as int] == c);
            if let Some(last) = self.nodes[c].path.last() {
                if str_eq(last, name) {
                    return Some(c);
                }
            }
            i = i + 1;
        }
        None
    }

    /// Removes from the children of `slf` the first one that has no children
    /// and is named `name`; whether there was one.
    pub fn remove_child(&mut self, slf: usize, name: &str) -> (r: bool)
        requires
            old(self).wf(),
            slf < old(self).nodes().len(),
        ensures
            final(self).wf(),
            final(self).nodes().len() == old(self).nodes().len(),
            forall|i: int| 0 <= i < old(self).nodes().len() && i != slf ==> #[trigger] final(self).nodes()[i] == old(self).nodes()[i],
            final(self).nodes()[slf as int].path_view() == old(self).nodes()[slf as int].path_view(),
            final(self).nodes()[slf as int].parent_index() == old(self).nodes()[slf as int].parent_index(),
            ({
                let cs = old(self).nodes()[slf as int].child_indices();
                if r {
                    exists|i: int|
                        0 <= i < cs.len() && deletable(old(self).nodes(), cs[i], name@) && (forall|k: int|
                            0 <= k < i ==> !deletable(old(self).nodes(), #[trigger] cs[k], name@))
                            && final(self).nodes()[slf as int].child_indices() == cs.remove(i)
                } else {
                    (forall|k: int| 0 <= k < cs.len() ==> !deletable(old(self).nodes(), #[trigger] cs[k], name@))
                        && final(self).nodes()[slf as int].child_indices() == cs
                }
            }),
    {
        let mut found: Option<usize> = None;
        let mut i: usize = 0;
        let n = self.nodes[slf].children.len();
        while i < n
            invariant_except_break
                found is None,
            invariant
                self.wf(),
                slf < self.nodes().len(),
                n == self.nodes@[slf as int].children@.len(),
                i <= n,
                forall|k: int| 0 <= k < i ==> !deletable(self.nodes(), #[trigger] self.nodes@[slf as int].children@[k], name@),
            ensures
                found matches Some(j) ==> j < n && deletable(self.nodes(), self.nodes@[slf as int].children@[j as int], name@)
                    && forall|k: int| 0 <= k < j ==> !deletable(self.nodes(), #[trigger] self.nodes@[slf as int].children@[k], name@),
                found is None ==> forall|k: int| 0 <= k < n ==> !deletable(self.nodes(), #[trigger] self.nodes@[slf as int].children@[k], name@),
            decreases n - i,
        {
            let c = self.nodes[slf].children[i];
            assert(self.nodes()[slf as int].child_indices()[i as int] == c);
            if self.nodes[c].children.len() == 0 {
                if let Some(last) = self.nodes[c].path.last() {
                    if str_eq(last, name) {
                        found = Some(i);
                        break;
                    }
                }
            }
            i = i + 1;
        }
        match found {
            Some(i) => {
                let ghost o = self.nodes@;
                assert(deletable(o, o[slf as int].children@[i as int], name@));
                let _c = self.nodes[slf].children.remove(i);
                proof {
                    let nn = self.nodes@;
                    assert forall|a: int, j: int|
                        0 <= a < nn.len() && 0 <= j < nn[a].child_indices().len() implies #[trigger] nn[a].child_indices()[j] < nn.len() by {
                        if a == slf {
                            let oj = if j < i { j } else { j + 1 };
                            assert(nn[a].child_indices()[j] == o[a].child_indices()[oj]);
                        } else {
                            assert(nn[a] == o[a]);
                        }
                    }
                    assert forall|a: int| 0 <= a < nn.len() implies (#[trigger] nn[a].parent_index() matches Some(p) ==> p < nn.len()) by {
                        if a != slf {
                            assert(nn[a] == o[a]);
                        }
                    }
                }
                true
            },
            None => false,
        }
    }
}

impl VFSNode {
    /// Adds a folder named `name` to the folder `slf` of `fs`, at the end of
    /// the arena.
    pub fn new_folder(fs: &mut VFSTree, slf: usize, name: &str)
        requires
            old(fs).wf(),
            slf < old(fs).nodes().len(),
        ensures
            final(fs).wf(),
            ({
                let r = old(fs).nodes().len();
                &&& final(fs).nodes().len() == old(fs).nodes().len() + 1
                &&& final(fs).nodes()[r as int].path_view() == append_component(
                    old(fs).nodes()[slf as int].path_view(),
                    name@,
                )
                &&& final(fs).nodes()[r as int].parent_index() == Some(slf)
                &&& final(fs).nodes()[r as int].child_indices().len() == 0
                &&& final(fs).nodes()[slf as int].child_indices() == old(fs).nodes()[slf as int].child_indices().push(r as usize)
            }),
            final(fs).nodes()[slf as int].path_view() == old(fs).nodes()[slf as int].path_view(),
            final(fs).nodes()[slf as int].parent_index() == old(fs).nodes()[slf as int].parent_index(),
            forall|i: int| 0 <= i < old(fs).nodes().len() && i != slf ==> #[trigger] final(fs).nodes()[i] == old(fs).nodes()[i],
    {
        fs.add_folder(slf, name);
    }

    /// Deletes the first child of `slf` that has no children and is named
    /// `name` (see [`VFSTree::remove_child`]); whether there was one.
    pub fn del_folder(fs: &mut VFSTree, slf: usize, name: &str) -> (r: bool)
        requires
            old(fs).wf(),
            slf < old(fs).nodes().len(),
        ensures
            final(fs).wf(),
            final(fs).nodes().len() == old(fs).nodes().len(),
            forall|i: int| 0 <= i < old(fs).nodes().len() && i != slf ==> #[trigger] final(fs).nodes()[i] == old(fs).nodes()[i],
            final(fs).nodes()[slf as int].path_view() == old(fs).nodes()[slf as int].path_view(),
            ({
                let cs = old(fs).nodes()[slf as int].child_indices();
                if r {
                    exists|i: int|
                        0 <= i < cs.len() && deletable(old(fs).nodes(), cs[i], name@) && (forall|k: int|
                            0 <= k < i ==> !deletable(old(fs).nodes(), #[trigger] cs[k], name@))
                            && final(fs).nodes()[slf as int].child_indices() == cs.remove(i)
                } else {
                    (forall|k: int| 0 <= k < cs.len() ==> !deletable(old(fs).nodes(), #[trigger] cs[k], name@))
                        && final(fs).nodes()[slf as int].child_indices() == cs
                }
            }),
    {
        fs.remove_child(slf, name)
    }

    /// The first child of `slf` named `name` (see [`VFSTree::find_child`]).
    pub fn find_folder(fs: &VFSTree, slf: usize, name: &str) -> (r: Option<usize>)
        requires
            fs.wf(),
            slf < fs.nodes().len(),
        ensures
            match r {
                Some(c) => exists|i: int|
                    0 <= i < fs.nodes()[slf as int].child_indices().len()
                        && fs.nodes()[slf as int].child_indices()[i] == c && named(fs.nodes(), c, name@)
                        && forall|k: int| 0 <= k < i ==> !named(fs.nodes(), #[trigger] fs.nodes()[slf as int].child_indices()[k], name@),
                None => forall|k: int|
                    0 <= k < fs.nodes()[slf as int].child_indices().len() ==> !named(
                        fs.nodes(),
                        #[trigger] fs.nodes()[slf as int].child_indices()[k],
                        name@,
                    ),
            },
    {
        fs.find_child(slf, name)
    }
}


} // verus!
