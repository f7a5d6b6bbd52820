//! The in-memory image of one store's contents.
//!
//! A store holds a set of directories and a map from file paths to byte
//! contents.  The representation is a vector of entries with distinct
//! well-formed paths, closed under parents: every entry's parent
//! directory is present (the root directory always exists implicitly).
//! Both the directory-backed and the archive-backed store keep their
//! contents in this shape; the two differ only in construction and in
//! their write policy.

use vstd::prelude::*;
use vstd::pervasive::VecAdditionalExecFns;
use vstd::string::*;
use crate::vpath::{
    anc_or_self, child_of, dir_prefix, doomed_by, is_root, lemma_anc_root, lemma_anc_unfold,
    lemma_parent, lemma_root_valid, lemma_under_trans, parent_of, path_child_of, path_eq,
    path_is_root, path_parent, path_under, root_path, under, valid_path,
};
use crate::types::copy_bytes;

verus! {

/// What one path in a store is: a directory, or a file with contents.
#[derive(Debug)]
pub enum Node {
    Dir,
    File(Vec<u8>),
}

/// The byte contents of a node; empty for a directory.
pub open spec fn node_data(n: Node) -> Seq<u8> {
    match n {
        Node::File(d) => d@,
        Node::Dir => Seq::empty(),
    }
}

/// One named entry of a store.
#[derive(Debug)]
pub struct Entry {
    path: String,
    node: Node,
}

/// The mathematical contents of a store: its directories (always
/// including the root) and its files.
#[verifier::ext_equal]
pub struct TreeM {
    pub dirs: Set<Seq<char>>,
    pub files: Map<Seq<char>, Seq<u8>>,
}

/// The contents of a store with nothing in it but the root directory.
pub open spec fn empty_tree() -> TreeM {
    TreeM { dirs: Set::new(|q: Seq<char>| is_root(q)), files: Map::empty() }
}

/// What well-formed contents guarantee: the root directory exists,
/// every directory's and file's parent is a directory, and no path is
/// both a file and a directory.
pub open spec fn tree_props(t: TreeM) -> bool {
    &&& t.dirs.contains(root_path())
    &&& forall|q: Seq<char>|
        #[trigger] t.dirs.contains(q) ==> is_root(q) || (valid_path(q) && !is_root(q)
            && t.dirs.contains(parent_of(q)))
    &&& forall|q: Seq<char>|
        #[trigger] t.files.dom().contains(q) ==> valid_path(q) && !is_root(q) && t.dirs.contains(
            parent_of(q),
        )
    &&& forall|q: Seq<char>| !(#[trigger] t.dirs.contains(q) && t.files.dom().contains(q))
}

/// A correct directory listing of `p` against contents `t`: every
/// listed path is a direct child of `p` present in `t`, every such child
/// is listed, and nothing is listed twice.
pub open spec fn listing_ok(t: TreeM, p: Seq<char>, v: Seq<String>) -> bool {
    &&& forall|j: int|
        0 <= j < v.len() ==> child_of(#[trigger] v[j]@, p) && (t.dirs.contains(v[j]@)
            || t.files.dom().contains(v[j]@))
    &&& forall|q: Seq<char>|
        (t.dirs.contains(q) || t.files.dom().contains(q)) && #[trigger] child_of(q, p)
            ==> exists|j: int| 0 <= j < v.len() && v[j]@ == q
    &&& forall|j1: int, j2: int| 0 <= j1 < j2 < v.len() ==> v[j1]@ != v[j2]@
}

/// The directories described by an entry sequence: the root plus every
/// directory entry.
spec fn dirs_of(s: Seq<Entry>) -> Set<Seq<char>> {
    Set::new(
        |q: Seq<char>|
            is_root(q) || exists|i: int|
                0 <= i < s.len() && #[trigger] s[i].path@ == q && s[i].node is Dir,
    )
}

/// Whether index `i` holds a file entry for path `q`.
spec fn has_file_at(s: Seq<Entry>, q: Seq<char>, i: int) -> bool {
    0 <= i < s.len() && s[i].path@ == q && !(s[i].node is Dir)
}

/// The files described by an entry sequence.
spec fn files_of(s: Seq<Entry>) -> Map<Seq<char>, Seq<u8>> {
    Map::new(
        |q: Seq<char>| exists|i: int| has_file_at(s, q, i),
        |q: Seq<char>| node_data(s[choose|i: int| has_file_at(s, q, i)].node),
    )
}

/// No two entries share a path.
spec fn unique_paths(s: Seq<Entry>) -> bool {
    forall|i: int, j: int|
        0 <= i < s.len() && 0 <= j < s.len() && #[trigger] s[i].path@ == #[trigger] s[j].path@
            ==> i == j
}

/// Every entry path is well formed and not the root.
spec fn all_valid(s: Seq<Entry>) -> bool {
    forall|i: int|
        0 <= i < s.len() ==> valid_path(#[trigger] s[i].path@) && !is_root(s[i].path@)
}

/// Every entry's parent directory is present.
spec fn closed_parents(s: Seq<Entry>) -> bool {
    forall|i: int| 0 <= i < s.len() ==> dirs_of(s).contains(parent_of(#[trigger] s[i].path@))
}

/// The in-memory contents of one store.
#[derive(Debug)]
pub struct Tree {
    entries: Vec<Entry>,
}

impl View for Tree {
    type V = TreeM;

    closed spec fn view(&self) -> TreeM {
        TreeM { dirs: dirs_of(self.entries@), files: files_of(self.entries@) }
    }
}

/// A unique file entry determines the file map at its path.
proof fn lemma_file_lookup(s: Seq<Entry>, q: Seq<char>, i: int)
    requires
        unique_paths(s),
        has_file_at(s, q, i),
    ensures
        files_of(s).dom().contains(q),
        files_of(s)[q] == node_data(s[i].node),
{
    let j = choose|j: int| has_file_at(s, q, j);
    assert(has_file_at(s, q, j));
    assert(s[i].path@ == s[j].path@);
}

/// Two maps agreeing pointwise are equal.
proof fn lemma_map_ext(m1: Map<Seq<char>, Seq<u8>>, m2: Map<Seq<char>, Seq<u8>>)
    requires
        forall|q: Seq<char>|
            #[trigger] m1.dom().contains(q) ==> m2.dom().contains(q) && m1[q] == m2[q],
        forall|q: Seq<char>| #[trigger] m2.dom().contains(q) ==> m1.dom().contains(q),
    ensures
        m1 == m2,
{
    assert(m1 =~= m2);
}

impl Tree {
    /// The representation invariant: distinct well-formed paths, closed
    /// under parents.
    pub closed spec fn wf(&self) -> bool {
        &&& unique_paths(self.entries@)
        &&& all_valid(self.entries@)
        &&& closed_parents(self.entries@)
    }

    /// The consequences of well-formedness, stated over the contents.
    pub proof fn lemma_wf_props(&self)
        requires
            self.wf(),
        ensures
            tree_props(self@),
    {
        let s = self.entries@;
        lemma_root_valid();
        assert(self@.dirs.contains(root_path()));
        assert forall|q: Seq<char>| #[trigger] self@.dirs.contains(q) && !is_root(q) implies
            valid_path(q) && self@.dirs.contains(parent_of(q)) by {
            let i = choose|i: int| 0 <= i < s.len() && #[trigger] s[i].path@ == q && s[i].node is Dir;
            assert(0 <= i < s.len());
        }
        assert forall|q: Seq<char>| #[trigger] self@.files.dom().contains(q) implies valid_path(q)
            && !is_root(q) && self@.dirs.contains(parent_of(q)) by {
            let i = choose|i: int| has_file_at(s, q, i);
            assert(has_file_at(s, q, i));
        }
        assert forall|q: Seq<char>|
            !(#[trigger] self@.dirs.contains(q) && self@.files.dom().contains(q)) by {
            if self@.dirs.contains(q) && self@.files.dom().contains(q) {
                let i = choose|i: int| has_file_at(s, q, i);
                assert(has_file_at(s, q, i));
                assert(!is_root(q));
                let j = choose|j: int|
                    0 <= j < s.len() && #[trigger] s[j].path@ == q && s[j].node is Dir;
                assert(s[i].path@ == s[j].path@);
            }
        }
    }

    /// A store holding only the root directory.
    pub fn new() -> (t: Tree)
        ensures
            t.wf(),
            t@ == empty_tree(),
    {
        let t = Tree { entries: Vec::new() };
        proof {
            assert(t@.dirs =~= empty_tree().dirs);
            assert(t@.files =~= empty_tree().files);
            assert(t@ =~= empty_tree());
        }
        t
    }

    /// The index of the entry at `p`, if any.
    fn find(&self, p: &String) -> (r: Option<usize>)
        ensures
            match r {
                Some(i) => i < self.entries@.len() && self.entries@[i as int].path@ == p@,
                None => forall|i: int|
                    0 <= i < self.entries@.len() ==> #[trigger] self.entries@[i].path@ != p@,
            },
    {
        let mut i: usize = 0;
        while i < self.entries.len()
            invariant
                0 <= i <= self.entries@.len(),
                forall|j: int| 0 <= j < i ==> #[trigger] self.entries@[j].path@ != p@,
            decreases self.entries@.len() - i,
        {
            if self.entries[i].path.eq(p) {
                return Some(i);
            }
            i += 1;
        }
        None
    }

    /// Whether `p` is a directory of this store.
    pub fn is_dir_at(&self, p: &str) -> (b: bool)
        requires
            self.wf(),
        ensures
            b == self@.dirs.contains(p@),
    {
        if path_is_root(p) {
            return true;
        }
        let ps = String::from_str(p);
        match self.find(&ps) {
            Some(i) => {
                let e = &self.entries[i];
                match e.node {
                    Node::Dir => {
                        assert(self.entries@[i as int].path@ == p@);
                        true
                    },
                    Node::File(_) => {
                        proof {
                            if self@.dirs.contains(p@) {
                                let j = choose|j: int|
                                    0 <= j < self.entries@.len()
                                        && #[trigger] self.entries@[j].path@ == p@
                                        && self.entries@[j].node is Dir;
                                assert(self.entries@[j].path@ == self.entries@[i as int].path@);
                            }
                        }
                        false
                    },
                }
            },
            None => {
                proof {
                    if self@.dirs.contains(p@) {
                        let j = choose|j: int|
                            0 <= j < self.entries@.len()
                                && #[trigger] self.entries@[j].path@ == p@
                                && self.entries@[j].node is Dir;
                        assert(self.entries@[j].path@ == p@);
                    }
                }
                false
            },
        }
    }

    /// Whether `p` is a file of this store.
    pub fn is_file_at(&self, p: &str) -> (b: bool)
        requires
            self.wf(),
        ensures
            b == self@.files.dom().contains(p@),
    {
        let ps = String::from_str(p);
        match self.find(&ps) {
            Some(i) => {
                let e = &self.entries[i];
                match e.node {
                    Node::Dir => {
                        proof {
                            if self@.files.dom().contains(p@) {
                                let j = choose|j: int| has_file_at(self.entries@, p@, j);
                                assert(has_file_at(self.entries@, p@, j));
                                assert(self.entries@[j].path@ == self.entries@[i as int].path@);
                            }
                        }
                        false
                    },
                    Node::File(_) => {
                        proof {
                            assert(has_file_at(self.entries@, p@, i as int));
                        }
                        true
                    },
                }
            },
            None => {
                proof {
                    if self@.files.dom().contains(p@) {
                        let j = choose|j: int| has_file_at(self.entries@, p@, j);
                        assert(has_file_at(self.entries@, p@, j));
                    }
                }
                false
            },
        }
    }

    /// Whether `p` exists in this store, as a file or a directory.
    pub fn contains_path(&self, p: &str) -> (b: bool)
        requires
            self.wf(),
        ensures
            b == (self@.dirs.contains(p@) || self@.files.dom().contains(p@)),
    {
        self.is_dir_at(p) || self.is_file_at(p)
    }

    /// The length of the file at `p`, if `p` is a file.
    pub fn file_len(&self, p: &str) -> (r: Option<usize>)
        requires
            self.wf(),
        ensures
            match r {
                Some(n) => self@.files.dom().contains(p@) && n == self@.files[p@].len(),
                None => !self@.files.dom().contains(p@),
            },
    {
        let ps = String::from_str(p);
        match self.find(&ps) {
            Some(i) => {
                let e = &self.entries[i];
                match &e.node {
                    Node::Dir => {
                        proof {
                            if self@.files.dom().contains(p@) {
                                let j = choose|j: int| has_file_at(self.entries@, p@, j);
                                assert(has_file_at(self.entries@, p@, j));
                                assert(self.entries@[j].path@ == self.entries@[i as int].path@);
                            }
                        }
                        None
                    },
                    Node::File(d) => {
                        proof {
                            lemma_file_lookup(self.entries@, p@, i as int);
                        }
                        Some(d.len())
                    },
                }
            },
            None => {
                proof {
                    if self@.files.dom().contains(p@) {
                        let j = choose|j: int| has_file_at(self.entries@, p@, j);
                        assert(has_file_at(self.entries@, p@, j));
                    }
                }
                None
            },
        }
    }

    /// A copy of the contents of the file at `p`, if `p` is a file.
    pub fn get_file(&self, p: &str) -> (r: Option<Vec<u8>>)
        requires
            self.wf(),
        ensures
            match r {
                Some(d) => self@.files.dom().contains(p@) && d@ == self@.files[p@],
                None => !self@.files.dom().contains(p@),
            },
    {
        let ps = String::from_str(p);
        match self.find(&ps) {
            Some(i) => {
                let e = &self.entries[i];
                match &e.node {
                    Node::Dir => {
                        proof {
                            if self@.files.dom().contains(p@) {
                                let j = choose|j: int| has_file_at(self.entries@, p@, j);
                                assert(has_file_at(self.entries@, p@, j));
                                assert(self.entries@[j].path@ == self.entries@[i as int].path@);
                            }
                        }
                        None
                    },
                    Node::File(d) => {
                        proof {
                            lemma_file_lookup(self.entries@, p@, i as int);
                        }
                        Some(copy_bytes(d))
                    },
                }
            },
            None => {
                proof {
                    if self@.files.dom().contains(p@) {
                        let j = choose|j: int| has_file_at(self.entries@, p@, j);
                        assert(has_file_at(self.entries@, p@, j));
                    }
                }
                None
            },
        }
    }

    /// Put the file `p` with the given contents, replacing any existing
    /// file there.  The parent directory must exist and `p` must not be a
    /// directory.
    pub fn insert_file(&mut self, p: &str, data: Vec<u8>)
        requires
            old(self).wf(),
            valid_path(p@),
            !is_root(p@),
            old(self)@.dirs.contains(parent_of(p@)),
            !old(self)@.dirs.contains(p@),
        ensures
            final(self).wf(),
            final(self)@.dirs == old(self)@.dirs,
            final(self)@.files == old(self)@.files.insert(p@, data@),
    {
        let ghost s0 = self.entries@;
        let ps = String::from_str(p);
        match self.find(&ps) {
            Some(i) => {
                proof {
                    // the entry at p is a file, since p is not a directory
                    if self.entries@[i as int].node is Dir {
                        assert(dirs_of(s0).contains(p@));
                    }
                }
                self.entries.set(i, Entry { path: ps, node: Node::File(data) });
                proof {
                    let s1 = self.entries@;
                    assert(s1 == s0.update(i as int, s1[i as int]));
                    assert forall|j: int| 0 <= j < s1.len() && j != i implies s1[j] == s0[j] by {}
                    assert(dirs_of(s1) =~= dirs_of(s0)) by {
                        assert forall|q: Seq<char>| dirs_of(s1).contains(q) implies dirs_of(s0).contains(q) by {
                            if !is_root(q) {
                                let j = choose|j: int|
                                    0 <= j < s1.len() && #[trigger] s1[j].path@ == q && s1[j].node is Dir;
                                assert(s0[j].path@ == q && s0[j].node is Dir);
                            }
                        }
                        assert forall|q: Seq<char>| dirs_of(s0).contains(q) implies dirs_of(s1).contains(q) by {
                            if !is_root(q) {
                                let j = choose|j: int|
                                    0 <= j < s0.len() && #[trigger] s0[j].path@ == q && s0[j].node is Dir;
                                assert(j != i);
                                assert(s1[j].path@ == q && s1[j].node is Dir);
                            }
                        }
                    }
                    {
                        assert forall|q: Seq<char>| #[trigger] files_of(s1).dom().contains(q) implies
                            files_of(s0).insert(p@, data@).dom().contains(q)
                            && files_of(s1)[q] == files_of(s0).insert(p@, data@)[q] by {
                            let j = choose|j: int| has_file_at(s1, q, j);
                            assert(has_file_at(s1, q, j));
                            lemma_file_lookup(s1, q, j);
                            if j == i {
                                assert(q == p@);
                            } else {
                                assert(has_file_at(s0, q, j));
                                lemma_file_lookup(s0, q, j);
                                assert(q != p@);
                            }
                        }
                        assert forall|q: Seq<char>| #[trigger] files_of(s0).insert(p@, data@).dom().contains(q)
                            implies files_of(s1).dom().contains(q) by {
                            if q == p@ {
                                assert(has_file_at(s1, q, i as int));
                            } else {
                                let j = choose|j: int| has_file_at(s0, q, j);
                                assert(has_file_at(s0, q, j));
                                assert(j != i);
                                assert(has_file_at(s1, q, j));
                            }
                        }
                    }
                    lemma_map_ext(files_of(s1), files_of(s0).insert(p@, data@));
                    assert(files_of(s1) == files_of(s0).insert(p@, data@));
                    assert(closed_parents(s1)) by {
                        assert forall|j: int| 0 <= j < s1.len() implies
                            dirs_of(s1).contains(parent_of(#[trigger] s1[j].path@)) by {
                            assert(s1[j].path@ == s0[j].path@);
                            assert(dirs_of(s0).contains(parent_of(s0[j].path@)));
                        }
                    }
                }
            },
            None => {
                self.entries.push(Entry { path: ps, node: Node::File(data) });
                proof {
                    let s1 = self.entries@;
                    assert(s1 == s0.push(s1[s1.len() - 1]));
                    assert(s1[s1.len() - 1].path@ == p@);
                    assert forall|j: int| 0 <= j < s0.len() implies s1[j] == s0[j] by {}
                    assert(dirs_of(s1) =~= dirs_of(s0)) by {
                        assert forall|q: Seq<char>| dirs_of(s1).contains(q) implies dirs_of(s0).contains(q) by {
                            if !is_root(q) {
                                let j = choose|j: int|
                                    0 <= j < s1.len() && #[trigger] s1[j].path@ == q && s1[j].node is Dir;
                                assert(j < s0.len());
                            }
                        }
                        assert forall|q: Seq<char>| dirs_of(s0).contains(q) implies dirs_of(s1).contains(q) by {
                            if !is_root(q) {
                                let j = choose|j: int|
                                    0 <= j < s0.len() && #[trigger] s0[j].path@ == q && s0[j].node is Dir;
                                assert(s1[j].path@ == q && s1[j].node is Dir);
                            }
                        }
                    }
                    {
                        assert(unique_paths(s1));
                        assert forall|q: Seq<char>| #[trigger] files_of(s1).dom().contains(q) implies
                            files_of(s0).insert(p@, data@).dom().contains(q)
                            && files_of(s1)[q] == files_of(s0).insert(p@, data@)[q] by {
                            let j = choose|j: int| has_file_at(s1, q, j);
                            assert(has_file_at(s1, q, j));
                            lemma_file_lookup(s1, q, j);
                            if j == s1.len() - 1 {
                                assert(q == p@);
                            } else {
                                assert(has_file_at(s0, q, j));
                                lemma_file_lookup(s0, q, j);
                                assert(q != p@);
                            }
                        }
                        assert forall|q: Seq<char>| #[trigger] files_of(s0).insert(p@, data@).dom().contains(q)
                            implies files_of(s1).dom().contains(q) by {
                            if q == p@ {
                                assert(has_file_at(s1, q, s1.len() - 1));
                            } else {
                                let j = choose|j: int| has_file_at(s0, q, j);
                                assert(has_file_at(s0, q, j));
                                assert(has_file_at(s1, q, j));
                            }
                        }
                    }
                    lemma_map_ext(files_of(s1), files_of(s0).insert(p@, data@));
                    assert(files_of(s1) == files_of(s0).insert(p@, data@));
                    assert(closed_parents(s1)) by {
                        assert forall|j: int| 0 <= j < s1.len() implies
                            dirs_of(s1).contains(parent_of(#[trigger] s1[j].path@)) by {
                            if j < s0.len() {
                                assert(dirs_of(s0).contains(parent_of(s0[j].path@)));
                            } else {
                                assert(s1[j].path@ == p@);
                                assert(dirs_of(s0).contains(parent_of(p@)));
                            }
                        }
                    }
                }
            },
        }
    }

    /// Make `p` a directory, given that its parent already is one.
    /// Returns false, changing nothing, when `p` is a file.
    pub fn insert_dir(&mut self, p: &str) -> (ok: bool)
        requires
            old(self).wf(),
            valid_path(p@),
            !is_root(p@),
            old(self)@.dirs.contains(parent_of(p@)),
        ensures
            final(self).wf(),
            ok == !old(self)@.files.dom().contains(p@),
            final(self)@.files == old(self)@.files,
            ok ==> final(self)@.dirs == old(self)@.dirs.insert(p@),
            !ok ==> *final(self) == *old(self),
    {
        let ghost s0 = self.entries@;
        let ps = String::from_str(p);
        match self.find(&ps) {
            Some(i) => {
                let e = &self.entries[i];
                match e.node {
                    Node::Dir => {
                        proof {
                            assert(dirs_of(s0).contains(p@));
                            assert(self@.dirs =~= old(self)@.dirs.insert(p@));
                            if old(self)@.files.dom().contains(p@) {
                                let j = choose|j: int| has_file_at(s0, p@, j);
                                assert(has_file_at(s0, p@, j));
                                assert(s0[j].path@ == s0[i as int].path@);
                            }
                        }
                        true
                    },
                    Node::File(_) => {
                        proof {
                            assert(has_file_at(s0, p@, i as int));
                        }
                        false
                    },
                }
            },
            None => {
                self.entries.push(Entry { path: ps, node: Node::Dir });
                proof {
                    let s1 = self.entries@;
                    assert(s1 == s0.push(s1[s1.len() - 1]));
                    assert(s1[s1.len() - 1].path@ == p@);
                    assert(s1[s1.len() - 1].node is Dir);
                    if old(self)@.files.dom().contains(p@) {
                        let j = choose|j: int| has_file_at(s0, p@, j);
                        assert(has_file_at(s0, p@, j));
                    }
                    assert(dirs_of(s1) =~= dirs_of(s0).insert(p@)) by {
                        assert forall|q: Seq<char>| dirs_of(s1).contains(q) implies
                            dirs_of(s0).insert(p@).contains(q) by {
                            if !is_root(q) {
                                let j = choose|j: int|
                                    0 <= j < s1.len() && #[trigger] s1[j].path@ == q && s1[j].node is Dir;
                                if j < s0.len() {
                                    assert(dirs_of(s0).contains(q));
                                } else {
                                    assert(q == p@);
                                }
                            }
                        }
                        assert forall|q: Seq<char>| dirs_of(s0).insert(p@).contains(q) implies
                            dirs_of(s1).contains(q) by {
                            if q == p@ {
                                assert(s1[s1.len() - 1].path@ == q && s1[s1.len() - 1].node is Dir);
                            } else if !is_root(q) {
                                let j = choose|j: int|
                                    0 <= j < s0.len() && #[trigger] s0[j].path@ == q && s0[j].node is Dir;
                                assert(s1[j].path@ == q && s1[j].node is Dir);
                            }
                        }
                    }
                    {
                        assert forall|q: Seq<char>| #[trigger] files_of(s1).dom().contains(q) implies
                            files_of(s0).dom().contains(q) && files_of(s1)[q] == files_of(s0)[q] by {
                            let j = choose|j: int| has_file_at(s1, q, j);
                            assert(has_file_at(s1, q, j));
                            assert(j < s0.len());
                            assert(has_file_at(s0, q, j));
                            lemma_file_lookup(s1, q, j);
                            lemma_file_lookup(s0, q, j);
                        }
                        assert forall|q: Seq<char>| #[trigger] files_of(s0).dom().contains(q) implies
                            files_of(s1).dom().contains(q) by {
                            let j = choose|j: int| has_file_at(s0, q, j);
                            assert(has_file_at(s0, q, j));
                            assert(has_file_at(s1, q, j));
                        }
                    }
                    lemma_map_ext(files_of(s1), files_of(s0));
                    assert(files_of(s1) == files_of(s0));
                    assert(closed_parents(s1)) by {
                        assert forall|j: int| 0 <= j < s1.len() implies
                            dirs_of(s1).contains(parent_of(#[trigger] s1[j].path@)) by {
                            if j < s0.len() {
                                assert(dirs_of(s0).contains(parent_of(s0[j].path@)));
                                assert(dirs_of(s1).contains(parent_of(s0[j].path@)));
                            } else {
                                assert(s1[j].path@ == p@);
                                assert(dirs_of(s0).contains(parent_of(p@)));
                            }
                        }
                    }
                }
                true
            },
        }
    }

    /// Make `p` a directory together with every missing ancestor.
    /// Succeeds idempotently when `p` already is a directory; fails,
    /// without touching any file, when `p` or an ancestor is a file.
    pub fn make_dirs(&mut self, p: &str) -> (ok: bool)
        requires
            old(self).wf(),
            valid_path(p@),
        ensures
            final(self).wf(),
            final(self)@.files == old(self)@.files,
            ok == forall|q: Seq<char>|
                #[trigger] anc_or_self(p@).contains(q) ==> !old(self)@.files.dom().contains(q),
            ok ==> final(self)@.dirs == old(self)@.dirs.union(anc_or_self(p@)),
            !ok ==> old(self)@.dirs.subset_of(final(self)@.dirs) && final(self)@.dirs.subset_of(
                old(self)@.dirs.union(anc_or_self(p@))),
        decreases p@.len(),
    {
        if path_is_root(p) {
            proof {
                lemma_anc_root();
                self.lemma_wf_props();
                assert forall|q: Seq<char>| #[trigger] anc_or_self(p@).contains(q) implies
                    !self@.files.dom().contains(q) by {
                    assert(q =~= root_path());
                }
                assert(p@ =~= root_path());
                assert(self@.dirs.union(anc_or_self(p@)) =~= self@.dirs);
            }
            return true;
        }
        let par = path_parent(p);
        proof {
            lemma_parent(p@);
            lemma_anc_unfold(p@);
        }
        let ok_par = self.make_dirs(par.as_str());
        if !ok_par {
            proof {
                let bad = choose|q: Seq<char>|
                    #[trigger] anc_or_self(par@).contains(q) && old(self)@.files.dom().contains(q);
                assert(anc_or_self(p@).contains(bad));
                assert forall|q: Seq<char>| self@.dirs.contains(q) implies
                    old(self)@.dirs.union(anc_or_self(p@)).contains(q) by {
                    if !old(self)@.dirs.contains(q) {
                        assert(anc_or_self(par@).contains(q));
                    }
                }
            }
            return false;
        }
        proof {
            assert(anc_or_self(par@).contains(par@));
            assert(self@.dirs.contains(parent_of(p@)));
        }
        let ghost mid_dirs = self@.dirs;
        let ok_self = self.insert_dir(p);
        proof {
            if ok_self {
                assert(self@.dirs =~= old(self)@.dirs.union(anc_or_self(p@))) by {
                    assert(self@.dirs == mid_dirs.insert(p@));
                }
                assert forall|q: Seq<char>| #[trigger] anc_or_self(p@).contains(q) implies
                    !old(self)@.files.dom().contains(q) by {
                    if q == p@ {
                        assert(!old(self)@.files.dom().contains(p@));
                    } else {
                        assert(anc_or_self(par@).contains(q));
                    }
                }
            } else {
                assert(old(self)@.files.dom().contains(p@));
                assert(anc_or_self(p@).contains(p@));
                assert forall|q: Seq<char>| self@.dirs.contains(q) implies
                    old(self)@.dirs.union(anc_or_self(p@)).contains(q) by {
                    if !old(self)@.dirs.contains(q) {
                        assert(anc_or_self(par@).contains(q));
                    }
                }
            }
        }
        ok_self
    }

    /// Whether anything in the store lies strictly below `p`.
    pub fn has_descendant(&self, p: &str) -> (b: bool)
        requires
            self.wf(),
        ensures
            b == exists|q: Seq<char>|
                (self@.dirs.contains(q) || self@.files.dom().contains(q)) && #[trigger] under(
                    q,
                    p@,
                ),
    {
        let mut i: usize = 0;
        while i < self.entries.len()
            invariant
                self.wf(),
                0 <= i <= self.entries@.len(),
                forall|j: int| 0 <= j < i ==> !under(#[trigger] self.entries@[j].path@, p@),
            decreases self.entries@.len() - i,
        {
            let e = &self.entries[i];
            if path_under(e.path.as_str(), p) {
                proof {
                    let q = self.entries@[i as int].path@;
                    if self.entries@[i as int].node is Dir {
                        assert(self@.dirs.contains(q));
                    } else {
                        assert(has_file_at(self.entries@, q, i as int));
                        assert(self@.files.dom().contains(q));
                    }
                }
                return true;
            }
            i += 1;
        }
        proof {
            if exists|q: Seq<char>|
                (self@.dirs.contains(q) || self@.files.dom().contains(q)) && #[trigger] under(q, p@) {
                let q = choose|q: Seq<char>|
                    (self@.dirs.contains(q) || self@.files.dom().contains(q)) && #[trigger] under(q, p@);
                if self@.dirs.contains(q) {
                    assert(!is_root(q)) by {
                        if is_root(q) {
                            assert(dir_prefix(p@).len() >= 1);
                        }
                    }
                    let j = choose|j: int|
                        0 <= j < self.entries@.len() && #[trigger] self.entries@[j].path@ == q
                            && self.entries@[j].node is Dir;
                    assert(!under(self.entries@[j].path@, p@));
                } else {
                    let j = choose|j: int| has_file_at(self.entries@, q, j);
                    assert(has_file_at(self.entries@, q, j));
                    assert(!under(self.entries@[j].path@, p@));
                }
            }
        }
        false
    }

    /// Remove exactly the entry at `p`: a file, or a directory with
    /// nothing below it.
    pub fn remove_path(&mut self, p: &str)
        requires
            old(self).wf(),
            old(self)@.files.dom().contains(p@) || (old(self)@.dirs.contains(p@) && !is_root(p@)
                && forall|q: Seq<char>|
                !((old(self)@.dirs.contains(q) || old(self)@.files.dom().contains(q))
                    && #[trigger] under(q, p@))),
        ensures
            final(self).wf(),
            final(self)@.dirs == old(self)@.dirs.remove(p@),
            final(self)@.files == old(self)@.files.remove(p@),
    {
        let ghost s0 = self.entries@;
        proof {
            self.lemma_wf_props();
            if old(self)@.files.dom().contains(p@) {
                let j = choose|j: int| has_file_at(s0, p@, j);
                assert(has_file_at(s0, p@, j));
            } else {
                let j = choose|j: int|
                    0 <= j < s0.len() && #[trigger] s0[j].path@ == p@ && s0[j].node is Dir;
                assert(s0[j].path@ == p@);
            }
        }
        let ps = String::from_str(p);
        let r = self.find(&ps);
        match r {
            Some(i) => {
                let _ = self.entries.remove(i);
                proof {
                    let s1 = self.entries@;
                    assert(s1 == s0.remove(i as int));
                    assert forall|j: int| 0 <= j < s1.len() implies s1[j] == (if j < i {
                        s0[j]
                    } else {
                        s0[j + 1]
                    }) by {}
                    // distinctness carries over
                    assert(unique_paths(s1)) by {
                        assert forall|a: int, b: int|
                            0 <= a < s1.len() && 0 <= b < s1.len()
                                && #[trigger] s1[a].path@ == #[trigger] s1[b].path@ implies a == b by {
                            let a0: int = if a < i { a } else { a + 1 };
                            let b0: int = if b < i { b } else { b + 1 };
                            assert(s0[a0].path@ == s0[b0].path@);
                        }
                    }
                    assert(dirs_of(s1) =~= dirs_of(s0).remove(p@)) by {
                        assert forall|q: Seq<char>| dirs_of(s1).contains(q) implies
                            dirs_of(s0).remove(p@).contains(q) by {
                            if !is_root(q) {
                                let j = choose|j: int|
                                    0 <= j < s1.len() && #[trigger] s1[j].path@ == q && s1[j].node is Dir;
                                let j0: int = if j < i { j } else { j + 1 };
                                assert(s0[j0].path@ == q && s0[j0].node is Dir);
                                assert(q != p@) by {
                                    if q == p@ {
                                        assert(s0[j0].path@ == s0[i as int].path@);
                                    }
                                }
                            } else {
                                assert(q != p@);
                            }
                        }
                        assert forall|q: Seq<char>| dirs_of(s0).remove(p@).contains(q) implies
                            dirs_of(s1).contains(q) by {
                            if !is_root(q) {
                                let j = choose|j: int|
                                    0 <= j < s0.len() && #[trigger] s0[j].path@ == q && s0[j].node is Dir;
                                assert(j != i);
                                let j1: int = if j < i { j } else { j - 1 };
                                assert(s1[j1].path@ == q && s1[j1].node is Dir);
                            }
                        }
                    }
                    {
                        assert forall|q: Seq<char>| #[trigger] files_of(s1).dom().contains(q) implies
                            files_of(s0).remove(p@).dom().contains(q)
                            && files_of(s1)[q] == files_of(s0).remove(p@)[q] by {
                            let j = choose|j: int| has_file_at(s1, q, j);
                            assert(has_file_at(s1, q, j));
                            let j0: int = if j < i { j } else { j + 1 };
                            assert(has_file_at(s0, q, j0));
                            assert(q != p@) by {
                                if q == p@ {
                                    assert(s0[j0].path@ == s0[i as int].path@);
                                }
                            }
                            lemma_file_lookup(s1, q, j);
                            lemma_file_lookup(s0, q, j0);
                        }
                        assert forall|q: Seq<char>| #[trigger] files_of(s0).remove(p@).dom().contains(q)
                            implies files_of(s1).dom().contains(q) by {
                            let j = choose|j: int| has_file_at(s0, q, j);
                            assert(has_file_at(s0, q, j));
                            assert(j != i);
                            let j1: int = if j < i { j } else { j - 1 };
                            assert(has_file_at(s1, q, j1));
                        }
                    }
                    lemma_map_ext(files_of(s1), files_of(s0).remove(p@));
                    assert(files_of(s1) == files_of(s0).remove(p@));
                    assert(closed_parents(s1)) by {
                        assert forall|j: int| 0 <= j < s1.len() implies
                            dirs_of(s1).contains(parent_of(#[trigger] s1[j].path@)) by {
                            let j0: int = if j < i { j } else { j + 1 };
                            let e = s1[j].path@;
                            assert(e == s0[j0].path@);
                            assert(dirs_of(s0).contains(parent_of(e)));
                            assert(parent_of(e) != p@) by {
                                if parent_of(e) == p@ {
                                    // p would then have a descendant, or be a file's parent
                                    lemma_parent(e);
                                    assert(under(e, p@));
                                    if s0[j0].node is Dir {
                                        assert(dirs_of(s0).contains(e));
                                    } else {
                                        assert(has_file_at(s0, e, j0));
                                        assert(files_of(s0).dom().contains(e));
                                    }
                                    assert(old(self)@.dirs.contains(p@) && !is_root(p@));
                                    assert(!old(self)@.files.dom().contains(p@));
                                    assert(false);
                                }
                            }
                            assert(dirs_of(s0).remove(p@).contains(parent_of(e)));
                        }
                    }
                }
            },
            None => {
                proof {
                    assert(false);
                }
            },
        }
    }

    /// Remove `p` and everything below it.
    pub fn remove_tree(&mut self, p: &str)
        requires
            old(self).wf(),
        ensures
            final(self).wf(),
            final(self)@.dirs == old(self)@.dirs.difference(doomed_by(p@)).insert(root_path()),
            final(self)@.files == old(self)@.files.remove_keys(doomed_by(p@)),
    {
        let ghost s0 = self.entries@;
        let ghost dm = doomed_by(p@);
        let mut kept: Vec<Entry> = Vec::new();
        let ghost mut idxmap: Seq<int> = Seq::empty();
        proof {
            self.lemma_wf_props();
            assert(self.entries@ =~= s0.subrange(0, s0.len() as int));
        }
        while self.entries.len() > 0
            invariant
                dm == doomed_by(p@),
                self.entries@.len() <= s0.len(),
                self.entries@ == s0.subrange(
                    s0.len() - self.entries@.len(),
                    s0.len() as int,
                ),
                idxmap.len() == kept@.len(),
                forall|j: int|
                    0 <= j < kept@.len() ==> 0 <= #[trigger] idxmap[j]
                        < s0.len() - self.entries@.len() && kept@[j] == s0[idxmap[j]]
                        && !dm.contains(s0[idxmap[j]].path@),
                forall|j1: int, j2: int|
                    0 <= j1 < j2 < kept@.len() ==> #[trigger] idxmap[j1] < #[trigger] idxmap[j2],
                forall|i: int|
                    0 <= i < s0.len() - self.entries@.len() && !dm.contains(
                        #[trigger] s0[i].path@,
                    ) ==> exists|j: int| 0 <= j < idxmap.len() && #[trigger] idxmap[j] == i,
            decreases self.entries@.len(),
        {
            let ghost k = s0.len() - self.entries@.len();
            let ghost prev = self.entries@;
            let e = self.entries.remove(0);
            proof {
                assert(prev[0] == s0[k]);
                assert(e == s0[k]);
                assert(self.entries@ =~= s0.subrange(k + 1, s0.len() as int)) by {
                    assert(self.entries@ == prev.remove(0));
                    assert forall|x: int| 0 <= x < prev.len() - 1 implies prev.remove(0)[x] == s0[k
                        + 1 + x] by {
                        assert(prev[x + 1] == s0[k + 1 + x]);
                    }
                }
                assert(k + 1 == s0.len() - self.entries@.len());
            }
            let is_doomed = path_eq(e.path.as_str(), p) || path_under(e.path.as_str(), p);
            proof {
                assert(is_doomed == dm.contains(e.path@));
            }
            if !is_doomed {
                kept.push(e);
                proof {
                    let idx0 = idxmap;
                    idxmap = idxmap.push(k);
                    assert(kept@[kept@.len() - 1] == s0[k]);
                    assert(idxmap[idxmap.len() - 1] == k);
                    assert forall|i: int|
                        0 <= i < k + 1 && !dm.contains(#[trigger] s0[i].path@) implies exists|j: int|
                        0 <= j < idxmap.len() && #[trigger] idxmap[j] == i by {
                        if i == k {
                            assert(idxmap[idxmap.len() - 1] == i);
                        } else {
                            let j = choose|j: int| 0 <= j < idx0.len() && #[trigger] idx0[j] == i;
                            assert(idxmap[j] == i);
                        }
                    }
                }
            } else {
                proof {
                    assert forall|i: int|
                        0 <= i < k + 1 && !dm.contains(#[trigger] s0[i].path@) implies exists|j: int|
                        0 <= j < idxmap.len() && #[trigger] idxmap[j] == i by {
                        if i < k {
                            let j = choose|j: int| 0 <= j < idxmap.len() && #[trigger] idxmap[j] == i;
                            assert(idxmap[j] == i);
                        } else {
                            assert(dm.contains(s0[i].path@));
                        }
                    }
                }
            }
        }
        let ghost s1 = kept@;
        proof {
            assert(self.entries@.len() == 0);
            // every kept entry is an undoomed entry of the former contents,
            // and every such entry was kept
            assert forall|j: int| 0 <= j < s1.len() implies exists|i: int|
                0 <= i < s0.len() && #[trigger] s1[j] == s0[i] && !dm.contains(s0[i].path@) by {
                assert(s1[j] == s0[idxmap[j]] && !dm.contains(s0[idxmap[j]].path@));
            }
            assert forall|i: int|
                0 <= i < s0.len() && !dm.contains(#[trigger] s0[i].path@) implies exists|j: int|
                0 <= j < s1.len() && s1[j] == s0[i] by {
                let j = choose|j: int| 0 <= j < idxmap.len() && #[trigger] idxmap[j] == i;
                assert(s1[j] == s0[i]);
            }
            assert(unique_paths(s1)) by {
                assert forall|j1: int, j2: int|
                    0 <= j1 < s1.len() && 0 <= j2 < s1.len() && #[trigger] s1[j1].path@
                        == #[trigger] s1[j2].path@ implies j1 == j2 by {
                    assert(s1[j1] == s0[idxmap[j1]]);
                    assert(s1[j2] == s0[idxmap[j2]]);
                    assert(s0[idxmap[j1]].path@ == s0[idxmap[j2]].path@);
                    assert(idxmap[j1] == idxmap[j2]);
                    if j1 < j2 || j2 < j1 {
                        assert(false);
                    }
                }
            }
            assert(all_valid(s1)) by {
                assert forall|j: int| 0 <= j < s1.len() implies valid_path(#[trigger] s1[j].path@)
                    && !is_root(s1[j].path@) by {
                    assert(s1[j] == s0[idxmap[j]]);
                    assert(valid_path(s0[idxmap[j]].path@));
                }
            }
            assert(dirs_of(s1) =~= dirs_of(s0).difference(dm).insert(root_path())) by {
                assert forall|q: Seq<char>| dirs_of(s1).contains(q) implies
                    dirs_of(s0).difference(dm).insert(root_path()).contains(q) by {
                    if is_root(q) {
                        assert(q =~= root_path());
                    } else {
                        let j = choose|j: int|
                            0 <= j < s1.len() && #[trigger] s1[j].path@ == q && s1[j].node is Dir;
                        let i = choose|i: int|
                            0 <= i < s0.len() && #[trigger] s1[j] == s0[i] && !dm.contains(s0[i].path@);
                        assert(s0[i].path@ == q && s0[i].node is Dir);
                    }
                }
                assert forall|q: Seq<char>| dirs_of(s0).difference(dm).insert(root_path()).contains(
                    q,
                ) implies dirs_of(s1).contains(q) by {
                    if q == root_path() {
                        assert(is_root(q));
                    } else if !is_root(q) {
                        let i = choose|i: int|
                            0 <= i < s0.len() && #[trigger] s0[i].path@ == q && s0[i].node is Dir;
                        assert(!dm.contains(s0[i].path@));
                        let j = choose|j: int| 0 <= j < s1.len() && s1[j] == s0[i];
                        assert(s1[j].path@ == q && s1[j].node is Dir);
                    } else {
                        assert(q =~= root_path());
                    }
                }
            }
            {
                assert forall|q: Seq<char>| #[trigger] files_of(s1).dom().contains(q) implies
                    files_of(s0).remove_keys(dm).dom().contains(q)
                    && files_of(s1)[q] == files_of(s0).remove_keys(dm)[q] by {
                    let j = choose|j: int| has_file_at(s1, q, j);
                    assert(has_file_at(s1, q, j));
                    let i = choose|i: int|
                        0 <= i < s0.len() && #[trigger] s1[j] == s0[i] && !dm.contains(s0[i].path@);
                    assert(has_file_at(s0, q, i));
                    lemma_file_lookup(s1, q, j);
                    lemma_file_lookup(s0, q, i);
                }
                assert forall|q: Seq<char>| #[trigger] files_of(s0).remove_keys(dm).dom().contains(
                    q,
                ) implies files_of(s1).dom().contains(q) by {
                    let i = choose|i: int| has_file_at(s0, q, i);
                    assert(has_file_at(s0, q, i));
                    assert(!dm.contains(s0[i].path@));
                    let j = choose|j: int| 0 <= j < s1.len() && s1[j] == s0[i];
                    assert(has_file_at(s1, q, j));
                }
                lemma_map_ext(files_of(s1), files_of(s0).remove_keys(dm));
            }
            assert(closed_parents(s1)) by {
                assert forall|j: int| 0 <= j < s1.len() implies dirs_of(s1).contains(
                    parent_of(#[trigger] s1[j].path@),
                ) by {
                    let i = choose|i: int|
                        0 <= i < s0.len() && #[trigger] s1[j] == s0[i] && !dm.contains(s0[i].path@);
                    let e = s0[i].path@;
                    lemma_parent(e);
                    assert(dirs_of(s0).contains(parent_of(e)));
                    assert(!dm.contains(parent_of(e))) by {
                        if dm.contains(parent_of(e)) {
                            if parent_of(e) == p@ {
                                assert(under(e, p@));
                            } else {
                                assert(under(parent_of(e), p@));
                                lemma_under_trans(e, parent_of(e), p@);
                            }
                            assert(dm.contains(e));
                            assert(false);
                        }
                    }
                    if is_root(parent_of(e)) {
                        assert(dirs_of(s1).contains(parent_of(e)));
                    } else {
                        let i2 = choose|i2: int|
                            0 <= i2 < s0.len() && #[trigger] s0[i2].path@ == parent_of(e)
                                && s0[i2].node is Dir;
                        let j2 = choose|j2: int| 0 <= j2 < s1.len() && s1[j2] == s0[i2];
                        assert(s1[j2].path@ == parent_of(e) && s1[j2].node is Dir);
                    }
                }
            }
        }
        self.entries = kept;
        proof {
            assert(self.entries@ == s1);
        }
    }

    /// The direct children of directory `p`, as full paths, each exactly
    /// once, in no particular order.
    pub fn children_of(&self, p: &str) -> (r: Vec<String>)
        requires
            self.wf(),
        ensures
            listing_ok(self@, p@, r@),
    {
        let mut r: Vec<String> = Vec::new();
        let mut i: usize = 0;
        while i < self.entries.len()
            invariant
                self.wf(),
                0 <= i <= self.entries@.len(),
                forall|j: int|
                    0 <= j < r@.len() ==> child_of(#[trigger] r@[j]@, p@) && exists|i2: int|
                        0 <= i2 < i && self.entries@[i2].path@ == r@[j]@,
                forall|i2: int|
                    0 <= i2 < i && child_of(#[trigger] self.entries@[i2].path@, p@) ==> exists|j: int|
                        0 <= j < r@.len() && r@[j]@ == self.entries@[i2].path@,
                forall|j1: int, j2: int|
                    0 <= j1 < j2 < r@.len() ==> r@[j1]@ != r@[j2]@,
            decreases self.entries@.len() - i,
        {
            let e = &self.entries[i];
            if path_child_of(e.path.as_str(), p) {
                proof {
                    assert forall|j: int| 0 <= j < r@.len() implies r@[j]@ != self.entries@[i as int].path@ by {
                        let i2 = choose|i2: int|
                            0 <= i2 < i && #[trigger] self.entries@[i2].path@ == r@[j]@;
                        if r@[j]@ == self.entries@[i as int].path@ {
                            assert(self.entries@[i2].path@ == self.entries@[i as int].path@);
                        }
                    }
                }
                let ghost r0 = r@;
                r.push(e.path.clone());
                proof {
                    assert(r@[r@.len() - 1]@ == self.entries@[i as int].path@);
                    assert forall|i2: int|
                        0 <= i2 < i + 1 && child_of(#[trigger] self.entries@[i2].path@, p@) implies
                        exists|j: int| 0 <= j < r@.len() && r@[j]@ == self.entries@[i2].path@ by {
                        if i2 < i {
                            let j = choose|j: int|
                                0 <= j < r0.len() && r0[j]@ == self.entries@[i2].path@;
                            assert(r@[j]@ == self.entries@[i2].path@);
                        } else {
                            assert(r@[r@.len() - 1]@ == self.entries@[i2].path@);
                        }
                    }
                }
            }
            i += 1;
        }
        proof {
            let s = self.entries@;
            assert forall|j: int| 0 <= j < r@.len() implies child_of(#[trigger] r@[j]@, p@)
                && (self@.dirs.contains(r@[j]@) || self@.files.dom().contains(r@[j]@)) by {
                let i2 = choose|i2: int| 0 <= i2 < s.len() && #[trigger] s[i2].path@ == r@[j]@;
                if s[i2].node is Dir {
                    assert(self@.dirs.contains(r@[j]@));
                } else {
                    assert(has_file_at(s, r@[j]@, i2));
                    assert(self@.files.dom().contains(r@[j]@));
                }
            }
            assert forall|q: Seq<char>|
                (self@.dirs.contains(q) || self@.files.dom().contains(q)) && #[trigger] child_of(
                    q,
                    p@,
                ) implies exists|j: int| 0 <= j < r@.len() && r@[j]@ == q by {
                assert(!is_root(q)) by {
                    if is_root(q) {
                        assert(under(q, p@));
                        assert(dir_prefix(p@).len() >= 1);
                    }
                }
                if self@.dirs.contains(q) {
                    let i2 = choose|i2: int|
                        0 <= i2 < s.len() && #[trigger] s[i2].path@ == q && s[i2].node is Dir;
                    assert(child_of(s[i2].path@, p@));
                } else {
                    let i2 = choose|i2: int| has_file_at(s, q, i2);
                    assert(has_file_at(s, q, i2));
                    assert(child_of(s[i2].path@, p@));
                }
            }
        }
        r
    }
}

} // verus!
