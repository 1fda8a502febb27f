use vstd::prelude::*;
use crate::errors::FsError;
use crate::mode::{octal_value, parse_mode, valid_octal};
use crate::paths::{
    is_child_of,
    is_child_exec,
    final_component,
    lemma_child_final_component,
    parent_of,
};
use crate::strutil::{find_last_char, str_eq};

verus! {

/// What a filesystem entry is: a regular file with its bytes, a directory,
/// or a symbolic link naming its target path.
pub enum FsNode {
    File { content: Vec<u8> },
    Directory,
    SymlinkTo { target: String },
}

/// One entry of the modelled filesystem: its full path, its permission
/// bits, and what it is.
pub struct FsEntry {
    pub path: String,
    pub mode: u32,
    pub node: FsNode,
}

/// The mathematical shape of a node.
pub enum NodeView {
    File { content: Seq<u8> },
    Directory,
    SymlinkTo { target: Seq<char> },
}

/// The mathematical shape of an entry: permission bits and node.
pub struct EntryView {
    pub mode: u32,
    pub node: NodeView,
}

impl View for FsNode {
    type V = NodeView;

    open spec fn view(&self) -> NodeView {
        match self {
            FsNode::File { content } => NodeView::File { content: content@ },
            FsNode::Directory => NodeView::Directory,
            FsNode::SymlinkTo { target } => NodeView::SymlinkTo { target: target@ },
        }
    }
}

impl View for FsEntry {
    type V = EntryView;

    open spec fn view(&self) -> EntryView {
        EntryView { mode: self.mode, node: self.node@ }
    }
}

/// Entry sequences are well-formed when no two entries share a path.
pub open spec fn entries_wf(s: Seq<FsEntry>) -> bool {
    forall|i: int, j: int|
        0 <= i < j < s.len() ==> (#[trigger] s[i]).path@ != (#[trigger] s[j]).path@
}

/// The map a sequence of entries stands for: each path to its entry.
pub open spec fn map_of(s: Seq<FsEntry>) -> Map<Seq<char>, EntryView> {
    Map::new(
        |p: Seq<char>| exists|i: int| 0 <= i < s.len() && (#[trigger] s[i]).path@ == p,
        |p: Seq<char>| s[choose|i: int| 0 <= i < s.len() && (#[trigger] s[i]).path@ == p]@,
    )
}

/// A well-formed entry sequence maps each entry's path to that entry.
pub proof fn lemma_map_of_index(s: Seq<FsEntry>, i: int)
    requires
        entries_wf(s),
        0 <= i < s.len(),
    ensures
        map_of(s).contains_key(s[i].path@),
        map_of(s)[s[i].path@] == s[i]@,
{
    let p = s[i].path@;
    assert(map_of(s).contains_key(p));
    let j = choose|j: int| 0 <= j < s.len() && (#[trigger] s[j]).path@ == p;
    assert(j == i);
}

/// Appending an entry with a fresh path inserts it into the map.
pub proof fn lemma_map_of_push(s: Seq<FsEntry>, e: FsEntry)
    requires
        entries_wf(s),
        forall|i: int| 0 <= i < s.len() ==> (#[trigger] s[i]).path@ != e.path@,
    ensures
        entries_wf(s.push(e)),
        map_of(s.push(e)) == map_of(s).insert(e.path@, e@),
{
    let s2 = s.push(e);
    assert(entries_wf(s2)) by {
        assert(forall|i: int| 0 <= i < s.len() ==> s2[i] == s[i]);
        assert(s2[s.len() as int] == e);
    }
    let m2 = map_of(s).insert(e.path@, e@);
    assert(map_of(s2) =~= m2) by {
        assert forall|q: Seq<char>| map_of(s2).contains_key(q) implies m2.contains_key(q) by {
            let i = choose|i: int| 0 <= i < s2.len() && (#[trigger] s2[i]).path@ == q;
            if i < s.len() {
                assert(s[i].path@ == q);
            }
        }
        assert forall|q: Seq<char>| m2.contains_key(q) implies map_of(s2).contains_key(q) by {
            if q == e.path@ {
                assert(s2[s.len() as int].path@ == q);
            } else {
                let i = choose|i: int| 0 <= i < s.len() && (#[trigger] s[i]).path@ == q;
                assert(s2[i].path@ == q);
            }
        }
        assert forall|q: Seq<char>| map_of(s2).contains_key(q) implies map_of(s2)[q] == m2[q] by {
            if q == e.path@ {
                lemma_map_of_index(s2, s.len() as int);
            } else {
                let i = choose|i: int| 0 <= i < s2.len() && (#[trigger] s2[i]).path@ == q;
                assert(i < s.len());
                lemma_map_of_index(s2, i);
                lemma_map_of_index(s, i);
            }
        }
    }
}

/// Removing the entry at an index removes its path from the map.
pub proof fn lemma_map_of_remove(s: Seq<FsEntry>, k: int)
    requires
        entries_wf(s),
        0 <= k < s.len(),
    ensures
        entries_wf(s.remove(k)),
        map_of(s.remove(k)) == map_of(s).remove(s[k].path@),
{
    let s2 = s.remove(k);
    let p = s[k].path@;
    s.remove_ensures(k);
    assert(entries_wf(s2)) by {
        assert forall|i: int, j: int|
            0 <= i < j < s2.len() implies (#[trigger] s2[i]).path@ != (#[trigger] s2[j]).path@ by {
            let i0 = if i < k {
                i
            } else {
                i + 1
            };
            let j0 = if j < k {
                j
            } else {
                j + 1
            };
            assert(s2[i] == s[i0]);
            assert(s2[j] == s[j0]);
        }
    }
    let m2 = map_of(s).remove(p);
    assert(map_of(s2) =~= m2) by {
        assert forall|q: Seq<char>| map_of(s2).contains_key(q) implies m2.contains_key(q) && map_of(
            s2,
        )[q] == m2[q] by {
            let i = choose|i: int| 0 <= i < s2.len() && (#[trigger] s2[i]).path@ == q;
            let i0 = if i < k {
                i
            } else {
                i + 1
            };
            assert(s2[i] == s[i0]);
            assert(i0 != k);
            assert(q != p);
            lemma_map_of_index(s, i0);
            lemma_map_of_index(s2, i);
        }
        assert forall|q: Seq<char>| m2.contains_key(q) implies map_of(s2).contains_key(q) by {
            let i = choose|i: int| 0 <= i < s.len() && (#[trigger] s[i]).path@ == q;
            assert(i != k);
            if i < k {
                assert(s2[i].path@ == q);
            } else {
                assert(s2[i - 1].path@ == q);
            }
        }
    }
}

/// Whether the parent directory a path needs is present in the map: the
/// part before the last '/' must name a directory. A path without '/'
/// needs none.
pub open spec fn parent_ok(m: Map<Seq<char>, EntryView>, p: Seq<char>) -> bool {
    match parent_of(p) {
        Some(par) => m.contains_key(par) && m[par].node is Directory,
        None => true,
    }
}

/// What copying `src` to `dest` does: duplicates the source file's content
/// and permission bits under `dest`, overwriting anything there. It fails
/// with `NotFound` when the source or the destination's parent directory is
/// missing, and with `NotAFile` when the source is not a regular file.
pub open spec fn copy_spec(m: Map<Seq<char>, EntryView>, src: Seq<char>, dest: Seq<char>) -> Result<
    Map<Seq<char>, EntryView>,
    FsError,
> {
    if !m.contains_key(src) {
        Err(FsError::NotFound)
    } else if !(m[src].node is File) {
        Err(FsError::NotAFile)
    } else if !parent_ok(m, dest) {
        Err(FsError::NotFound)
    } else {
        Ok(m.insert(dest, m[src]))
    }
}

/// What moving `src` to `dest` does: the entry leaves its old path and
/// appears unchanged under the new one. It fails with `NotFound` when the
/// source or the destination's parent directory is missing.
pub open spec fn move_spec(m: Map<Seq<char>, EntryView>, src: Seq<char>, dest: Seq<char>) -> Result<
    Map<Seq<char>, EntryView>,
    FsError,
> {
    if !m.contains_key(src) {
        Err(FsError::NotFound)
    } else if !parent_ok(m, dest) {
        Err(FsError::NotFound)
    } else {
        Ok(m.remove(src).insert(dest, m[src]))
    }
}

/// What deleting a path does: the entry disappears. It fails with
/// `NotFound` when the path is missing and with `NotAFile` when the path
/// names a directory.
pub open spec fn delete_spec(m: Map<Seq<char>, EntryView>, p: Seq<char>) -> Result<
    Map<Seq<char>, EntryView>,
    FsError,
> {
    if !m.contains_key(p) {
        Err(FsError::NotFound)
    } else if m[p].node is Directory {
        Err(FsError::NotAFile)
    } else {
        Ok(m.remove(p))
    }
}

/// What creating a symbolic link does: a new symlink entry under `link`
/// pointing at `target`. The target must exist beforehand (`NotFound`
/// otherwise), and the link's path must be free (`AlreadyExists`).
pub open spec fn symlink_spec(
    m: Map<Seq<char>, EntryView>,
    target: Seq<char>,
    link: Seq<char>,
) -> Result<Map<Seq<char>, EntryView>, FsError> {
    if !m.contains_key(target) {
        Err(FsError::NotFound)
    } else if m.contains_key(link) {
        Err(FsError::AlreadyExists)
    } else {
        Ok(m.insert(link, EntryView { mode: 0o777, node: NodeView::SymlinkTo { target } }))
    }
}

/// What changing permissions does: the entry keeps its place and node and
/// takes the bits the octal string names. A missing path gives `NotFound`;
/// after that, a malformed octal string gives `InvalidInput`.
pub open spec fn chmod_spec(
    m: Map<Seq<char>, EntryView>,
    p: Seq<char>,
    mode_str: Seq<char>,
) -> Result<Map<Seq<char>, EntryView>, FsError> {
    if !m.contains_key(p) {
        Err(FsError::NotFound)
    } else if !valid_octal(mode_str) {
        Err(FsError::InvalidInput)
    } else {
        Ok(m.insert(p, EntryView { mode: octal_value(mode_str) as u32, node: m[p].node }))
    }
}

/// The names of the immediate children of directory path `d`, from entry
/// index `i` on, in entry order.
pub open spec fn children_names(s: Seq<FsEntry>, d: Seq<char>, i: int) -> Seq<Seq<char>>
    decreases s.len() - i,
    when 0 <= i <= s.len()
{
    if i >= s.len() {
        Seq::empty()
    } else {
        let rest = children_names(s, d, i + 1);
        if is_child_of(s[i].path@, d) {
            seq![final_component(s[i].path@)] + rest
        } else {
            rest
        }
    }
}

/// An in-memory model of the part of a filesystem an operation touches:
/// a collection of entries with pairwise distinct paths. Its view is the
/// map from each path to its entry, and every operation's contract says
/// what becomes of that map.
pub struct FsModel {
    pub entries: Vec<FsEntry>,
}

impl View for FsModel {
    type V = Map<Seq<char>, EntryView>;

    open spec fn view(&self) -> Map<Seq<char>, EntryView> {
        map_of(self.entries@)
    }
}

/// Whether `n` is a directory node.
pub fn node_is_dir(n: &FsNode) -> (r: bool)
    ensures
        r == (n@ is Directory),
{
    match n {
        FsNode::Directory => true,
        _ => false,
    }
}

/// Whether `n` is a regular-file node.
pub fn node_is_file(n: &FsNode) -> (r: bool)
    ensures
        r == (n@ is File),
{
    match n {
        FsNode::File { .. } => true,
        _ => false,
    }
}

/// A byte-for-byte copy of a byte vector.
fn clone_bytes(v: &Vec<u8>) -> (r: Vec<u8>)
    ensures
        r@ == v@,
{
    let mut r: Vec<u8> = Vec::new();
    let mut i: usize = 0;
    while i < v.len()
        invariant
            i <= v.len(),
            r@ == v@.subrange(0, i as int),
        decreases v.len() - i,
    {
        r.push(v[i]);
        proof {
            assert(v@.subrange(0, i + 1) =~= v@.subrange(0, i as int).push(v@[i as int]));
        }
        i = i + 1;
    }
    proof {
        assert(v@.subrange(0, v@.len() as int) =~= v@);
    }
    r
}

/// A copy of a node with the same view.
fn clone_node(n: &FsNode) -> (r: FsNode)
    ensures
        r@ == n@,
{
    match n {
        FsNode::File { content } => FsNode::File { content: clone_bytes(content) },
        FsNode::Directory => FsNode::Directory,
        FsNode::SymlinkTo { target } => FsNode::SymlinkTo { target: target.clone() },
    }
}

impl FsModel {
    /// Paths are pairwise distinct.
    pub open spec fn wf(&self) -> bool {
        entries_wf(self.entries@)
    }

    /// An empty filesystem model.
    pub fn new() -> (r: FsModel)
        ensures
            r.wf(),
            r@ == Map::<Seq<char>, EntryView>::empty(),
    {
        let r = FsModel { entries: Vec::new() };
        proof {
            assert(r@ =~= Map::<Seq<char>, EntryView>::empty());
        }
        r
    }

    /// The index of the entry with the given path, when there is one.
    fn find_entry(&self, path: &str) -> (r: Option<usize>)
        ensures
            match r {
                Some(i) => i < self.entries@.len() && self.entries@[i as int].path@ == path@,
                None => forall|i: int|
                    0 <= i < self.entries@.len() ==> (#[trigger] self.entries@[i]).path@ != path@,
            },
    {
        let mut i: usize = 0;
        while i < self.entries.len()
            invariant
                i <= self.entries.len(),
                forall|k: int| 0 <= k < i ==> (#[trigger] self.entries@[k]).path@ != path@,
            decreases self.entries.len() - i,
        {
            if str_eq(self.entries[i].path.as_str(), path) {
                return Some(i);
            }
            i = i + 1;
        }
        None
    }

    /// Whether an entry with this path is present.
    pub fn contains_path(&self, path: &str) -> (r: bool)
        requires
            self.wf(),
        ensures
            r == self@.contains_key(path@),
    {
        match self.find_entry(path) {
            Some(i) => {
                proof {
                    lemma_map_of_index(self.entries@, i as int);
                }
                true
            },
            None => false,
        }
    }

    /// The content of the regular file at `path`, when there is one.
    pub fn file_content(&self, path: &str) -> (r: Option<&Vec<u8>>)
        requires
            self.wf(),
        ensures
            match r {
                Some(c) => self@.contains_key(path@) && self@[path@].node == (NodeView::File {
                    content: c@,
                }),
                None => !self@.contains_key(path@) || !(self@[path@].node is File),
            },
    {
        match self.find_entry(path) {
            Some(i) => {
                proof {
                    lemma_map_of_index(self.entries@, i as int);
                }
                match &self.entries[i].node {
                    FsNode::File { content } => Some(content),
                    _ => None,
                }
            },
            None => None,
        }
    }

    /// The permission bits of the entry at `path`, when there is one.
    pub fn mode_of(&self, path: &str) -> (r: Option<u32>)
        requires
            self.wf(),
        ensures
            match r {
                Some(m) => self@.contains_key(path@) && self@[path@].mode == m,
                None => !self@.contains_key(path@),
            },
    {
        match self.find_entry(path) {
            Some(i) => {
                proof {
                    lemma_map_of_index(self.entries@, i as int);
                }
                Some(self.entries[i].mode)
            },
            None => None,
        }
    }

    /// The target of the symbolic link at `path`, when there is one.
    pub fn symlink_target(&self, path: &str) -> (r: Option<&String>)
        requires
            self.wf(),
        ensures
            match r {
                Some(t) => self@.contains_key(path@) && self@[path@].node == (NodeView::SymlinkTo {
                    target: t@,
                }),
                None => !self@.contains_key(path@) || !(self@[path@].node is SymlinkTo),
            },
    {
        match self.find_entry(path) {
            Some(i) => {
                proof {
                    lemma_map_of_index(self.entries@, i as int);
                }
                match &self.entries[i].node {
                    FsNode::SymlinkTo { target } => Some(target),
                    _ => None,
                }
            },
            None => None,
        }
    }

    /// Puts an entry at `path`, replacing any entry already there.
    fn upsert(&mut self, path: &str, mode: u32, node: FsNode)
        requires
            old(self).wf(),
        ensures
            final(self).wf(),
            final(self)@ == old(self)@.insert(path@, EntryView { mode, node: node@ }),
    {
        let ghost s0 = self.entries@;
        let ghost nv = node@;
        let e = FsEntry { path: path.to_owned(), mode, node };
        match self.find_entry(path) {
            Some(i) => {
                proof {
                    lemma_map_of_remove(s0, i as int);
                }
                self.entries.remove(i);
                let ghost s1 = self.entries@;
                proof {
                    assert forall|k: int| 0 <= k < s1.len() implies (#[trigger] s1[k]).path@
                        != path@ by {
                        s0.remove_ensures(i as int);
                        let k0 = if k < i as int {
                            k
                        } else {
                            k + 1
                        };
                        assert(s1[k] == s0[k0]);
                    }
                    lemma_map_of_push(s1, e);
                }
                self.entries.push(e);
                proof {
                    assert(map_of(self.entries@) =~= map_of(s0).insert(path@, EntryView {
                        mode,
                        node: nv,
                    }));
                }
            },
            None => {
                proof {
                    lemma_map_of_push(s0, e);
                }
                self.entries.push(e);
            },
        }
    }

    /// Puts a regular file at `path` with the given content and bits,
    /// replacing any entry already there.
    pub fn add_file(&mut self, path: &str, content: Vec<u8>, mode: u32)
        requires
            old(self).wf(),
        ensures
            final(self).wf(),
            final(self)@ == old(self)@.insert(path@, EntryView {
                mode,
                node: NodeView::File { content: content@ },
            }),
    {
        self.upsert(path, mode, FsNode::File { content });
    }

    /// Puts a directory at `path` with the given bits, replacing any entry
    /// already there.
    pub fn add_dir(&mut self, path: &str, mode: u32)
        requires
            old(self).wf(),
        ensures
            final(self).wf(),
            final(self)@ == old(self)@.insert(path@, EntryView {
                mode,
                node: NodeView::Directory,
            }),
    {
        self.upsert(path, mode, FsNode::Directory);
    }

    /// Whether the parent directory that `path` needs is present.
    fn parent_ok_exec(&self, path: &str) -> (r: bool)
        requires
            self.wf(),
        ensures
            r == parent_ok(self@, path@),
    {
        match find_last_char(path, '/') {
            None => true,
            Some(d) => {
                let par = path.substring_char(0, d);
                match self.find_entry(par) {
                    None => false,
                    Some(i) => {
                        proof {
                            lemma_map_of_index(self.entries@, i as int);
                        }
                        node_is_dir(&self.entries[i].node)
                    },
                }
            },
        }
    }

    /// Copies the regular file at `src` to `dest`, content and permission
    /// bits alike, overwriting whatever `dest` held.
    pub fn copy_file(&mut self, src: &str, dest: &str) -> (r: Result<(), FsError>)
        requires
            old(self).wf(),
        ensures
            final(self).wf(),
            (match copy_spec(old(self)@, src@, dest@) {
                Ok(m2) => r == Ok::<(), FsError>(()) && final(self)@ == m2,
                Err(e) => r == Err::<(), FsError>(e) && final(self)@ == old(self)@,
            }),
    {
        let i = match self.find_entry(src) {
            None => {
                return Err(FsError::NotFound);
            },
            Some(i) => i,
        };
        proof {
            lemma_map_of_index(self.entries@, i as int);
        }
        if !node_is_file(&self.entries[i].node) {
            return Err(FsError::NotAFile);
        }
        if !self.parent_ok_exec(dest) {
            return Err(FsError::NotFound);
        }
        let mode = self.entries[i].mode;
        let node = clone_node(&self.entries[i].node);
        self.upsert(dest, mode, node);
        Ok(())
    }

    /// Moves the entry at `src` to `dest`, leaving nothing at `src`.
    pub fn move_file(&mut self, src: &str, dest: &str) -> (r: Result<(), FsError>)
        requires
            old(self).wf(),
        ensures
            final(self).wf(),
            (match move_spec(old(self)@, src@, dest@) {
                Ok(m2) => r == Ok::<(), FsError>(()) && final(self)@ == m2,
                Err(e) => r == Err::<(), FsError>(e) && final(self)@ == old(self)@,
            }),
    {
        let ghost s0 = self.entries@;
        let i = match self.find_entry(src) {
            None => {
                return Err(FsError::NotFound);
            },
            Some(i) => i,
        };
        proof {
            lemma_map_of_index(s0, i as int);
        }
        if !self.parent_ok_exec(dest) {
            return Err(FsError::NotFound);
        }
        let mode = self.entries[i].mode;
        let node = clone_node(&self.entries[i].node);
        proof {
            lemma_map_of_remove(s0, i as int);
        }
        self.entries.remove(i);
        self.upsert(dest, mode, node);
        Ok(())
    }

    /// Deletes the regular file or symlink at `file`.
    pub fn delete_file(&mut self, file: &str) -> (r: Result<(), FsError>)
        requires
            old(self).wf(),
        ensures
            final(self).wf(),
            (match delete_spec(old(self)@, file@) {
                Ok(m2) => r == Ok::<(), FsError>(()) && final(self)@ == m2,
                Err(e) => r == Err::<(), FsError>(e) && final(self)@ == old(self)@,
            }),
    {
        let i = match self.find_entry(file) {
            None => {
                return Err(FsError::NotFound);
            },
            Some(i) => i,
        };
        proof {
            lemma_map_of_index(self.entries@, i as int);
        }
        if node_is_dir(&self.entries[i].node) {
            return Err(FsError::NotAFile);
        }
        proof {
            lemma_map_of_remove(self.entries@, i as int);
        }
        self.entries.remove(i);
        Ok(())
    }

    /// Creates a symbolic link at `link` pointing to `target`, after
    /// checking that the target exists.
    pub fn create_symlink(&mut self, target: &str, link: &str) -> (r: Result<(), FsError>)
        requires
            old(self).wf(),
        ensures
            final(self).wf(),
            (match symlink_spec(old(self)@, target@, link@) {
                Ok(m2) => r == Ok::<(), FsError>(()) && final(self)@ == m2,
                Err(e) => r == Err::<(), FsError>(e) && final(self)@ == old(self)@,
            }),
    {
        match self.find_entry(target) {
            None => {
                return Err(FsError::NotFound);
            },
            Some(i) => {
                proof {
                    lemma_map_of_index(self.entries@, i as int);
                }
            },
        }
        match self.find_entry(link) {
            Some(j) => {
                proof {
                    lemma_map_of_index(self.entries@, j as int);
                }
                return Err(FsError::AlreadyExists);
            },
            None => {},
        }
        self.upsert(link, 0o777, FsNode::SymlinkTo { target: target.to_owned() });
        Ok(())
    }

    /// Sets the permission bits of the entry at `file` from an octal
    /// mode string.
    pub fn change_permissions(&mut self, file: &str, mode: &str) -> (r: Result<(), FsError>)
        requires
            old(self).wf(),
        ensures
            final(self).wf(),
            (match chmod_spec(old(self)@, file@, mode@) {
                Ok(m2) => r == Ok::<(), FsError>(()) && final(self)@ == m2,
                Err(e) => r == Err::<(), FsError>(e) && final(self)@ == old(self)@,
            }),
    {
        let ghost s0 = self.entries@;
        let i = match self.find_entry(file) {
            None => {
                return Err(FsError::NotFound);
            },
            Some(i) => i,
        };
        proof {
            lemma_map_of_index(s0, i as int);
        }
        let new_mode = match parse_mode(mode) {
            Ok(m) => m,
            Err(e) => {
                return Err(e);
            },
        };
        let node = clone_node(&self.entries[i].node);
        self.upsert(file, new_mode, node);
        proof {
            assert(self@ =~= map_of(s0).insert(file@, EntryView {
                mode: new_mode,
                node: map_of(s0)[file@].node,
            }));
        }
        Ok(())
    }

    /// The names of the immediate children of the directory at `dir`, in
    /// entry order. Fails with `NotFound` when `dir` is missing or is not
    /// a directory.
    pub fn list_files(&self, dir: &str) -> (r: Result<Vec<String>, FsError>)
        requires
            self.wf(),
        ensures
            (match r {
                Ok(names) => self@.contains_key(dir@) && self@[dir@].node is Directory
                    && names.deep_view() == children_names(self.entries@, dir@, 0),
                Err(e) => e == FsError::NotFound && !(self@.contains_key(dir@)
                    && self@[dir@].node is Directory),
            }),
    {
        let i = match self.find_entry(dir) {
            None => {
                return Err(FsError::NotFound);
            },
            Some(i) => i,
        };
        proof {
            lemma_map_of_index(self.entries@, i as int);
        }
        if !node_is_dir(&self.entries[i].node) {
            return Err(FsError::NotFound);
        }
        let ghost s = self.entries@;
        let mut names: Vec<String> = Vec::new();
        proof {
            assert(names.deep_view() + children_names(s, dir@, 0) =~= children_names(s, dir@, 0));
        }
        let mut k: usize = 0;
        while k < self.entries.len()
            invariant
                self.wf(),
                k <= self.entries.len(),
                s == self.entries@,
                names.deep_view() + children_names(s, dir@, k as int) == children_names(
                    s,
                    dir@,
                    0,
                ),
            decreases self.entries.len() - k,
        {
            let ghost dv0 = names.deep_view();
            let ghost ck = children_names(s, dir@, k as int);
            let ghost ck1 = children_names(s, dir@, k + 1);
            let e = &self.entries[k];
            if is_child_exec(e.path.as_str(), dir) {
                let n = e.path.as_str().unicode_len();
                let dl = dir.unicode_len();
                let name = e.path.as_str().substring_char(dl + 1, n);
                proof {
                    lemma_child_final_component(e.path@, dir@);
                }
                names.push(name.to_owned());
                proof {
                    let ghost fc = final_component(s[k as int].path@);
                    assert(names.deep_view() =~= dv0.push(fc));
                    assert(ck == seq![fc] + ck1);
                    assert(names.deep_view() + ck1 =~= dv0 + ck);
                }
            } else {
                proof {
                    assert(ck == ck1);
                }
            }
            k = k + 1;
        }
        proof {
            assert(children_names(s, dir@, s.len() as int) =~= Seq::<Seq<char>>::empty());
            assert(names.deep_view() + children_names(s, dir@, s.len() as int) =~= names.deep_view());
        }
        Ok(names)
    }
}

} // verus!
