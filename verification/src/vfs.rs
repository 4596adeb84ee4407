//! An in-memory model of the project tree.
//!
//! Every store operation of the library runs against this tree; its view is
//! a map from component paths to entries. The operations mirror the
//! behaviour of their on-disk counterparts, including the absorption bands:
//! `already exists` on directory creation and `not found` on removal are
//! success, anything else surfaces as an error.
//!
//! The tree is flat: it records the nodes the store touches, and a directory
//! is considered present when an entry lies at or below it.

use vstd::prelude::*;

use crate::document::Page;
use crate::paths::DiskPath;
use crate::util::str_eq;

verus! {

/// The contents of a file node.
#[derive(Debug, Clone, PartialEq, Eq)]
pub enum FileData {
    /// A script or other text file.
    Text(String),
    /// A decoded raster page, as a PNG file holds it.
    Page(Page),
    /// Raw bytes.
    Bytes(Vec<u8>),
}

/// The mathematical value of a [`FileData`].
pub enum FileDataV {
    Text(Seq<char>),
    Page(crate::document::PageV),
    Bytes(Seq<u8>),
}

impl View for FileData {
    type V = FileDataV;

    open spec fn view(&self) -> FileDataV {
        match self {
            FileData::Text(s) => FileDataV::Text(s@),
            FileData::Page(p) => FileDataV::Page(p@),
            FileData::Bytes(b) => FileDataV::Bytes(b@),
        }
    }
}

/// A node of the tree.
#[derive(Debug, Clone, PartialEq, Eq)]
pub enum Entry {
    /// A directory.
    Dir,
    /// A file with its contents.
    File(FileData),
}

/// The mathematical value of an [`Entry`].
pub enum EntryV {
    Dir,
    File(FileDataV),
}

impl View for Entry {
    type V = EntryV;

    open spec fn view(&self) -> EntryV {
        match self {
            Entry::Dir => EntryV::Dir,
            Entry::File(d) => EntryV::File(d@),
        }
    }
}

/// Copies file contents.
pub fn clone_data(d: &FileData) -> (r: FileData)
    ensures
        r@ == d@,
{
    match d {
        FileData::Text(s) => FileData::Text(s.clone()),
        FileData::Page(p) => FileData::Page(p.duplicate()),
        FileData::Bytes(b) => {
            let r = FileData::Bytes(vstd::slice::slice_to_vec(b.as_slice()));
            proof {
                assert(r@ == d@) by {
                    assert(b@ =~= b@);
                }
            }
            r
        },
    }
}

/// Copies an entry.
pub fn clone_entry(e: &Entry) -> (r: Entry)
    ensures
        r@ == e@,
{
    match e {
        Entry::Dir => Entry::Dir,
        Entry::File(d) => Entry::File(clone_data(d)),
    }
}

/// The errors of the model filesystem, after absorption.
#[derive(Debug, Clone, Copy, PartialEq, Eq)]
pub enum FsError {
    /// A node that the operation needs does not exist.
    NotFound,
    /// A node that the operation would create already exists.
    AlreadyExists,
    /// The node exists but has the wrong shape for the operation.
    Other,
}

/// Whether an error is the `not found` error.
pub fn io_not_found(err: &FsError) -> (r: bool)
    ensures
        r == (err is NotFound),
{
    match err {
        FsError::NotFound => true,
        _ => false,
    }
}

/// The keys at or below `p`.
pub open spec fn under(p: Seq<Seq<char>>) -> Set<Seq<Seq<char>>> {
    Set::new(|k: Seq<Seq<char>>| p.is_prefix_of(k))
}

/// The map described by an association list of nodes.
pub open spec fn nodes_map(nodes: Seq<(DiskPath, Entry)>) -> Map<Seq<Seq<char>>, EntryV>
    decreases nodes.len(),
{
    if nodes.len() == 0 {
        Map::empty()
    } else {
        nodes_map(nodes.drop_last()).insert(nodes.last().0@, nodes.last().1@)
    }
}

/// Key uniqueness of an association list.
pub open spec fn unique_keys(nodes: Seq<(DiskPath, Entry)>) -> bool {
    forall|i: int, j: int|
        0 <= i < j < nodes.len() ==> (#[trigger] nodes[i]).0@ != (#[trigger] nodes[j]).0@
}

/// A key is in the map exactly when some node carries it.
proof fn lemma_map_domain(nodes: Seq<(DiskPath, Entry)>, k: Seq<Seq<char>>)
    ensures
        nodes_map(nodes).contains_key(k) <==> exists|i: int|
            0 <= i < nodes.len() && (#[trigger] nodes[i]).0@ == k,
    decreases nodes.len(),
{
    if nodes.len() > 0 {
        lemma_map_domain(nodes.drop_last(), k);
        if nodes.last().0@ == k {
            assert(nodes[nodes.len() - 1].0@ == k);
        } else {
            if nodes_map(nodes).contains_key(k) {
                assert(exists|i: int|
                    0 <= i < nodes.len() - 1 && (#[trigger] nodes.drop_last()[i]).0@ == k);
                let i = choose|i: int|
                    0 <= i < nodes.len() - 1 && (#[trigger] nodes.drop_last()[i]).0@ == k;
                assert(nodes[i].0@ == k);
            }
            if exists|i: int| 0 <= i < nodes.len() && (#[trigger] nodes[i]).0@ == k {
                let i = choose|i: int| 0 <= i < nodes.len() && (#[trigger] nodes[i]).0@ == k;
                assert(i < nodes.len() - 1);
                assert(nodes.drop_last()[i].0@ == k);
            }
        }
    }
}

/// With unique keys, the map sends each node's key to that node's entry.
proof fn lemma_map_index(nodes: Seq<(DiskPath, Entry)>, i: int)
    requires
        unique_keys(nodes),
        0 <= i < nodes.len(),
    ensures
        nodes_map(nodes).contains_key(nodes[i].0@),
        nodes_map(nodes)[nodes[i].0@] == nodes[i].1@,
    decreases nodes.len(),
{
    lemma_map_domain(nodes, nodes[i].0@);
    if i == nodes.len() - 1 {
    } else {
        assert(unique_keys(nodes.drop_last())) by {
            assert(forall|a: int, b: int|
                0 <= a < b < nodes.len() - 1 ==> (#[trigger] nodes.drop_last()[a]) == nodes[a]
                    && (#[trigger] nodes.drop_last()[b]) == nodes[b]);
        }
        assert(nodes.drop_last()[i] == nodes[i]);
        lemma_map_index(nodes.drop_last(), i);
        assert(nodes[i].0@ != nodes.last().0@);
    }
}

/// Removing node `i` removes exactly its key from the map.
proof fn lemma_map_remove(nodes: Seq<(DiskPath, Entry)>, i: int)
    requires
        unique_keys(nodes),
        0 <= i < nodes.len(),
    ensures
        nodes_map(nodes.remove(i)) == nodes_map(nodes).remove(nodes[i].0@),
        unique_keys(nodes.remove(i)),
    decreases nodes.len(),
{
    assert(unique_keys(nodes.remove(i))) by {
        assert(forall|a: int|
            0 <= a < nodes.len() - 1 ==> (#[trigger] nodes.remove(i)[a]) == if a < i {
                nodes[a]
            } else {
                nodes[a + 1]
            });
    }
    if i == nodes.len() - 1 {
        assert(nodes.remove(i) =~= nodes.drop_last());
        lemma_map_domain(nodes.drop_last(), nodes[i].0@);
        assert(!nodes_map(nodes.drop_last()).contains_key(nodes[i].0@)) by {
            if exists|a: int|
                0 <= a < nodes.len() - 1 && (#[trigger] nodes.drop_last()[a]).0@ == nodes[i].0@ {
                let a = choose|a: int|
                    0 <= a < nodes.len() - 1 && (#[trigger] nodes.drop_last()[a]).0@
                        == nodes[i].0@;
                assert(nodes[a].0@ == nodes[i].0@);
                assert(false);
            }
        }
        assert(nodes_map(nodes.remove(i)) =~= nodes_map(nodes).remove(nodes[i].0@));
    } else {
        assert(unique_keys(nodes.drop_last())) by {
            assert(forall|a: int, b: int|
                0 <= a < b < nodes.len() - 1 ==> (#[trigger] nodes.drop_last()[a]) == nodes[a]
                    && (#[trigger] nodes.drop_last()[b]) == nodes[b]);
        }
        assert(nodes.drop_last()[i] == nodes[i]);
        lemma_map_remove(nodes.drop_last(), i);
        assert(nodes.remove(i).drop_last() =~= nodes.drop_last().remove(i));
        assert(nodes.remove(i).last() == nodes.last());
        assert(nodes_map(nodes.remove(i)) == nodes_map(nodes.drop_last().remove(i)).insert(
            nodes.last().0@,
            nodes.last().1@,
        ));
        assert(nodes[i].0@ != nodes.last().0@);
        assert(nodes_map(nodes.remove(i)) =~= nodes_map(nodes).remove(nodes[i].0@));
    }
}

/// The project tree model: a finite map from component paths to entries.
#[derive(Debug)]
pub struct Vfs {
    nodes: Vec<(DiskPath, Entry)>,
}

impl View for Vfs {
    type V = Map<Seq<Seq<char>>, EntryV>;

    closed spec fn view(&self) -> Map<Seq<Seq<char>>, EntryV> {
        nodes_map(self.nodes@)
    }
}

impl Vfs {
    /// Internal consistency: every path occurs at most once.
    pub closed spec fn wf(self) -> bool {
        unique_keys(self.nodes@)
    }

    /// An empty tree.
    pub fn new() -> (r: Vfs)
        ensures
            r.wf(),
            r@ == Map::<Seq<Seq<char>>, EntryV>::empty(),
    {
        let r = Vfs { nodes: Vec::new() };
        proof {
            assert(r.nodes@.len() == 0);
        }
        r
    }

    /// The index of the node at `p`, if any.
    fn find(&self, p: &DiskPath) -> (r: Option<usize>)
        requires
            self.wf(),
        ensures
            match r {
                Some(i) => i < self.nodes@.len() && self.nodes@[i as int].0@ == p@
                    && self@.contains_key(p@) && self@[p@] == self.nodes@[i as int].1@,
                None => !self@.contains_key(p@),
            },
    {
        let n = self.nodes.len();
        let mut i: usize = 0;
        while i < n
            invariant
                self.wf(),
                n == self.nodes@.len(),
                0 <= i <= n,
                forall|j: int| 0 <= j < i ==> (#[trigger] self.nodes@[j]).0@ != p@,
            decreases n - i,
        {
            if self.nodes[i].0.same_as(p) {
                proof {
                    lemma_map_index(self.nodes@, i as int);
                }
                return Some(i);
            }
            i += 1;
        }
        proof {
            lemma_map_domain(self.nodes@, p@);
        }
        None
    }

    /// Whether a node exists exactly at `p`.
    pub fn try_exists(&self, p: &DiskPath) -> (r: bool)
        requires
            self.wf(),
        ensures
            r == self@.contains_key(p@),
    {
        self.find(p).is_some()
    }

    /// Whether an entry lies at or below `p`, so that the directory `p`
    /// exists on disk.
    pub fn exists_under(&self, p: &DiskPath) -> (r: bool)
        requires
            self.wf(),
        ensures
            r == exists|k: Seq<Seq<char>>| self@.dom().contains(k) && p@.is_prefix_of(k),
    {
        let n = self.nodes.len();
        let mut i: usize = 0;
        while i < n
            invariant
                self.wf(),
                n == self.nodes@.len(),
                0 <= i <= n,
                forall|j: int| 0 <= j < i ==> !p@.is_prefix_of((#[trigger] self.nodes@[j]).0@),
            decreases n - i,
        {
            if self.nodes[i].0.starts_with(p) {
                proof {
                    lemma_map_index(self.nodes@, i as int);
                }
                return true;
            }
            i += 1;
        }
        proof {
            if exists|k: Seq<Seq<char>>| self@.dom().contains(k) && p@.is_prefix_of(k) {
                let k = choose|k: Seq<Seq<char>>| self@.dom().contains(k) && p@.is_prefix_of(k);
                lemma_map_domain(self.nodes@, k);
                let j = choose|j: int|
                    0 <= j < self.nodes@.len() && (#[trigger] self.nodes@[j]).0@ == k;
                assert(!p@.is_prefix_of(self.nodes@[j].0@));
                assert(false);
            }
        }
        false
    }

    /// Whether the parent of `p` exists: a path of at most one component
    /// hangs off the project root itself, a longer one needs an entry at or
    /// below its parent.
    pub open spec fn spec_parent_exists(m: Map<Seq<Seq<char>>, EntryV>, p: Seq<Seq<char>>) -> bool {
        p.len() <= 1 || exists|k: Seq<Seq<char>>|
            m.dom().contains(k) && #[trigger] p.drop_last().is_prefix_of(k)
    }

    /// Whether the parent directory of `p` exists.
    pub fn parent_exists(&self, p: &DiskPath) -> (r: bool)
        requires
            self.wf(),
        ensures
            r == Self::spec_parent_exists(self@, p@),
    {
        if p.len() <= 1 {
            return true;
        }
        let parent = match p.parent() {
            Some(q) => q,
            None => unreached(),
        };
        self.exists_under(&parent)
    }

    /// Reads the text file at `p`.
    ///
    /// Fails with `NotFound` when no node is at `p`, with `Other` when the
    /// node is no text file.
    pub fn read_text(&self, p: &DiskPath) -> (r: Result<String, FsError>)
        requires
            self.wf(),
        ensures
            match r {
                Ok(s) => self@.contains_key(p@) && self@[p@] == EntryV::File(FileDataV::Text(s@)),
                Err(e) => {
                    &&& (e is NotFound <==> !self@.contains_key(p@))
                    &&& (self@.contains_key(p@) ==> !(self@[p@] matches EntryV::File(
                        FileDataV::Text(_),
                    )))
                },
            },
    {
        match self.find(p) {
            None => Err(FsError::NotFound),
            Some(i) => match &self.nodes[i].1 {
                Entry::File(FileData::Text(s)) => Ok(s.clone()),
                _ => Err(FsError::Other),
            },
        }
    }

    /// Reads the contents of the file at `p`.
    pub fn read_data(&self, p: &DiskPath) -> (r: Result<FileData, FsError>)
        requires
            self.wf(),
        ensures
            match r {
                Ok(d) => self@.contains_key(p@) && self@[p@] == EntryV::File(d@),
                Err(e) => {
                    &&& (e is NotFound <==> !self@.contains_key(p@))
                    &&& (self@.contains_key(p@) ==> self@[p@] is Dir)
                },
            },
    {
        match self.find(p) {
            None => Err(FsError::NotFound),
            Some(i) => match &self.nodes[i].1 {
                Entry::File(d) => Ok(clone_data(d)),
                Entry::Dir => Err(FsError::Other),
            },
        }
    }

    /// Inserts or replaces the node at `p`.
    fn set_node(&mut self, p: DiskPath, e: Entry)
        requires
            old(self).wf(),
        ensures
            final(self).wf(),
            final(self)@ == old(self)@.insert(p@, e@),
    {
        let ghost pv = p@;
        let ghost ev = e@;
        match self.find(&p) {
            Some(i) => {
                proof {
                    lemma_map_remove(self.nodes@, i as int);
                }
                let ghost mid = self.nodes@.remove(i as int);
                self.nodes.remove(i);
                proof {
                    assert(self.nodes@ == mid);
                    lemma_map_domain(self.nodes@, pv);
                    if exists|j: int|
                        0 <= j < self.nodes@.len() && (#[trigger] self.nodes@[j]).0@ == pv {
                        let j = choose|j: int|
                            0 <= j < self.nodes@.len() && (#[trigger] self.nodes@[j]).0@ == pv;
                        assert(false);
                    }
                }
                let ghost before = self.nodes@;
                self.nodes.push((p, e));
                proof {
                    assert(self.nodes@.drop_last() =~= before);
                    assert(unique_keys(self.nodes@)) by {
                        lemma_map_domain(before, pv);
                    }
                    assert(final(self)@ =~= old(self)@.insert(pv, ev));
                }
            },
            None => {
                let ghost before = self.nodes@;
                proof {
                    lemma_map_domain(before, pv);
                }
                self.nodes.push((p, e));
                proof {
                    assert(self.nodes@.drop_last() =~= before);
                    assert(unique_keys(self.nodes@));
                    assert(final(self)@ =~= old(self)@.insert(pv, ev));
                }
            },
        }
    }

    /// Removes the node at index `i`.
    fn remove_node(&mut self, i: usize)
        requires
            old(self).wf(),
            i < old(self).nodes@.len(),
        ensures
            final(self).wf(),
            final(self)@ == old(self)@.remove(old(self).nodes@[i as int].0@),
            final(self).nodes@.len() == old(self).nodes@.len() - 1,
    {
        proof {
            lemma_map_remove(self.nodes@, i as int);
        }
        self.nodes.remove(i);
    }

    /// Writes `data` to the file at `p`, creating or truncating it.
    ///
    /// Fails with `Other` when a directory is at `p`, with `NotFound` when
    /// the parent directory is missing.
    pub fn write_file(&mut self, p: &DiskPath, data: FileData) -> (r: Result<(), FsError>)
        requires
            old(self).wf(),
        ensures
            final(self).wf(),
            match r {
                Ok(()) => final(self)@ == old(self)@.insert(p@, EntryV::File(data@))
                    && !(old(self)@.contains_key(p@) && old(self)@[p@] is Dir)
                    && Self::spec_parent_exists(old(self)@, p@),
                Err(e) => {
                    &&& final(self)@ == old(self)@
                    &&& (e is Other || e is NotFound)
                    &&& (old(self)@.contains_key(p@) && old(self)@[p@] is Dir) || !Self::spec_parent_exists(old(self)@, p@)
                },
            },
    {
        match self.find(p) {
            Some(i) => {
                if matches!(&self.nodes[i].1, Entry::Dir) {
                    return Err(FsError::Other);
                }
                assert(Self::spec_parent_exists(self@, p@)) by {
                    if p@.len() > 1 {
                        assert(self@.dom().contains(p@) && p@.drop_last().is_prefix_of(p@));
                    }
                }
                self.set_node(p.duplicate(), Entry::File(data));
                Ok(())
            },
            None => {
                if !self.parent_exists(p) {
                    return Err(FsError::NotFound);
                }
                self.set_node(p.duplicate(), Entry::File(data));
                Ok(())
            },
        }
    }

    /// Creates the file at `p` with `data`; the file must not exist yet.
    ///
    /// Fails with `AlreadyExists` when a node is at `p`, with `NotFound` when
    /// the parent directory is missing.
    pub fn create_file_new(&mut self, p: &DiskPath, data: FileData) -> (r: Result<(), FsError>)
        requires
            old(self).wf(),
        ensures
            final(self).wf(),
            match r {
                Ok(()) => {
                    &&& !old(self)@.contains_key(p@)
                    &&& Self::spec_parent_exists(old(self)@, p@)
                    &&& final(self)@ == old(self)@.insert(p@, EntryV::File(data@))
                },
                Err(e) => {
                    &&& final(self)@ == old(self)@
                    &&& (e is AlreadyExists || e is NotFound)
                    &&& (e is AlreadyExists <==> old(self)@.contains_key(p@))
                    &&& (e is NotFound ==> !Self::spec_parent_exists(old(self)@, p@))
                },
            },
    {
        if self.try_exists(p) {
            return Err(FsError::AlreadyExists);
        }
        if !self.parent_exists(p) {
            return Err(FsError::NotFound);
        }
        self.set_node(p.duplicate(), Entry::File(data));
        Ok(())
    }

    /// Copies the file at `src` to `dst`, creating or truncating `dst`.
    ///
    /// Succeeds exactly when a file is at `src`, no directory is at `dst`,
    /// and the parent of `dst` exists.
    pub fn copy_file(&mut self, src: &DiskPath, dst: &DiskPath) -> (r: Result<(), FsError>)
        requires
            old(self).wf(),
        ensures
            final(self).wf(),
            r is Ok <==> (old(self)@.contains_key(src@) && old(self)@[src@] is File && !(old(
                self,
            )@.contains_key(dst@) && old(self)@[dst@] is Dir) && Self::spec_parent_exists(
                old(self)@,
                dst@,
            )),
            match r {
                Ok(()) => final(self)@ == old(self)@.insert(dst@, old(self)@[src@]),
                Err(e) => final(self)@ == old(self)@,
            },
    {
        let data = match self.read_data(src) {
            Ok(d) => d,
            Err(e) => {
                return Err(e);
            },
        };
        let ghost dv = data@;
        match self.write_file(dst, data) {
            Ok(()) => Ok(()),
            Err(e) => Err(e),
        }
    }

    /// Creates the directory at `p`; an existing directory is kept as it is.
    ///
    /// With `all` the real counterpart also creates missing ancestors, so no
    /// parent check applies; without it a missing parent is `NotFound`. A
    /// file in the way is `Other`.
    pub fn create_dir(&mut self, p: &DiskPath, all: bool) -> (r: Result<(), FsError>)
        requires
            old(self).wf(),
        ensures
            final(self).wf(),
            match r {
                Ok(()) => final(self)@ == if old(self)@.contains_key(p@) {
                    old(self)@
                } else {
                    old(self)@.insert(p@, EntryV::Dir)
                },
                Err(e) => final(self)@ == old(self)@ && (e is Other || e is NotFound),
            },
            r is Ok <==> ((old(self)@.contains_key(p@) ==> old(self)@[p@] is Dir) && (!all
                && !old(self)@.contains_key(p@) ==> Self::spec_parent_exists(old(self)@, p@))),
    {
        match self.find(p) {
            Some(i) => {
                if matches!(&self.nodes[i].1, Entry::Dir) {
                    Ok(())
                } else {
                    Err(FsError::Other)
                }
            },
            None => {
                if !all && !self.parent_exists(p) {
                    return Err(FsError::NotFound);
                }
                self.set_node(p.duplicate(), Entry::Dir);
                Ok(())
            },
        }
    }

    /// Removes the file at `p`; a missing file is absorbed as success.
    ///
    /// Fails with `Other` when a directory is at `p`.
    pub fn remove_file(&mut self, p: &DiskPath) -> (r: Result<(), FsError>)
        requires
            old(self).wf(),
        ensures
            final(self).wf(),
            match r {
                Ok(()) => final(self)@ == old(self)@.remove(p@) && !(old(self)@.contains_key(p@)
                    && old(self)@[p@] is Dir),
                Err(e) => final(self)@ == old(self)@ && old(self)@.contains_key(p@) && old(
                    self,
                )@[p@] is Dir && e is Other,
            },
    {
        match self.find(p) {
            None => {
                proof {
                    assert(old(self)@.remove(p@) =~= old(self)@);
                }
                Ok(())
            },
            Some(i) => {
                if matches!(&self.nodes[i].1, Entry::Dir) {
                    return Err(FsError::Other);
                }
                self.remove_node(i);
                Ok(())
            },
        }
    }

    /// The index of some node at or strictly below `p`, if any.
    fn find_under(&self, p: &DiskPath) -> (r: Option<usize>)
        requires
            self.wf(),
        ensures
            match r {
                Some(i) => i < self.nodes@.len() && p@.is_prefix_of(self.nodes@[i as int].0@),
                None => forall|k: Seq<Seq<char>>|
                    self@.dom().contains(k) ==> !p@.is_prefix_of(k),
            },
    {
        let n = self.nodes.len();
        let mut i: usize = 0;
        while i < n
            invariant
                self.wf(),
                n == self.nodes@.len(),
                0 <= i <= n,
                forall|j: int| 0 <= j < i ==> !p@.is_prefix_of((#[trigger] self.nodes@[j]).0@),
            decreases n - i,
        {
            if self.nodes[i].0.starts_with(p) {
                return Some(i);
            }
            i += 1;
        }
        proof {
            assert forall|k: Seq<Seq<char>>|
                self@.dom().contains(k) implies !p@.is_prefix_of(k) by {
                lemma_map_domain(self.nodes@, k);
                let j = choose|j: int|
                    0 <= j < self.nodes@.len() && (#[trigger] self.nodes@[j]).0@ == k;
                assert(!p@.is_prefix_of(self.nodes@[j].0@));
            }
        }
        None
    }

    /// Removes the directory at `p` and, recursively, everything below it.
    /// A missing directory whose parent exists is absorbed as success.
    ///
    /// Without `all`, a non-empty directory is `Other`.
    pub fn remove_dir(&mut self, p: &DiskPath, all: bool) -> (r: Result<(), FsError>)
        requires
            old(self).wf(),
        ensures
            final(self).wf(),
            match r {
                Ok(()) => final(self)@ == old(self)@.remove_keys(under(p@)),
                Err(e) => {
                    &&& final(self)@ == old(self)@
                    &&& (e is NotFound ==> !Self::spec_parent_exists(old(self)@, p@) && (forall|
                        k: Seq<Seq<char>>,
                    |
                        old(self)@.dom().contains(k) ==> !p@.is_prefix_of(k)))
                },
            },
            all ==> (r is Ok <==> (Self::spec_parent_exists(old(self)@, p@) || exists|
                k: Seq<Seq<char>>,
            |
                old(self)@.dom().contains(k) && p@.is_prefix_of(k))),
            all ==> (r matches Err(e) ==> e is NotFound),
    {
        let ghost orig = self@;
        if !self.exists_under(p) {
            if self.parent_exists(p) {
                proof {
                    assert(orig.remove_keys(under(p@)) =~= orig);
                }
                return Ok(());
            }
            return Err(FsError::NotFound);
        }
        if !all {
            // a lone node at `p` may go; anything below it makes the
            // directory non-empty
            match self.find(p) {
                Some(i) => {
                    let deeper = self.any_strictly_under(p);
                    if deeper {
                        return Err(FsError::Other);
                    }
                    self.remove_node(i);
                    proof {
                        assert forall|k: Seq<Seq<char>>| true implies (orig.remove(
                            p@,
                        ).dom().contains(k) <==> orig.remove_keys(under(p@)).dom().contains(k)) by {
                            if orig.dom().contains(k) && p@.is_prefix_of(k) && k != p@ {
                                assert(false);
                            }
                        }
                        assert(orig.remove(p@) =~= orig.remove_keys(under(p@)));
                    }
                    return Ok(());
                },
                None => {
                    return Err(FsError::Other);
                },
            }
        }
        let ghost mut removed: Set<Seq<Seq<char>>> = Set::empty();
        proof {
            assert(self@ =~= orig.remove_keys(removed));
        }
        loop
            invariant
                self.wf(),
                orig == old(self)@,
                self@ == orig.remove_keys(removed),
                removed.subset_of(under(p@)),
                exists|k: Seq<Seq<char>>| orig.dom().contains(k) && p@.is_prefix_of(k),
            decreases self.nodes@.len(),
        {
            match self.find_under(p) {
                Some(i) => {
                    let ghost k = self.nodes@[i as int].0@;
                    self.remove_node(i);
                    proof {
                        removed = removed.insert(k);
                        assert(self@ =~= orig.remove_keys(removed));
                    }
                },
                None => {
                    proof {
                        assert forall|k: Seq<Seq<char>>| true implies (orig.remove_keys(
                            removed,
                        ).dom().contains(k) <==> orig.remove_keys(under(p@)).dom().contains(k)) by {
                            if orig.dom().contains(k) && p@.is_prefix_of(k) && !removed.contains(
                                k,
                            ) {
                                assert(self@.dom().contains(k));
                                assert(false);
                            }
                        }
                        assert(self@ =~= orig.remove_keys(under(p@)));
                    }
                    return Ok(());
                },
            }
        }
    }

    /// Whether any node lies strictly below `p`.
    fn any_strictly_under(&self, p: &DiskPath) -> (r: bool)
        requires
            self.wf(),
        ensures
            r == exists|k: Seq<Seq<char>>|
                self@.dom().contains(k) && p@.is_prefix_of(k) && k != p@,
    {
        let n = self.nodes.len();
        let mut i: usize = 0;
        while i < n
            invariant
                self.wf(),
                n == self.nodes@.len(),
                0 <= i <= n,
                forall|j: int|
                    0 <= j < i ==> !(p@.is_prefix_of((#[trigger] self.nodes@[j]).0@)
                        && self.nodes@[j].0@ != p@),
            decreases n - i,
        {
            if self.nodes[i].0.starts_with(p) && !self.nodes[i].0.same_as(p) {
                proof {
                    lemma_map_index(self.nodes@, i as int);
                }
                return true;
            }
            i += 1;
        }
        proof {
            if exists|k: Seq<Seq<char>>| self@.dom().contains(k) && p@.is_prefix_of(k) && k != p@ {
                let k = choose|k: Seq<Seq<char>>|
                    self@.dom().contains(k) && p@.is_prefix_of(k) && k != p@;
                lemma_map_domain(self.nodes@, k);
                let j = choose|j: int|
                    0 <= j < self.nodes@.len() && (#[trigger] self.nodes@[j]).0@ == k;
                assert(false);
            }
        }
        false
    }

    /// Clears and re-creates the directory at `p`.
    pub fn create_empty_dir(&mut self, p: &DiskPath, all: bool) -> (r: Result<(), FsError>)
        requires
            old(self).wf(),
        ensures
            final(self).wf(),
            r is Ok ==> final(self)@ == old(self)@.remove_keys(under(p@)).insert(p@, EntryV::Dir),
            all ==> r is Ok,
    {
        match self.remove_dir(p, true) {
            Ok(()) => {},
            Err(e) => {
                if !io_not_found(&e) {
                    return Err(e);
                }
                // nothing to clear
                if !all {
                    return Err(e);
                }
                proof {
                    assert(old(self)@.remove_keys(under(p@)) =~= self@);
                }
            },
        }
        self.create_dir(p, all)
    }

    /// The paths of all file nodes whose last component is `name`.
    ///
    /// Every returned path is a file node ending in `name`, and every such
    /// node is returned.
    pub fn files_named(&self, name: &str) -> (r: Vec<DiskPath>)
        requires
            self.wf(),
        ensures
            forall|i: int|
                0 <= i < r.len() ==> {
                    &&& self@.dom().contains((#[trigger] r@[i])@)
                    &&& self@[r@[i]@] is File
                    &&& r@[i]@.len() > 0
                    &&& r@[i]@.last() == name@
                },
            forall|k: Seq<Seq<char>>|
                (self@.dom().contains(k) && self@[k] is File && k.len() > 0 && k.last() == name@)
                    ==> exists|i: int| 0 <= i < r.len() && (#[trigger] r@[i])@ == k,
    {
        let n = self.nodes.len();
        let mut out: Vec<DiskPath> = Vec::new();
        let mut i: usize = 0;
        while i < n
            invariant
                self.wf(),
                n == self.nodes@.len(),
                0 <= i <= n,
                forall|a: int|
                    0 <= a < out.len() ==> {
                        &&& self@.dom().contains((#[trigger] out@[a])@)
                        &&& self@[out@[a]@] is File
                        &&& out@[a]@.len() > 0
                        &&& out@[a]@.last() == name@
                    },
                forall|j: int|
                    0 <= j < i && (#[trigger] self.nodes@[j]).1@ is File && self.nodes@[j].0@.len()
                        > 0 && self.nodes@[j].0@.last() == name@ ==> exists|a: int|
                        0 <= a < out.len() && (#[trigger] out@[a])@ == self.nodes@[j].0@,
            decreases n - i,
        {
            let node_path = &self.nodes[i].0;
            let is_file = matches!(&self.nodes[i].1, Entry::File(_));
            let plen = node_path.len();
            if is_file && plen > 0 {
                let last = node_path.part(plen - 1);
                if str_eq(last.as_str(), name) {
                    proof {
                        lemma_map_index(self.nodes@, i as int);
                    }
                    let ghost before = out@;
                    out.push(node_path.duplicate());
                    proof {
                        assert(out@[before.len() as int]@ == self.nodes@[i as int].0@);
                        assert(forall|a: int|
                            0 <= a < before.len() ==> out@[a] == before[a]);
                    }
                }
            }
            i += 1;
        }
        proof {
            assert forall|k: Seq<Seq<char>>|
                (self@.dom().contains(k) && self@[k] is File && k.len() > 0 && k.last()
                    == name@) implies exists|a: int|
                0 <= a < out.len() && (#[trigger] out@[a])@ == k by {
                lemma_map_domain(self.nodes@, k);
                let j = choose|j: int|
                    0 <= j < self.nodes@.len() && (#[trigger] self.nodes@[j]).0@ == k;
                lemma_map_index(self.nodes@, j);
            }
        }
        out
    }

    /// Every node of the tree, for replaying the model onto a real disk:
    /// each key with its entry, every key exactly once.
    pub fn nodes_for_replay(&self) -> (r: Vec<(DiskPath, Entry)>)
        requires
            self.wf(),
        ensures
            forall|i: int|
                0 <= i < r@.len() ==> self@.dom().contains((#[trigger] r@[i]).0@) && self@[r@[i].0@]
                    == r@[i].1@,
            forall|k: Seq<Seq<char>>|
                self@.dom().contains(k) ==> exists|i: int|
                    0 <= i < r@.len() && (#[trigger] r@[i]).0@ == k,
    {
        let n = self.nodes.len();
        let mut out: Vec<(DiskPath, Entry)> = Vec::new();
        let mut i: usize = 0;
        while i < n
            invariant
                self.wf(),
                n == self.nodes@.len(),
                0 <= i <= n,
                out@.len() == i,
                forall|a: int|
                    0 <= a < i ==> (#[trigger] out@[a]).0@ == self.nodes@[a].0@ && out@[a].1@
                        == self.nodes@[a].1@,
            decreases n - i,
        {
            let path = self.nodes[i].0.duplicate();
            let entry = clone_entry(&self.nodes[i].1);
            proof {
                lemma_map_index(self.nodes@, i as int);
            }
            out.push((path, entry));
            i += 1;
        }
        proof {
            assert forall|a: int|
                0 <= a < out@.len() implies self@.dom().contains((#[trigger] out@[a]).0@)
                && self@[out@[a].0@] == out@[a].1@ by {
                lemma_map_index(self.nodes@, a);
            }
            assert forall|k: Seq<Seq<char>>| self@.dom().contains(k) implies exists|a: int|
                0 <= a < out@.len() && (#[trigger] out@[a]).0@ == k by {
                lemma_map_domain(self.nodes@, k);
                let j = choose|j: int|
                    0 <= j < self.nodes@.len() && (#[trigger] self.nodes@[j]).0@ == k;
                assert(out@[j].0@ == k);
            }
        }
        out
    }

    /// The last components of all file nodes directly inside `dir`.
    pub fn file_names_in(&self, dir: &DiskPath) -> (r: Vec<String>)
        requires
            self.wf(),
        ensures
            forall|i: int|
                0 <= i < r.len() ==> {
                    &&& self@.dom().contains(dir@.push((#[trigger] r@[i])@))
                    &&& self@[dir@.push(r@[i]@)] is File
                },
            forall|name: Seq<char>|
                (self@.dom().contains(dir@.push(name)) && self@[dir@.push(name)] is File) ==> exists|
                    i: int,
                | 0 <= i < r.len() && (#[trigger] r@[i])@ == name,
    {
        let n = self.nodes.len();
        let mut out: Vec<String> = Vec::new();
        let mut i: usize = 0;
        while i < n
            invariant
                self.wf(),
                n == self.nodes@.len(),
                0 <= i <= n,
                forall|a: int|
                    0 <= a < out.len() ==> {
                        &&& self@.dom().contains(dir@.push((#[trigger] out@[a])@))
                        &&& self@[dir@.push(out@[a]@)] is File
                    },
                forall|j: int|
                    0 <= j < i && (#[trigger] self.nodes@[j]).1@ is File && self.nodes@[j].0@.len()
                        == dir@.len() + 1 && self.nodes@[j].0@.drop_last() == dir@ ==> exists|
                        a: int,
                    |
                        0 <= a < out.len() && (#[trigger] out@[a])@ == self.nodes@[j].0@.last(),
            decreases n - i,
        {
            let node_path = &self.nodes[i].0;
            let is_file = matches!(&self.nodes[i].1, Entry::File(_));
            let plen = node_path.len();
            if is_file && plen > 0 && plen - 1 == dir.len() {
                match node_path.parent() {
                    Some(par) => {
                        if par.same_as(dir) {
                            proof {
                                lemma_map_index(self.nodes@, i as int);
                                assert(self.nodes@[i as int].0@ =~= dir@.push(
                                    self.nodes@[i as int].0@.last(),
                                ));
                            }
                            let ghost before = out@;
                            out.push(node_path.part(plen - 1).clone());
                            proof {
                                assert(out@[before.len() as int]@ == self.nodes@[i as int].0@.last());
                                assert(forall|a: int|
                                    0 <= a < before.len() ==> out@[a] == before[a]);
                            }
                        }
                    },
                    None => unreached(),
                }
            }
            i += 1;
        }
        proof {
            assert forall|name: Seq<char>|
                (self@.dom().contains(dir@.push(name)) && self@[dir@.push(
                    name,
                )] is File) implies exists|a: int|
                0 <= a < out.len() && (#[trigger] out@[a])@ == name by {
                let k = dir@.push(name);
                lemma_map_domain(self.nodes@, k);
                let j = choose|j: int|
                    0 <= j < self.nodes@.len() && (#[trigger] self.nodes@[j]).0@ == k;
                lemma_map_index(self.nodes@, j);
                assert(self.nodes@[j].0@.drop_last() =~= dir@);
                assert(self.nodes@[j].0@.last() == name);
            }
        }
        out
    }
}

} // verus!
