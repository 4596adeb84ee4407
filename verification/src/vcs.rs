//! Version control support: keeps ephemeral storage directories of a test
//! out of the user's version control, through a generated per-test ignore
//! file for Git-compatible and Mercurial-compatible hosts.

use vstd::prelude::*;

use crate::id::Id;
use crate::paths::DiskPath;
use crate::paths::Paths;
use crate::vfs::EntryV;
use crate::vfs::FileData;
use crate::vfs::FileDataV;
use crate::vfs::FsError;
use crate::vfs::Vfs;

verus! {

/// The kind of version control system in use.
#[derive(Debug, Clone, Copy, PartialEq, Eq, Hash, Structural)]
pub enum Kind {
    /// Ignores through `.gitignore` files, as Git and Jujutsu read them.
    Git,
    /// Ignores through `.hgignore` files, as Mercurial reads them.
    Mercurial,
}

/// A version control system rooted somewhere at or above the project.
#[derive(Debug, Clone, PartialEq, Eq, Hash)]
pub struct Vcs {
    root: DiskPath,
    kind: Kind,
}

/// The name of the ignore file the given host reads.
pub open spec fn spec_ignore_file_name(kind: Kind) -> Seq<char> {
    match kind {
        Kind::Git => ".gitignore"@,
        Kind::Mercurial => ".hgignore"@,
    }
}

/// The full contents of the generated ignore file: a fixed header, for
/// Mercurial a glob syntax marker, the two artefact directories, and for a
/// non-persistent test the reference directory.
pub open spec fn spec_ignore_content(kind: Kind, persistent: bool) -> Seq<char> {
    let header = "# generated by tytanic, do not edit\n\n"@;
    let syntax = if kind is Mercurial {
        header + "syntax: glob\n"@
    } else {
        header
    };
    let always = syntax + "diff/**\n"@ + "out/**\n"@;
    if persistent {
        always
    } else {
        always + "ref/**\n"@
    }
}

/// The path of the ignore file of the test `id`.
pub open spec fn spec_ignore_file(paths: &Paths, id: &Id, kind: Kind) -> Seq<Seq<char>> {
    paths.spec_unit_test_dir(id).push(spec_ignore_file_name(kind))
}

impl Vcs {
    /// The kind of this repository.
    pub closed spec fn kind_view(&self) -> Kind {
        self.kind
    }

    /// The root of this repository.
    pub closed spec fn root_view(&self) -> Seq<Seq<char>> {
        self.root@
    }

    /// Creates a version control handle with the given root and kind.
    pub fn new(root: DiskPath, kind: Kind) -> (r: Vcs)
        ensures
            r.kind_view() == kind,
            r.root_view() == root@,
    {
        Vcs { root, kind }
    }

    /// Decides the version control system rooted at a directory, from probes
    /// for its hidden repository directory: `.git` and `.jj` hosts read
    /// `.gitignore`, `.hg` hosts read `.hgignore`.
    pub fn try_new(root: &DiskPath, has_git: bool, has_jj: bool, has_hg: bool) -> (r: Option<Vcs>)
        ensures
            match r {
                Some(v) => v.root_view() == root@ && ((has_git || has_jj) ==> v.kind_view()
                    == Kind::Git) && (!(has_git || has_jj) ==> has_hg && v.kind_view()
                    == Kind::Mercurial),
                None => !has_git && !has_jj && !has_hg,
            },
    {
        if has_git || has_jj {
            Some(Vcs { root: root.duplicate(), kind: Kind::Git })
        } else if has_hg {
            Some(Vcs { root: root.duplicate(), kind: Kind::Mercurial })
        } else {
            None
        }
    }

    /// The root of this repository.
    pub fn root(&self) -> (r: &DiskPath)
        ensures
            r@ == self.root_view(),
    {
        &self.root
    }

    /// The kind of this repository.
    pub fn kind(&self) -> (r: Kind)
        ensures
            r == self.kind_view(),
    {
        self.kind
    }

    /// Writes the generated ignore file for the test `id`, replacing
    /// whatever was there: artefact directories always, the reference
    /// directory unless the test is persistent.
    pub fn ignore(&self, vfs: &mut Vfs, paths: &Paths, id: &Id, persistent: bool) -> (r: Result<
        (),
        FsError,
    >)
        requires
            old(vfs).wf(),
            id.wf(),
        ensures
            final(vfs).wf(),
            match r {
                Ok(()) => final(vfs)@ == old(vfs)@.insert(
                    spec_ignore_file(paths, id, self.kind_view()),
                    EntryV::File(FileDataV::Text(spec_ignore_content(self.kind_view(), persistent))),
                ),
                Err(_) => final(vfs)@ == old(vfs)@,
            },
            r is Ok <==> (!(old(vfs)@.dom().contains(spec_ignore_file(paths, id, self.kind_view()))
                && old(vfs)@[spec_ignore_file(paths, id, self.kind_view())] is Dir)
                && Vfs::spec_parent_exists(old(vfs)@, spec_ignore_file(paths, id, self.kind_view()))),
            r matches Err(e) ==> (e is Other || e is NotFound),
    {
        let file = match self.kind {
            Kind::Git => paths.unit_test_dir(id).join(".gitignore"),
            Kind::Mercurial => paths.unit_test_dir(id).join(".hgignore"),
        };
        let content = ignore_content(self.kind, persistent);
        vfs.write_file(&file, FileData::Text(content))
    }

    /// Removes the generated ignore file of the test `id`; a missing file is
    /// not an error.
    pub fn unignore(&self, vfs: &mut Vfs, paths: &Paths, id: &Id) -> (r: Result<(), FsError>)
        requires
            old(vfs).wf(),
            id.wf(),
        ensures
            final(vfs).wf(),
            match r {
                Ok(()) => final(vfs)@ == old(vfs)@.remove(
                    spec_ignore_file(paths, id, self.kind_view()),
                ),
                Err(_) => final(vfs)@ == old(vfs)@,
            },
            r is Ok <==> !(old(vfs)@.dom().contains(spec_ignore_file(paths, id, self.kind_view()))
                && old(vfs)@[spec_ignore_file(paths, id, self.kind_view())] is Dir),
    {
        let file = match self.kind {
            Kind::Git => paths.unit_test_dir(id).join(".gitignore"),
            Kind::Mercurial => paths.unit_test_dir(id).join(".hgignore"),
        };
        vfs.remove_file(&file)
    }
}

/// Builds the contents of the generated ignore file.
fn ignore_content(kind: Kind, persistent: bool) -> (r: String)
    ensures
        r@ == spec_ignore_content(kind, persistent),
{
    let mut content = String::from_str("# generated by tytanic, do not edit\n\n");
    if matches!(kind, Kind::Mercurial) {
        content.append("syntax: glob\n");
    }
    content.append("diff/**\n");
    content.append("out/**\n");
    if !persistent {
        content.append("ref/**\n");
    }
    proof {
        assert(content@ =~= spec_ignore_content(kind, persistent));
    }
    content
}

/// Writing the ignore file twice yields the same tree, and so byte-identical
/// file contents, as writing it once.
pub proof fn lemma_ignore_idempotent(
    m: Map<Seq<Seq<char>>, EntryV>,
    file: Seq<Seq<char>>,
    content: Seq<char>,
)
    ensures
        m.insert(file, EntryV::File(FileDataV::Text(content))).insert(
            file,
            EntryV::File(FileDataV::Text(content)),
        ) == m.insert(file, EntryV::File(FileDataV::Text(content))),
        m.insert(file, EntryV::File(FileDataV::Text(content)))[file] == EntryV::File(
            FileDataV::Text(content),
        ),
{
    let one = m.insert(file, EntryV::File(FileDataV::Text(content)));
    assert(one.insert(file, EntryV::File(FileDataV::Text(content))) =~= one);
}

} // verus!
