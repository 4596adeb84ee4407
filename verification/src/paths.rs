//! Paths of the on-disk test layout.
//!
//! A path is a sequence of components below some root; [`Paths`] maps a test
//! identifier to every location the store touches: the test directory, the
//! two scripts, and the reference, output and difference directories.

use vstd::prelude::*;

use crate::id::Id;
use crate::id::join_segs;
use crate::util::push_char;

verus! {

/// A filesystem path as a sequence of components.
#[derive(Debug, Clone, PartialEq, Eq, Hash)]
pub struct DiskPath {
    parts: Vec<String>,
}

impl View for DiskPath {
    type V = Seq<Seq<char>>;

    closed spec fn view(&self) -> Seq<Seq<char>> {
        self.parts.deep_view()
    }
}

/// Copies a vector of strings.
fn clone_strings(v: &Vec<String>) -> (r: Vec<String>)
    ensures
        r.deep_view() == v.deep_view(),
{
    let mut out: Vec<String> = Vec::new();
    let n = v.len();
    let mut i: usize = 0;
    while i < n
        invariant
            n == v.len(),
            0 <= i <= n,
            out.deep_view() =~~= v.deep_view().take(i as int),
        decreases n - i,
    {
        let ghost before = out.deep_view();
        out.push(v[i].clone());
        proof {
            assert(out.deep_view() =~~= before.push(v.deep_view()[i as int]));
            assert(out.deep_view() =~~= v.deep_view().take(i + 1));
        }
        i += 1;
    }
    proof {
        assert(out.deep_view() =~~= v.deep_view());
    }
    out
}

impl DiskPath {
    /// The empty path.
    pub fn empty() -> (r: DiskPath)
        ensures
            r@ == Seq::<Seq<char>>::empty(),
    {
        let r = DiskPath { parts: Vec::new() };
        proof {
            assert(r@ =~~= Seq::<Seq<char>>::empty());
        }
        r
    }

    /// A path made of the given components.
    pub fn from_parts(parts: Vec<String>) -> (r: DiskPath)
        ensures
            r@ == parts.deep_view(),
    {
        DiskPath { parts }
    }

    /// The number of components.
    pub fn len(&self) -> (r: usize)
        ensures
            r == self@.len(),
    {
        self.parts.len()
    }

    /// The component at `i`.
    pub fn part(&self, i: usize) -> (r: &String)
        requires
            i < self@.len(),
        ensures
            r@ == self@[i as int],
    {
        &self.parts[i]
    }

    /// An owned copy of this path.
    pub fn duplicate(&self) -> (r: DiskPath)
        ensures
            r@ == self@,
    {
        DiskPath { parts: clone_strings(&self.parts) }
    }

    /// Appends one component.
    pub fn push_part(&mut self, part: String)
        ensures
            final(self)@ == old(self)@.push(part@),
    {
        let ghost before = self@;
        let ghost pv = part@;
        self.parts.push(part);
        proof {
            assert(self@ =~~= before.push(pv));
        }
    }

    /// This path extended by one component.
    pub fn join(&self, part: &str) -> (r: DiskPath)
        ensures
            r@ == self@.push(part@),
    {
        let mut r = self.duplicate();
        r.push_part(part.to_owned());
        r
    }

    /// This path extended by the given components.
    pub fn append_parts(&self, parts: &Vec<String>) -> (r: DiskPath)
        ensures
            r@ == self@ + parts.deep_view(),
    {
        let mut r = self.duplicate();
        let n = parts.len();
        let mut i: usize = 0;
        while i < n
            invariant
                n == parts.len(),
                0 <= i <= n,
                r@ =~~= self@ + parts.deep_view().take(i as int),
            decreases n - i,
        {
            r.push_part(parts[i].clone());
            proof {
                assert(r@ =~~= self@ + parts.deep_view().take(i + 1));
            }
            i += 1;
        }
        proof {
            assert(r@ =~~= self@ + parts.deep_view());
        }
        r
    }

    /// The path without its last component, or `None` for the empty path.
    pub fn parent(&self) -> (r: Option<DiskPath>)
        ensures
            match r {
                Some(p) => self@.len() > 0 && p@ == self@.drop_last(),
                None => self@.len() == 0,
            },
    {
        if self.parts.len() == 0 {
            return None;
        }
        let mut parts = clone_strings(&self.parts);
        parts.pop();
        let r = DiskPath { parts };
        proof {
            assert(r@ =~~= self@.drop_last());
        }
        Some(r)
    }

    /// Whether the two paths have the same components.
    pub fn same_as(&self, other: &DiskPath) -> (r: bool)
        ensures
            r == (self@ == other@),
    {
        if self.parts.len() != other.parts.len() {
            proof {
                assert(self@.len() == self.parts.len());
                assert(other@.len() == other.parts.len());
            }
            return false;
        }
        let n = self.parts.len();
        let mut i: usize = 0;
        while i < n
            invariant
                n == self.parts.len() == other.parts.len(),
                self@.len() == other@.len() == n,
            0 <= i <= n,
            forall|j: int| 0 <= j < i ==> self@[j] == other@[j],
            decreases n - i,
        {
            if !(self.parts[i] == other.parts[i]) {
                proof {
                    assert(self@[i as int] != other@[i as int]);
                }
                return false;
            }
            i += 1;
        }
        proof {
            assert(self@ =~= other@);
        }
        true
    }

    /// Whether `base` is this path or one of its ancestors.
    pub fn starts_with(&self, base: &DiskPath) -> (r: bool)
        ensures
            r == base@.is_prefix_of(self@),
    {
        if base.parts.len() > self.parts.len() {
            return false;
        }
        let n = base.parts.len();
        let mut i: usize = 0;
        while i < n
            invariant
                n == base.parts.len() <= self.parts.len(),
                base@.len() == n,
                self@.len() == self.parts.len(),
                0 <= i <= n,
                forall|j: int| 0 <= j < i ==> base@[j] == self@[j],
            decreases n - i,
        {
            if !(base.parts[i] == self.parts[i]) {
                proof {
                    assert(base@[i as int] != self@[i as int]);
                }
                return false;
            }
            i += 1;
        }
        proof {
            assert(base@ =~= self@.subrange(0, n as int));
        }
        true
    }

    /// The components joined with `/` separators.
    pub fn render(&self) -> (r: String)
        ensures
            r@ == join_segs(self@),
    {
        let mut out = String::new();
        let n = self.parts.len();
        if n == 0 {
            return out;
        }
        out.append(self.parts[0].as_str());
        let mut i: usize = 1;
        while i < n
            invariant
                n == self.parts.len(),
                self@.len() == n,
                1 <= i <= n,
                out@ == join_segs(self@.take(i as int)),
            decreases n - i,
        {
            push_char(&mut out, '/');
            out.append(self.parts[i].as_str());
            proof {
                lemma_join_take_step(self@, i as int);
            }
            i += 1;
        }
        proof {
            assert(self@.take(n as int) =~~= self@);
        }
        out
    }
}

/// Extending a join by one more segment appends a separator and the segment.
proof fn lemma_join_take_step(segs: Seq<Seq<char>>, i: int)
    requires
        1 <= i < segs.len(),
    ensures
        join_segs(segs.take(i + 1)) == join_segs(segs.take(i)) + seq!['/'] + segs[i],
    decreases i,
{
    if i == 1 {
        assert(segs.take(2).drop_first() =~~= seq![segs[1]]);
        assert(join_segs(segs.take(2)) == segs.take(2)[0] + seq!['/'] + join_segs(
            segs.take(2).drop_first(),
        ));
        assert(join_segs(segs.take(1)) == segs.take(1)[0]);
        assert(segs.take(2)[0] == segs[0] && segs.take(1)[0] == segs[0]);
    } else {
        lemma_join_take_step(segs.drop_first(), i - 1);
        let a = segs.take(i + 1);
        let b = segs.take(i);
        assert(a.drop_first() =~~= segs.drop_first().take(i));
        assert(b.drop_first() =~~= segs.drop_first().take(i - 1));
        assert(join_segs(a) == a[0] + seq!['/'] + join_segs(a.drop_first()));
        assert(join_segs(b) == b[0] + seq!['/'] + join_segs(b.drop_first()));
        assert(segs.drop_first()[i - 1] == segs[i]);
        assert(join_segs(segs.drop_first().take(i)) == join_segs(segs.drop_first().take(i - 1))
            + seq!['/'] + segs[i]);
        assert(join_segs(a) =~= join_segs(b) + seq!['/'] + segs[i]);
    }
}

/// Extends `root` by the given parts.
pub fn path_in_root(root: &DiskPath, parts: &Vec<String>) -> (r: DiskPath)
    ensures
        r@ == root@ + parts.deep_view(),
{
    root.append_parts(parts)
}

/// The longest common prefix of the two paths.
pub fn common_ancestor(p: &DiskPath, q: &DiskPath) -> (r: DiskPath)
    ensures
        r@.is_prefix_of(p@),
        r@.is_prefix_of(q@),
        r@.len() == p@.len() || r@.len() == q@.len() || p@[r@.len() as int] != q@[r@.len() as int],
{
    let n = if p.len() < q.len() {
        p.len()
    } else {
        q.len()
    };
    let mut parts: Vec<String> = Vec::new();
    let mut i: usize = 0;
    while i < n
        invariant
            n <= p@.len() && n <= q@.len(),
            p@.len() == p.parts.len(),
            q@.len() == q.parts.len(),
            0 <= i <= n,
            parts.deep_view() =~~= p@.take(i as int),
            forall|j: int| 0 <= j < i ==> p@[j] == q@[j],
        decreases n - i,
    {
        if !(p.parts[i] == q.parts[i]) {
            proof {
                assert(p@[i as int] != q@[i as int]);
            }
            let r = DiskPath { parts };
            proof {
                assert(r@.is_prefix_of(p@));
                assert(r@.is_prefix_of(q@));
            }
            return r;
        }
        let ghost before = parts.deep_view();
        parts.push(p.parts[i].clone());
        proof {
            assert(parts.deep_view() =~~= before.push(p@[i as int]));
            assert(parts.deep_view() =~~= p@.take(i + 1));
        }
        i += 1;
    }
    let r = DiskPath { parts };
    proof {
        assert(r@.is_prefix_of(p@));
        assert(r@ =~~= q@.take(n as int));
        assert(r@.is_prefix_of(q@));
    }
    r
}

/// Whether `base` is an ancestor of (or equal to) `path`.
pub fn is_ancestor_of(base: &DiskPath, path: &DiskPath) -> (r: bool)
    ensures
        r == base@.is_prefix_of(path@),
{
    path.starts_with(base)
}

/// The paths of a project on disk: where the suite, the scripts and the
/// per-test artefact directories live, relative to the project root.
#[derive(Debug, Clone, PartialEq, Eq, Hash)]
pub struct Paths {
    project: DiskPath,
    vcs: Option<DiskPath>,
}

impl Paths {
    /// The components of the project root.
    pub closed spec fn project_view(&self) -> Seq<Seq<char>> {
        self.project@
    }

    /// The components of the version control root, if one was found.
    pub closed spec fn vcs_view(&self) -> Option<Seq<Seq<char>>> {
        match self.vcs {
            Some(p) => Some(p@),
            None => None,
        }
    }

    /// The test root: `tests` under the project root.
    pub open spec fn spec_test_root(&self) -> Seq<Seq<char>> {
        self.project_view().push("tests"@)
    }

    /// The directory of the test `id`: the test root extended by the
    /// identifier's segments.
    pub open spec fn spec_unit_test_dir(&self, id: &Id) -> Seq<Seq<char>> {
        self.spec_test_root() + id.segs_view()
    }

    /// Creates the path map for a project rooted at `project`, inside an
    /// optional version control root.
    pub fn new(project: DiskPath, vcs: Option<DiskPath>) -> (r: Paths)
        ensures
            r.project_view() == project@,
            r.vcs_view() == match vcs {
                Some(p) => Some(p@),
                None => None::<Seq<Seq<char>>>,
            },
    {
        Paths { project, vcs }
    }

    /// The project root.
    pub fn project_root(&self) -> (r: &DiskPath)
        ensures
            r@ == self.project_view(),
    {
        &self.project
    }

    /// The path of the project manifest.
    pub fn manifest(&self) -> (r: DiskPath)
        ensures
            r@ == self.project_view().push("typst.toml"@),
    {
        self.project.join("typst.toml")
    }

    /// The test root, under which the whole suite lives.
    pub fn test_root(&self) -> (r: DiskPath)
        ensures
            r@ == self.spec_test_root(),
    {
        self.project.join("tests")
    }

    /// The source template used when creating new tests.
    pub fn unit_test_template(&self) -> (r: DiskPath)
        ensures
            r@ == self.spec_test_root().push("template.typ"@),
    {
        self.test_root().join("template.typ")
    }

    /// The version control root, if one was found.
    pub fn vcs_root(&self) -> (r: Option<&DiskPath>)
        ensures
            match r {
                Some(p) => self.vcs_view() == Some(p@),
                None => self.vcs_view() is None,
            },
    {
        match &self.vcs {
            Some(p) => Some(p),
            None => None,
        }
    }

    /// The directory of the test `id`.
    pub fn unit_test_dir(&self, id: &Id) -> (r: DiskPath)
        requires
            id.wf(),
        ensures
            r@ == self.spec_unit_test_dir(id),
    {
        let components = id.components();
        self.test_root().append_parts(&components)
    }

    /// The test script of `id`.
    pub fn unit_test_script(&self, id: &Id) -> (r: DiskPath)
        requires
            id.wf(),
        ensures
            r@ == self.spec_unit_test_dir(id).push("test.typ"@),
    {
        let mut dir = self.unit_test_dir(id);
        dir.push_part(String::from_str("test.typ"));
        dir
    }

    /// The reference script of `id`.
    pub fn unit_test_ref_script(&self, id: &Id) -> (r: DiskPath)
        requires
            id.wf(),
        ensures
            r@ == self.spec_unit_test_dir(id).push("ref.typ"@),
    {
        let mut dir = self.unit_test_dir(id);
        dir.push_part(String::from_str("ref.typ"));
        dir
    }

    /// The reference directory of `id`.
    pub fn unit_test_ref_dir(&self, id: &Id) -> (r: DiskPath)
        requires
            id.wf(),
        ensures
            r@ == self.spec_unit_test_dir(id).push("ref"@),
    {
        let mut dir = self.unit_test_dir(id);
        dir.push_part(String::from_str("ref"));
        dir
    }

    /// The output directory of `id`.
    pub fn unit_test_out_dir(&self, id: &Id) -> (r: DiskPath)
        requires
            id.wf(),
        ensures
            r@ == self.spec_unit_test_dir(id).push("out"@),
    {
        let mut dir = self.unit_test_dir(id);
        dir.push_part(String::from_str("out"));
        dir
    }

    /// The difference directory of `id`.
    pub fn unit_test_diff_dir(&self, id: &Id) -> (r: DiskPath)
        requires
            id.wf(),
        ensures
            r@ == self.spec_unit_test_dir(id).push("diff"@),
    {
        let mut dir = self.unit_test_dir(id);
        dir.push_part(String::from_str("diff"));
        dir
    }
}

} // verus!
