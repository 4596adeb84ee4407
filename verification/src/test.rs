//! The test entity and its on-disk lifecycle.
//!
//! A test lives in its own directory under the test root: a `test.typ`
//! script always, and depending on its reference kind a `ref.typ` script
//! (ephemeral) or a `ref` directory of numbered pages (persistent). The
//! operations here create, convert and delete that layout on the tree
//! model, and keep the in-memory kind in step with the files on disk.

use vstd::prelude::*;

use crate::document::Document;
use crate::document::LoadError;
use crate::document::spec_saved;
use crate::id::Id;
use crate::paths::DiskPath;
use crate::paths::Paths;
use crate::util::str_chars;
use crate::vcs::Kind as VcsKind;
use crate::vcs::Vcs;
use crate::vcs::spec_ignore_content;
use crate::vcs::spec_ignore_file;
use crate::vfs::EntryV;
use crate::vfs::FileData;
use crate::vfs::FileDataV;
use crate::vfs::FsError;
use crate::vfs::Vfs;
use crate::vfs::under;

verus! {

/// How a test's reference is defined: a script compiled on the fly, or
/// persistent images on disk. A test without references is compile-only.
#[derive(Debug, Clone, Copy, PartialEq, Eq, Hash, Structural)]
pub enum ReferenceKind {
    /// A reference script, compiled each run.
    Ephemeral,
    /// Reference images stored on disk.
    Persistent,
}

/// References handed to [`Test::create`].
#[derive(Debug, Clone)]
pub enum References {
    /// An ephemeral reference script used to compile the reference document
    /// on the fly.
    Ephemeral(String),
    /// Persistent references which are stored on disk.
    Persistent(Document),
}

/// The mathematical value of [`References`].
pub enum ReferencesV {
    Ephemeral(Seq<char>),
    Persistent(Seq<crate::document::PageV>),
}

impl View for References {
    type V = ReferencesV;

    open spec fn view(&self) -> ReferencesV {
        match self {
            References::Ephemeral(s) => ReferencesV::Ephemeral(s@),
            References::Persistent(d) => ReferencesV::Persistent(d@),
        }
    }
}

/// The test directory of `id`.
pub open spec fn spec_test_dir(paths: &Paths, id: &Id) -> Seq<Seq<char>> {
    paths.spec_unit_test_dir(id)
}

/// The test script of `id`.
pub open spec fn spec_test_script(paths: &Paths, id: &Id) -> Seq<Seq<char>> {
    spec_test_dir(paths, id).push("test.typ"@)
}

/// The reference script of `id`.
pub open spec fn spec_ref_script(paths: &Paths, id: &Id) -> Seq<Seq<char>> {
    spec_test_dir(paths, id).push("ref.typ"@)
}

/// The reference directory of `id`.
pub open spec fn spec_ref_dir(paths: &Paths, id: &Id) -> Seq<Seq<char>> {
    spec_test_dir(paths, id).push("ref"@)
}

/// The output directory of `id`.
pub open spec fn spec_out_dir(paths: &Paths, id: &Id) -> Seq<Seq<char>> {
    spec_test_dir(paths, id).push("out"@)
}

/// The difference directory of `id`.
pub open spec fn spec_diff_dir(paths: &Paths, id: &Id) -> Seq<Seq<char>> {
    spec_test_dir(paths, id).push("diff"@)
}

/// The tree with the directory `p` present: unchanged when a node already
/// stands at `p`, else with a directory inserted.
pub open spec fn with_dir(m: Map<Seq<Seq<char>>, EntryV>, p: Seq<Seq<char>>) -> Map<
    Seq<Seq<char>>,
    EntryV,
> {
    if m.dom().contains(p) {
        m
    } else {
        m.insert(p, EntryV::Dir)
    }
}

/// The kind of test the collector reads from the tree: decided by the
/// presence of `ref.typ`, then of `ref/`. `None` at the outer level means no
/// test is here at all (no `test.typ`).
pub open spec fn spec_collect_kind(
    m: Map<Seq<Seq<char>>, EntryV>,
    paths: &Paths,
    id: &Id,
) -> Option<Option<ReferenceKind>> {
    if m.dom().contains(spec_test_script(paths, id)) && m[spec_test_script(paths, id)] is File {
        Some(
            if m.dom().contains(spec_ref_script(paths, id)) {
                Some(ReferenceKind::Ephemeral)
            } else if m.dom().contains(spec_ref_dir(paths, id)) {
                Some(ReferenceKind::Persistent)
            } else {
                None
            },
        )
    } else {
        None
    }
}

/// The on-disk shape that belongs to a reference kind: the test script
/// always; for an ephemeral test the reference script and no reference
/// directory; for a persistent test the reference directory and no
/// reference script; for a compile-only test neither.
pub open spec fn spec_shape(
    m: Map<Seq<Seq<char>>, EntryV>,
    paths: &Paths,
    id: &Id,
    kind: Option<ReferenceKind>,
) -> bool {
    &&& m.dom().contains(spec_test_script(paths, id))
    &&& m[spec_test_script(paths, id)] is File
    &&& match kind {
        Some(ReferenceKind::Ephemeral) => {
            &&& m.dom().contains(spec_ref_script(paths, id))
            &&& m[spec_ref_script(paths, id)] is File
            &&& !m.dom().contains(spec_ref_dir(paths, id))
        },
        Some(ReferenceKind::Persistent) => {
            &&& !m.dom().contains(spec_ref_script(paths, id))
            &&& m.dom().contains(spec_ref_dir(paths, id))
            &&& m[spec_ref_dir(paths, id)] is Dir
        },
        None => {
            &&& !m.dom().contains(spec_ref_script(paths, id))
            &&& !m.dom().contains(spec_ref_dir(paths, id))
        },
    }
}

/// A tidy test directory: the directory node is a directory and the two
/// script positions, where occupied, are files. Every store operation
/// succeeds on a tidy directory.
pub open spec fn spec_tidy(m: Map<Seq<Seq<char>>, EntryV>, paths: &Paths, id: &Id) -> bool {
    &&& m.dom().contains(spec_test_dir(paths, id))
    &&& m[spec_test_dir(paths, id)] is Dir
    &&& (m.dom().contains(spec_test_script(paths, id)) ==> m[spec_test_script(paths, id)] is File)
    &&& (m.dom().contains(spec_ref_script(paths, id)) ==> m[spec_ref_script(paths, id)] is File)
    &&& (forall|k: VcsKind|
        m.dom().contains(spec_ignore_file(paths, id, k)) ==> m[#[trigger] spec_ignore_file(
            paths,
            id,
            k,
        )] is File)
}

/// A thin test handle for managing on-disk resources.
#[derive(Debug, Clone, PartialEq, Eq, Hash)]
pub struct Test {
    id: Id,
    ref_kind: Option<ReferenceKind>,
    is_ignored: bool,
}

impl Test {
    /// The identifier.
    pub closed spec fn spec_id(&self) -> Id {
        self.id
    }

    /// The reference kind.
    pub closed spec fn spec_ref_kind(&self) -> Option<ReferenceKind> {
        self.ref_kind
    }

    /// Whether the test carries the `ignored` annotation.
    pub closed spec fn spec_is_ignored(&self) -> bool {
        self.is_ignored
    }

    /// Validity: the identifier is well-formed.
    pub open spec fn wf(self) -> bool {
        self.spec_id().wf()
    }

    /// Generates a new compile-only test handle which does not exist on disk
    /// yet.
    pub fn new(id: Id) -> (r: Test)
        ensures
            r.spec_id() == id,
            r.spec_ref_kind() is None,
            !r.spec_is_ignored(),
    {
        Test { id, ref_kind: None, is_ignored: false }
    }

    /// A test handle with every attribute given.
    pub fn new_test(id: Id, ref_kind: Option<ReferenceKind>, is_ignored: bool) -> (r: Test)
        ensures
            r.spec_id() == id,
            r.spec_ref_kind() == ref_kind,
            r.spec_is_ignored() == is_ignored,
    {
        Test { id, ref_kind, is_ignored }
    }

    /// The identifier of this test.
    pub fn id(&self) -> (r: &Id)
        ensures
            r == self.spec_id(),
    {
        &self.id
    }

    /// The reference kind of this test.
    pub fn ref_kind(&self) -> (r: Option<&ReferenceKind>)
        ensures
            match r {
                Some(k) => self.spec_ref_kind() == Some(*k),
                None => self.spec_ref_kind() is None,
            },
    {
        self.ref_kind.as_ref()
    }

    /// Whether this test is compared to a reference script.
    pub fn is_ephemeral(&self) -> (r: bool)
        ensures
            r == (self.spec_ref_kind() == Some(ReferenceKind::Ephemeral)),
    {
        matches!(self.ref_kind, Some(ReferenceKind::Ephemeral))
    }

    /// Whether this test is compared to reference images directly.
    pub fn is_persistent(&self) -> (r: bool)
        ensures
            r == (self.spec_ref_kind() == Some(ReferenceKind::Persistent)),
    {
        matches!(self.ref_kind, Some(ReferenceKind::Persistent))
    }

    /// Whether this test is not compared, but only compiled.
    pub fn is_compile_only(&self) -> (r: bool)
        ensures
            r == (self.spec_ref_kind() is None),
    {
        matches!(self.ref_kind, None)
    }

    /// Whether this test is marked as ignored.
    pub fn is_ignored(&self) -> (r: bool)
        ensures
            r == self.spec_is_ignored(),
    {
        self.is_ignored
    }
}


/// Whether `c` is horizontal whitespace the annotation scan strips.
pub open spec fn ws_char(c: char) -> bool {
    c == ' ' || c == '\t' || c == '\r'
}

/// `s` with leading and trailing whitespace removed.
pub open spec fn spec_trim(s: Seq<char>) -> Seq<char>
    decreases s.len(),
{
    if s.len() > 0 && ws_char(s[0]) {
        spec_trim(s.drop_first())
    } else if s.len() > 0 && ws_char(s.last()) {
        spec_trim(s.drop_last())
    } else {
        s
    }
}

/// The lines of `s` from position `i` on, split at newlines.
pub open spec fn spec_lines_from(s: Seq<char>, i: int) -> Seq<Seq<char>>
    decreases s.len() - i,
{
    if i < 0 || i >= s.len() {
        seq![Seq::empty()]
    } else if s[i] == '\n' {
        seq![Seq::<char>::empty()] + spec_lines_from(s, i + 1)
    } else {
        let rest = spec_lines_from(s, i + 1);
        seq![seq![s[i]] + rest[0]] + rest.drop_first()
    }
}

/// Whether a line is a doc comment line: it starts with `///`.
pub open spec fn is_doc_line(line: Seq<char>) -> bool {
    line.len() >= 3 && line[0] == '/' && line[1] == '/' && line[2] == '/'
}

/// Whether a doc comment line carries the `ignored` annotation: after the
/// `///` prefix it trims to `[ignored]`.
pub open spec fn line_marks_ignored(line: Seq<char>) -> bool {
    is_doc_line(line) && spec_trim(line.skip(3)) == "[ignored]"@
}

/// Whether the leading run of doc comment lines holds the `ignored`
/// annotation.
pub open spec fn doc_prefix_ignored(lines: Seq<Seq<char>>) -> bool
    decreases lines.len(),
{
    if lines.len() == 0 {
        false
    } else if !is_doc_line(lines[0]) {
        false
    } else {
        line_marks_ignored(lines[0]) || doc_prefix_ignored(lines.drop_first())
    }
}

/// Whether a test source carries the `ignored` annotation in its leading
/// doc comment lines.
pub open spec fn spec_source_ignored(s: Seq<char>) -> bool {
    doc_prefix_ignored(spec_lines_from(s, 0))
}

/// There is always at least one line.
proof fn lemma_lines_len(s: Seq<char>, i: int)
    ensures
        spec_lines_from(s, i).len() >= 1,
    decreases s.len() - i,
{
    if !(i < 0 || i >= s.len()) {
        lemma_lines_len(s, i + 1);
    }
}

/// The lines of `s` from position `i` on.
fn lines_from(s: &Vec<char>, i: usize) -> (r: Vec<Vec<char>>)
    requires
        i <= s@.len(),
    ensures
        r.deep_view() == spec_lines_from(s@, i as int),
        r.len() >= 1,
    decreases s@.len() - i,
{
    proof {
        lemma_lines_len(s@, i as int);
    }
    if i == s.len() {
        let mut r: Vec<Vec<char>> = Vec::new();
        r.push(Vec::new());
        proof {
            assert(r.deep_view() =~~= spec_lines_from(s@, i as int));
        }
        r
    } else if s[i] == '\n' {
        let mut rest = lines_from(s, i + 1);
        rest.insert(0, Vec::new());
        proof {
            assert(rest.deep_view() =~~= spec_lines_from(s@, i as int));
        }
        rest
    } else {
        let mut rest = lines_from(s, i + 1);
        let ghost rest_view = rest.deep_view();
        let first = rest.remove(0);
        let mut new_first: Vec<char> = Vec::new();
        new_first.push(s[i]);
        let mut k: usize = 0;
        while k < first.len()
            invariant
                0 <= k <= first@.len(),
                new_first@ =~= seq![s@[i as int]] + first@.take(k as int),
                i < s@.len(),
            decreases first@.len() - k,
        {
            new_first.push(first[k]);
            proof {
                assert(new_first@ =~= seq![s@[i as int]] + first@.take(k + 1));
            }
            k += 1;
        }
        proof {
            assert(new_first@ =~= seq![s@[i as int]] + first@);
        }
        rest.insert(0, new_first);
        proof {
            assert(rest.deep_view() =~~= spec_lines_from(s@, i as int)) by {
                assert(rest_view[0] == first@);
                assert(rest.deep_view()[0] =~= seq![s@[i as int]] + rest_view[0]);
                assert(forall|j: int|
                    1 <= j < rest.deep_view().len() ==> rest.deep_view()[j] == rest_view[j]);
            }
        }
        rest
    }
}

/// Trimming strips exactly the whitespace margins: a window whose outside is
/// whitespace and whose edges are not trims to itself.
proof fn lemma_trim_range(s: Seq<char>, lo: int, hi: int)
    requires
        0 <= lo <= hi <= s.len(),
        forall|j: int| 0 <= j < lo ==> ws_char(#[trigger] s[j]),
        forall|j: int| hi <= j < s.len() ==> ws_char(#[trigger] s[j]),
        lo < hi ==> !ws_char(s[lo]) && !ws_char(s[hi - 1]),
    ensures
        spec_trim(s) == s.subrange(lo, hi),
    decreases lo + (s.len() - hi),
{
    if lo > 0 {
        assert(ws_char(s[0]));
        lemma_trim_range(s.drop_first(), lo - 1, hi - 1);
        assert(s.drop_first().subrange(lo - 1, hi - 1) =~= s.subrange(lo, hi));
    } else if hi < s.len() {
        if lo < hi {
            assert(!ws_char(s[0]));
        } else {
            // all of `s` is whitespace beyond `hi == lo == 0`
            if s.len() > 0 {
                assert(ws_char(s[0]));
                lemma_trim_range(s.drop_first(), 0, 0);
                assert(s.drop_first().subrange(0, 0) =~= s.subrange(0, 0));
                return ;
            }
        }
        assert(ws_char(s.last()));
        lemma_trim_range(s.drop_last(), lo, hi);
        assert(s.drop_last().subrange(lo, hi) =~= s.subrange(lo, hi));
    } else {
        assert(s.subrange(0, s.len() as int) =~= s);
    }
}

/// Whether `c` is horizontal whitespace.
fn is_ws(c: char) -> (r: bool)
    ensures
        r == ws_char(c),
{
    c == ' ' || c == '\t' || c == '\r'
}

/// Whether this line carries the `ignored` annotation.
fn line_ignored(line: &Vec<char>) -> (r: bool)
    ensures
        r == line_marks_ignored(line@),
{
    let n = line.len();
    if n < 3 || line[0] != '/' || line[1] != '/' || line[2] != '/' {
        return false;
    }
    let mut lo: usize = 3;
    while lo < n && is_ws(line[lo])
        invariant
            3 <= lo <= n,
            n == line@.len(),
            forall|j: int| 3 <= j < lo ==> ws_char(#[trigger] line@[j]),
        decreases n - lo,
    {
        lo += 1;
    }
    let mut hi: usize = n;
    while hi > lo && is_ws(line[hi - 1])
        invariant
            lo <= hi <= n,
            n == line@.len(),
            forall|j: int| hi <= j < n ==> ws_char(#[trigger] line@[j]),
        decreases hi,
    {
        hi -= 1;
    }
    proof {
        let tail = line@.skip(3);
        assert(forall|j: int| 0 <= j < lo - 3 ==> ws_char(#[trigger] tail[j]));
        assert(forall|j: int| hi - 3 <= j < tail.len() ==> ws_char(#[trigger] tail[j]));
        lemma_trim_range(tail, lo - 3, hi - 3);
        assert(tail.subrange(lo - 3, hi - 3) =~= line@.subrange(lo as int, hi as int));
        reveal_strlit("[ignored]");
    }
    if hi - lo != 9 {
        proof {
            assert(spec_trim(line@.skip(3)).len() != "[ignored]"@.len());
        }
        return false;
    }
    let r = line[lo] == '[' && line[lo + 1] == 'i' && line[lo + 2] == 'g' && line[lo + 3] == 'n'
        && line[lo + 4] == 'o' && line[lo + 5] == 'r' && line[lo + 6] == 'e' && line[lo + 7] == 'd'
        && line[lo + 8] == ']';
    proof {
        reveal_strlit("[ignored]");
        let sub = line@.subrange(lo as int, hi as int);
        assert("[ignored]"@[0] == '[' && "[ignored]"@[1] == 'i' && "[ignored]"@[2] == 'g'
            && "[ignored]"@[3] == 'n' && "[ignored]"@[4] == 'o' && "[ignored]"@[5] == 'r'
            && "[ignored]"@[6] == 'e' && "[ignored]"@[7] == 'd' && "[ignored]"@[8] == ']');
        assert(sub[0] == line@[lo as int] && sub[1] == line@[lo + 1] && sub[2] == line@[lo + 2]
            && sub[3] == line@[lo + 3] && sub[4] == line@[lo + 4] && sub[5] == line@[lo + 5]
            && sub[6] == line@[lo + 6] && sub[7] == line@[lo + 7] && sub[8] == line@[lo + 8]);
        if r {
            assert(sub =~= "[ignored]"@);
        } else {
            if sub == "[ignored]"@ {
                assert(false);
            }
        }
    }
    r
}

/// Whether the leading doc comment lines of a test source carry the
/// `ignored` annotation.
pub fn source_is_ignored(source: &str) -> (r: bool)
    ensures
        r == spec_source_ignored(source@),
{
    let chars = str_chars(source);
    let lines = lines_from(&chars, 0);
    let ghost all = lines.deep_view();
    proof {
        assert(all.skip(0) =~~= all);
    }
    let n = lines.len();
    let mut i: usize = 0;
    while i < n
        invariant
            n == lines@.len(),
            all == lines.deep_view(),
            all == spec_lines_from(source@, 0),
            0 <= i <= n,
            spec_source_ignored(source@) == doc_prefix_ignored(all.skip(i as int)),
        decreases n - i,
    {
        proof {
            assert(all[i as int] == lines@[i as int]@);
            assert(all.skip(i as int).len() > 0);
            assert(all.skip(i as int)[0] == all[i as int]);
            assert(all.skip(i as int).drop_first() =~~= all.skip(i + 1));
        }
        if !is_doc(&lines[i]) {
            return false;
        }
        if line_ignored(&lines[i]) {
            return true;
        }
        i += 1;
    }
    proof {
        assert(all.skip(n as int).len() == 0);
    }
    false
}

/// Whether the line starts with `///`.
fn is_doc(line: &Vec<char>) -> (r: bool)
    ensures
        r == is_doc_line(line@),
{
    line.len() >= 3 && line[0] == '/' && line[1] == '/' && line[2] == '/'
}


/// Pushing different last components gives different, prefix-free paths.
proof fn lemma_push_distinct(dir: Seq<Seq<char>>, a: Seq<char>, b: Seq<char>)
    requires
        a != b,
    ensures
        dir.push(a) != dir.push(b),
        !dir.push(a).is_prefix_of(dir.push(b)),
{
    if dir.push(a).is_prefix_of(dir.push(b)) {
        assert(dir.push(a) =~= dir.push(b));
        assert(dir.push(a).last() == a && dir.push(b).last() == b);
        assert(false);
    }
    if dir.push(a) == dir.push(b) {
        assert(dir.push(a).last() == a && dir.push(b).last() == b);
        assert(false);
    }
}

/// A path is never a prefix of its own parent.
proof fn lemma_push_not_prefix_of_parent(dir: Seq<Seq<char>>, a: Seq<char>)
    ensures
        !dir.push(a).is_prefix_of(dir),
{
}

/// The fixed file names of the test layout are pairwise distinct.
proof fn lemma_names_distinct()
    ensures
        "test.typ"@ != "ref.typ"@,
        "test.typ"@ != "ref"@,
        "test.typ"@ != "out"@,
        "test.typ"@ != "diff"@,
        "test.typ"@ != ".gitignore"@,
        "test.typ"@ != ".hgignore"@,
        "ref.typ"@ != "ref"@,
        "ref.typ"@ != "out"@,
        "ref.typ"@ != "diff"@,
        "ref.typ"@ != ".gitignore"@,
        "ref.typ"@ != ".hgignore"@,
        "ref"@ != "out"@,
        "ref"@ != "diff"@,
        "ref"@ != ".gitignore"@,
        "ref"@ != ".hgignore"@,
        "out"@ != "diff"@,
        "out"@ != ".gitignore"@,
        "out"@ != ".hgignore"@,
        "diff"@ != ".gitignore"@,
        "diff"@ != ".hgignore"@,
        ".gitignore"@ != ".hgignore"@,
{
    reveal_strlit("test.typ");
    reveal_strlit("ref.typ");
    reveal_strlit("ref");
    reveal_strlit("out");
    reveal_strlit("diff");
    reveal_strlit(".gitignore");
    reveal_strlit(".hgignore");
    assert("test.typ"@.len() == 8);
    assert("ref.typ"@.len() == 7);
    assert("ref"@.len() == 3);
    assert("out"@.len() == 3);
    assert("diff"@.len() == 4);
    assert(".gitignore"@.len() == 10);
    assert(".hgignore"@.len() == 9);
    assert("ref"@[0] == 'r' && "out"@[0] == 'o');
}

/// The pairwise relationships between the nodes of one test's layout: the
/// scripts, artefact directories and ignore files are distinct, and none
/// lies below the reference, output or difference directory.
proof fn lemma_layout(paths: &Paths, id: &Id)
    ensures
        spec_test_script(paths, id) != spec_ref_script(paths, id),
        spec_test_script(paths, id) != spec_ref_dir(paths, id),
        spec_test_script(paths, id) != spec_out_dir(paths, id),
        spec_test_script(paths, id) != spec_diff_dir(paths, id),
        spec_ref_script(paths, id) != spec_ref_dir(paths, id),
        spec_ref_script(paths, id) != spec_out_dir(paths, id),
        spec_ref_script(paths, id) != spec_diff_dir(paths, id),
        spec_ref_dir(paths, id) != spec_out_dir(paths, id),
        spec_ref_dir(paths, id) != spec_diff_dir(paths, id),
        spec_out_dir(paths, id) != spec_diff_dir(paths, id),
        forall|k: VcsKind| #[trigger] spec_ignore_file(paths, id, k) != spec_test_script(paths, id),
        forall|k: VcsKind| #[trigger] spec_ignore_file(paths, id, k) != spec_ref_script(paths, id),
        forall|k: VcsKind| #[trigger] spec_ignore_file(paths, id, k) != spec_ref_dir(paths, id),
        forall|k: VcsKind| #[trigger] spec_ignore_file(paths, id, k) != spec_out_dir(paths, id),
        forall|k: VcsKind| #[trigger] spec_ignore_file(paths, id, k) != spec_diff_dir(paths, id),
        !spec_ref_dir(paths, id).is_prefix_of(spec_test_script(paths, id)),
        !spec_ref_dir(paths, id).is_prefix_of(spec_ref_script(paths, id)),
        !spec_ref_dir(paths, id).is_prefix_of(spec_out_dir(paths, id)),
        !spec_ref_dir(paths, id).is_prefix_of(spec_diff_dir(paths, id)),
        !spec_out_dir(paths, id).is_prefix_of(spec_test_script(paths, id)),
        !spec_out_dir(paths, id).is_prefix_of(spec_ref_script(paths, id)),
        !spec_out_dir(paths, id).is_prefix_of(spec_ref_dir(paths, id)),
        !spec_out_dir(paths, id).is_prefix_of(spec_diff_dir(paths, id)),
        !spec_diff_dir(paths, id).is_prefix_of(spec_test_script(paths, id)),
        !spec_diff_dir(paths, id).is_prefix_of(spec_ref_script(paths, id)),
        !spec_diff_dir(paths, id).is_prefix_of(spec_ref_dir(paths, id)),
        !spec_diff_dir(paths, id).is_prefix_of(spec_ref_dir(paths, id)),
        forall|k: VcsKind|
            !spec_ref_dir(paths, id).is_prefix_of(#[trigger] spec_ignore_file(paths, id, k)),
        forall|k: VcsKind|
            !spec_out_dir(paths, id).is_prefix_of(#[trigger] spec_ignore_file(paths, id, k)),
        forall|k: VcsKind|
            !spec_diff_dir(paths, id).is_prefix_of(#[trigger] spec_ignore_file(paths, id, k)),
        !spec_ref_dir(paths, id).is_prefix_of(spec_test_dir(paths, id)),
        !spec_out_dir(paths, id).is_prefix_of(spec_test_dir(paths, id)),
        !spec_diff_dir(paths, id).is_prefix_of(spec_test_dir(paths, id)),
        spec_test_dir(paths, id).is_prefix_of(spec_test_script(paths, id)),
        spec_test_dir(paths, id).is_prefix_of(spec_ref_script(paths, id)),
        spec_test_dir(paths, id).is_prefix_of(spec_ref_dir(paths, id)),
        spec_test_dir(paths, id).is_prefix_of(spec_out_dir(paths, id)),
        spec_test_dir(paths, id).is_prefix_of(spec_diff_dir(paths, id)),
        forall|k: VcsKind|
            spec_test_dir(paths, id).is_prefix_of(#[trigger] spec_ignore_file(paths, id, k)),
        spec_test_dir(paths, id).is_prefix_of(spec_test_dir(paths, id)),
        spec_test_dir(paths, id) != spec_test_script(paths, id),
        spec_test_dir(paths, id) != spec_ref_script(paths, id),
        spec_test_dir(paths, id) != spec_ref_dir(paths, id),
        spec_test_dir(paths, id) != spec_out_dir(paths, id),
        spec_test_dir(paths, id) != spec_diff_dir(paths, id),
        forall|k: VcsKind| spec_test_dir(paths, id) != #[trigger] spec_ignore_file(paths, id, k),
        spec_ref_dir(paths, id).is_prefix_of(spec_ref_dir(paths, id)),
{
    lemma_names_distinct();
    reveal_strlit(".gitignore");
    reveal_strlit(".hgignore");
    let dir = spec_test_dir(paths, id);
    lemma_push_distinct(dir, "test.typ"@, "ref.typ"@);
    lemma_push_distinct(dir, "test.typ"@, "ref"@);
    lemma_push_distinct(dir, "test.typ"@, "out"@);
    lemma_push_distinct(dir, "test.typ"@, "diff"@);
    lemma_push_distinct(dir, "ref.typ"@, "ref"@);
    lemma_push_distinct(dir, "ref.typ"@, "out"@);
    lemma_push_distinct(dir, "ref.typ"@, "diff"@);
    lemma_push_distinct(dir, "ref"@, "out"@);
    lemma_push_distinct(dir, "ref"@, "diff"@);
    lemma_push_distinct(dir, "out"@, "diff"@);
    lemma_push_distinct(dir, "ref"@, "test.typ"@);
    lemma_push_distinct(dir, "out"@, "test.typ"@);
    lemma_push_distinct(dir, "diff"@, "test.typ"@);
    lemma_push_distinct(dir, "ref"@, "ref.typ"@);
    lemma_push_distinct(dir, "out"@, "ref.typ"@);
    lemma_push_distinct(dir, "diff"@, "ref.typ"@);
    lemma_push_distinct(dir, "out"@, "ref"@);
    lemma_push_distinct(dir, "diff"@, "ref"@);
    lemma_push_distinct(dir, "diff"@, "out"@);
    assert forall|k: VcsKind| true implies {
        &&& #[trigger] spec_ignore_file(paths, id, k) != spec_test_script(paths, id)
        &&& spec_ignore_file(paths, id, k) != spec_ref_script(paths, id)
        &&& spec_ignore_file(paths, id, k) != spec_ref_dir(paths, id)
        &&& spec_ignore_file(paths, id, k) != spec_out_dir(paths, id)
        &&& spec_ignore_file(paths, id, k) != spec_diff_dir(paths, id)
        &&& !spec_ref_dir(paths, id).is_prefix_of(spec_ignore_file(paths, id, k))
        &&& !spec_out_dir(paths, id).is_prefix_of(spec_ignore_file(paths, id, k))
        &&& !spec_diff_dir(paths, id).is_prefix_of(spec_ignore_file(paths, id, k))
    } by {
        let name = crate::vcs::spec_ignore_file_name(k);
        assert(name == ".gitignore"@ || name == ".hgignore"@);
        assert(name != "test.typ"@ && name != "ref.typ"@ && name != "ref"@ && name != "out"@
            && name != "diff"@);
        lemma_push_distinct(dir, "ref"@, name);
        lemma_push_distinct(dir, "out"@, name);
        lemma_push_distinct(dir, "diff"@, name);
        lemma_push_distinct(dir, name, "test.typ"@);
        lemma_push_distinct(dir, name, "ref.typ"@);
    }
    lemma_push_not_prefix_of_parent(dir, "ref"@);
    lemma_push_not_prefix_of_parent(dir, "out"@);
    lemma_push_not_prefix_of_parent(dir, "diff"@);
    assert(dir.is_prefix_of(dir.push("test.typ"@))) by {
        assert(dir =~= dir.push("test.typ"@).subrange(0, dir.len() as int));
    }
    assert(dir.is_prefix_of(dir.push("ref.typ"@))) by {
        assert(dir =~= dir.push("ref.typ"@).subrange(0, dir.len() as int));
    }
    assert(dir.is_prefix_of(dir.push("ref"@))) by {
        assert(dir =~= dir.push("ref"@).subrange(0, dir.len() as int));
    }
    assert(dir.is_prefix_of(dir.push("out"@))) by {
        assert(dir =~= dir.push("out"@).subrange(0, dir.len() as int));
    }
    assert(dir.is_prefix_of(dir.push("diff"@))) by {
        assert(dir =~= dir.push("diff"@).subrange(0, dir.len() as int));
    }
    assert forall|k: VcsKind| dir.is_prefix_of(#[trigger] spec_ignore_file(paths, id, k)) by {
        let name = crate::vcs::spec_ignore_file_name(k);
        assert(dir =~= dir.push(name).subrange(0, dir.len() as int));
    }
    assert(dir.is_prefix_of(dir)) by {
        assert(dir =~= dir.subrange(0, dir.len() as int));
    }
    let rd = dir.push("ref"@);
    assert(rd.is_prefix_of(rd)) by {
        assert(rd =~= rd.subrange(0, rd.len() as int));
    }
}


/// Prefixes compose: a prefix of a prefix is a prefix.
proof fn lemma_prefix_trans(a: Seq<Seq<char>>, b: Seq<Seq<char>>, c: Seq<Seq<char>>)
    requires
        a.is_prefix_of(b),
        b.is_prefix_of(c),
    ensures
        a.is_prefix_of(c),
{
    assert(a =~= c.subrange(0, a.len() as int));
}

/// Anything of the test on disk lets an operation on a node directly inside
/// the test directory find its parent.
proof fn lemma_parent_exists_under(
    m: Map<Seq<Seq<char>>, EntryV>,
    paths: &Paths,
    id: &Id,
    name: Seq<char>,
)
    requires
        id.wf(),
        exists|k: Seq<Seq<char>>|
            m.dom().contains(k) && #[trigger] spec_test_dir(paths, id).is_prefix_of(k),
    ensures
        Vfs::spec_parent_exists(m, spec_test_dir(paths, id).push(name)),
{
    let dir = spec_test_dir(paths, id);
    let w = choose|k: Seq<Seq<char>>| m.dom().contains(k) && #[trigger] dir.is_prefix_of(k);
    assert(dir.push(name).drop_last() =~= dir);
    assert(dir.len() >= 2);
    assert(m.dom().contains(w) && dir.push(name).drop_last().is_prefix_of(w));
}

/// The kind of the version control system behind an optional handle.
pub open spec fn vk_of(vcs: Option<&Vcs>) -> Option<VcsKind> {
    match vcs {
        Some(v) => Some(v.kind_view()),
        None => None,
    }
}

/// The tree after the reference artefacts of `id` were replaced by an
/// ephemeral reference script copied from the test script.
pub open spec fn spec_make_ephemeral(
    m: Map<Seq<Seq<char>>, EntryV>,
    paths: &Paths,
    id: &Id,
    vk: Option<VcsKind>,
) -> Map<Seq<Seq<char>>, EntryV> {
    let m1 = m.remove(spec_ref_script(paths, id));
    let m2 = m1.remove_keys(under(spec_ref_dir(paths, id)));
    let m3 = match vk {
        None => m2,
        Some(k) => m2.insert(
            spec_ignore_file(paths, id, k),
            EntryV::File(FileDataV::Text(spec_ignore_content(k, false))),
        ),
    };
    m3.insert(spec_ref_script(paths, id), m[spec_test_script(paths, id)])
}

/// What a conversion to ephemeral needs: a test script to copy, no
/// directory in the way of the reference script or the ignore file.
pub open spec fn spec_can_make_ephemeral(
    m: Map<Seq<Seq<char>>, EntryV>,
    paths: &Paths,
    id: &Id,
    vk: Option<VcsKind>,
) -> bool {
    &&& m.dom().contains(spec_test_script(paths, id))
    &&& m[spec_test_script(paths, id)] is File
    &&& (m.dom().contains(spec_ref_script(paths, id)) ==> m[spec_ref_script(paths, id)] is File)
    &&& match vk {
        Some(k) => m.dom().contains(spec_ignore_file(paths, id, k)) ==> m[spec_ignore_file(
            paths,
            id,
            k,
        )] is File,
        None => true,
    }
}

/// The tree after the reference artefacts of `id` were replaced by the pages
/// of a persistent reference document.
pub open spec fn spec_make_persistent(
    m: Map<Seq<Seq<char>>, EntryV>,
    paths: &Paths,
    id: &Id,
    pages: Seq<crate::document::PageV>,
    vk: Option<VcsKind>,
) -> Map<Seq<Seq<char>>, EntryV> {
    let m1 = m.remove(spec_ref_script(paths, id));
    let m2 = m1.remove_keys(under(spec_ref_dir(paths, id)));
    let m3 = m2.insert(spec_ref_dir(paths, id), EntryV::Dir);
    let m4 = spec_saved(m3, spec_ref_dir(paths, id), pages, pages.len() as int);
    match vk {
        None => m4,
        Some(k) => m4.insert(
            spec_ignore_file(paths, id, k),
            EntryV::File(FileDataV::Text(spec_ignore_content(k, true))),
        ),
    }
}

/// What a conversion to persistent needs: something of the test on disk, no
/// directory in the way of the reference script or the ignore file.
pub open spec fn spec_can_make_persistent(
    m: Map<Seq<Seq<char>>, EntryV>,
    paths: &Paths,
    id: &Id,
    vk: Option<VcsKind>,
) -> bool {
    &&& m.dom().contains(spec_test_dir(paths, id))
    &&& (m.dom().contains(spec_ref_script(paths, id)) ==> m[spec_ref_script(paths, id)] is File)
    &&& match vk {
        Some(k) => m.dom().contains(spec_ignore_file(paths, id, k)) ==> m[spec_ignore_file(
            paths,
            id,
            k,
        )] is File,
        None => true,
    }
}

/// The tree after every reference artefact of `id` was removed.
pub open spec fn spec_make_compile_only(
    m: Map<Seq<Seq<char>>, EntryV>,
    paths: &Paths,
    id: &Id,
) -> Map<Seq<Seq<char>>, EntryV> {
    m.remove_keys(under(spec_ref_dir(paths, id))).remove(spec_ref_script(paths, id))
}

/// What a conversion to compile-only needs: something of the test on disk
/// and no directory in the way of the reference script.
pub open spec fn spec_can_make_compile_only(
    m: Map<Seq<Seq<char>>, EntryV>,
    paths: &Paths,
    id: &Id,
) -> bool {
    &&& m.dom().contains(spec_test_dir(paths, id))
    &&& (m.dom().contains(spec_ref_script(paths, id)) ==> m[spec_ref_script(paths, id)] is File)
}

/// The tree after the test `id` was created with the given source and
/// references.
pub open spec fn spec_create(
    m: Map<Seq<Seq<char>>, EntryV>,
    paths: &Paths,
    id: &Id,
    source: Seq<char>,
    refs: Option<ReferencesV>,
    vk: Option<VcsKind>,
) -> Map<Seq<Seq<char>>, EntryV> {
    let m1 = with_dir(m, spec_test_dir(paths, id));
    let m2 = m1.insert(spec_test_script(paths, id), EntryV::File(FileDataV::Text(source)));
    let m3 = match refs {
        None => m2,
        Some(ReferencesV::Ephemeral(r)) => m2.insert(
            spec_ref_script(paths, id),
            EntryV::File(FileDataV::Text(r)),
        ),
        Some(ReferencesV::Persistent(pages)) => spec_saved(
            with_dir(m2, spec_ref_dir(paths, id)),
            spec_ref_dir(paths, id),
            pages,
            pages.len() as int,
        ),
    };
    match vk {
        None => m3,
        Some(k) => m3.insert(
            spec_ignore_file(paths, id, k),
            EntryV::File(
                FileDataV::Text(
                    spec_ignore_content(k, refs matches Some(ReferencesV::Persistent(_))),
                ),
            ),
        ),
    }
}

impl Test {
    /// Creates a new test directly on disk: the test directory, the test
    /// script, the references of the requested kind, and the ignore file of
    /// the version control system, if one is in use. The `ignored`
    /// annotation is read from the leading doc comment lines of `source`.
    ///
    /// Fails with `AlreadyExists` when the test script already exists.
    pub fn create(
        vfs: &mut Vfs,
        paths: &Paths,
        vcs: Option<&Vcs>,
        id: Id,
        source: &str,
        references: Option<References>,
    ) -> (r: Result<Test, FsError>)
        requires
            old(vfs).wf(),
            id.wf(),
        ensures
            final(vfs).wf(),
            match r {
                Ok(test) => {
                    &&& test.wf()
                    &&& test.spec_id() == id
                    &&& test.spec_ref_kind() == match references {
                        None => None::<ReferenceKind>,
                        Some(References::Ephemeral(_)) => Some(ReferenceKind::Ephemeral),
                        Some(References::Persistent(_)) => Some(ReferenceKind::Persistent),
                    }
                    &&& test.spec_is_ignored() == spec_source_ignored(source@)
                    &&& final(vfs)@ == spec_create(
                        old(vfs)@,
                        paths,
                        &id,
                        source@,
                        match references {
                            Some(r) => Some(r@),
                            None => None,
                        },
                        vk_of(vcs),
                    )
                },
                Err(e) => e is AlreadyExists ==> old(vfs)@.dom().contains(
                    spec_test_script(paths, &id),
                ) && final(vfs)@ == with_dir(old(vfs)@, spec_test_dir(paths, &id)),
            },
            (old(vfs)@.dom().contains(spec_test_script(paths, &id)) && (old(vfs)@.dom().contains(
                spec_test_dir(paths, &id),
            ) ==> old(vfs)@[spec_test_dir(paths, &id)] is Dir)) ==> r == Result::<
                Test,
                FsError,
            >::Err(FsError::AlreadyExists),
            ((old(vfs)@.dom().contains(spec_test_dir(paths, &id)) ==> old(vfs)@[spec_test_dir(
                paths,
                &id,
            )] is Dir) && (forall|k: Seq<Seq<char>>|
                old(vfs)@.dom().contains(k) && #[trigger] spec_test_dir(paths, &id).is_prefix_of(k)
                    ==> k == spec_test_dir(paths, &id))) ==> r is Ok,
    {
        proof {
            lemma_layout(paths, &id);
        }
        let ghost exist_cond = old(vfs)@.dom().contains(spec_test_script(paths, &id)) && (old(
            vfs,
        )@.dom().contains(spec_test_dir(paths, &id)) ==> old(vfs)@[spec_test_dir(
            paths,
            &id,
        )] is Dir);
        let ghost can = (old(vfs)@.dom().contains(spec_test_dir(paths, &id)) ==> old(
            vfs,
        )@[spec_test_dir(paths, &id)] is Dir) && (forall|k: Seq<Seq<char>>|
            old(vfs)@.dom().contains(k) && #[trigger] spec_test_dir(paths, &id).is_prefix_of(k)
                ==> k == spec_test_dir(paths, &id));
        let ghost m0 = vfs@;
        let dir = paths.unit_test_dir(&id);
        match vfs.create_dir(&dir, true) {
            Ok(()) => {},
            Err(e) => {
                proof {
                    if exist_cond || can {
                        assert(false);
                    }
                }
                return Err(e);
            },
        }
        let ghost m1 = vfs@;
        let script = paths.unit_test_script(&id);
        proof {
            assert(m1.dom().contains(spec_test_dir(paths, &id)));
            assert(m1.dom().contains(spec_test_script(paths, &id)) <==> m0.dom().contains(
                spec_test_script(paths, &id),
            ));
            if can {
                assert(!m0.dom().contains(spec_test_script(paths, &id)));
                lemma_parent_exists_under(m1, paths, &id, "test.typ"@);
            }
        }
        match vfs.create_file_new(&script, FileData::Text(source.to_owned())) {
            Ok(()) => {},
            Err(e) => {
                proof {
                    if e is AlreadyExists {
                        assert(m0.dom().contains(spec_test_script(paths, &id)));
                    }
                    if exist_cond {
                        assert(e is AlreadyExists);
                    }
                    if can {
                        assert(false);
                    }
                }
                return Err(e);
            },
        }
        let ghost m2 = vfs@;
        let is_ignored = source_is_ignored(source);
        let ref_kind = match &references {
            Some(References::Ephemeral(_)) => Some(ReferenceKind::Ephemeral),
            Some(References::Persistent(_)) => Some(ReferenceKind::Persistent),
            None => None,
        };
        let persistent = matches!(ref_kind, Some(ReferenceKind::Persistent));
        match &references {
            Some(References::Ephemeral(reference)) => {
                let ref_script = paths.unit_test_ref_script(&id);
                proof {
                    if can {
                        assert(!m0.dom().contains(spec_ref_script(paths, &id)));
                        assert(!m2.dom().contains(spec_ref_script(paths, &id)));
                        lemma_parent_exists_under(m2, paths, &id, "ref.typ"@);
                    }
                }
                match vfs.write_file(&ref_script, FileData::Text(reference.clone())) {
                    Ok(()) => {},
                    Err(e) => {
                        proof {
                            if can {
                                assert(false);
                            }
                        }
                        return Err(e);
                    },
                }
            },
            Some(References::Persistent(reference)) => {
                let ref_dir = paths.unit_test_ref_dir(&id);
                proof {
                    if can {
                        assert(!m0.dom().contains(spec_ref_dir(paths, &id)));
                        assert(!m2.dom().contains(spec_ref_dir(paths, &id)));
                    }
                }
                match vfs.create_dir(&ref_dir, true) {
                    Ok(()) => {},
                    Err(e) => {
                        proof {
                            if can {
                                assert(false);
                            }
                        }
                        return Err(e);
                    },
                }
                let ghost m3 = vfs@;
                proof {
                    if can {
                        assert(m3.dom().contains(spec_ref_dir(paths, &id)));
                        assert(spec_ref_dir(paths, &id).is_prefix_of(spec_ref_dir(paths, &id)));
                        assert forall|j: int|
                            1 <= j <= reference@.len() implies !m3.dom().contains(
                            #[trigger] spec_ref_dir(paths, &id).push(
                                crate::document::page_file_name(j as nat),
                            ),
                        ) by {
                            let pk = spec_ref_dir(paths, &id).push(
                                crate::document::page_file_name(j as nat),
                            );
                            assert(spec_test_dir(paths, &id).is_prefix_of(pk)) by {
                                assert(spec_test_dir(paths, &id) =~= pk.subrange(
                                    0,
                                    spec_test_dir(paths, &id).len() as int,
                                ));
                            }
                            assert(pk != spec_test_dir(paths, &id));
                            assert(!m0.dom().contains(pk));
                            assert(pk.len() == spec_test_dir(paths, &id).len() + 2);
                        }
                    }
                }
                match reference.save(vfs, &ref_dir) {
                    Ok(()) => {},
                    Err(e) => {
                        proof {
                            if can {
                                assert(false);
                            }
                        }
                        return Err(e);
                    },
                }
            },
            None => {},
        }
        let ghost m4 = vfs@;
        match vcs {
            Some(v) => {
                proof {
                    if can {
                        let k = v.kind_view();
                        let ig = spec_ignore_file(paths, &id, k);
                        assert(!m0.dom().contains(ig));
                        assert(m4.dom().contains(spec_test_dir(paths, &id)) && (m4.dom().contains(
                            ig,
                        ) ==> !(m4[ig] is Dir))) by {
                            match references {
                                Some(References::Persistent(reference)) => {
                                    crate::document::lemma_saved_props(
                                        m2.insert(spec_ref_dir(paths, &id), EntryV::Dir),
                                        spec_ref_dir(paths, &id),
                                        reference@,
                                        reference@.len() as int,
                                    );
                                    assert forall|j: int|
                                        1 <= j <= reference@.len() implies ig
                                        != #[trigger] spec_ref_dir(paths, &id).push(
                                        crate::document::page_file_name(j as nat),
                                    ) by {
                                        assert(spec_ref_dir(paths, &id).push(
                                            crate::document::page_file_name(j as nat),
                                        ).len() == spec_ref_dir(paths, &id).len() + 1);
                                    }
                                    assert(spec_test_dir(paths, &id) != ig);
                                },
                                _ => {},
                            }
                        }
                        lemma_parent_exists_under(
                            m4,
                            paths,
                            &id,
                            crate::vcs::spec_ignore_file_name(k),
                        );
                    }
                }
                match v.ignore(vfs, paths, &id, persistent) {
                    Ok(()) => {},
                    Err(e) => {
                        proof {
                            if can {
                                assert(false);
                            }
                        }
                        return Err(e);
                    },
                }
            },
            None => {},
        }
        proof {
            assert(vfs@ =~= spec_create(
                m0,
                paths,
                &id,
                source@,
                match references {
                    Some(References::Ephemeral(r2)) => Some(ReferencesV::Ephemeral(r2@)),
                    Some(References::Persistent(d)) => Some(ReferencesV::Persistent(d@)),
                    None => None,
                },
                vk_of(vcs),
            ));
        }
        Ok(Test { id, ref_kind, is_ignored })
    }

    /// Removes any previous references and creates a reference script by
    /// copying the test script; the ignore file is rewritten to cover the
    /// now ephemeral reference directory.
    pub fn make_ephemeral(&mut self, vfs: &mut Vfs, paths: &Paths, vcs: Option<&Vcs>) -> (r: Result<
        (),
        FsError,
    >)
        requires
            old(self).wf(),
            old(vfs).wf(),
        ensures
            final(vfs).wf(),
            final(self).wf(),
            final(self).spec_id() == old(self).spec_id(),
            final(self).spec_is_ignored() == old(self).spec_is_ignored(),
            match r {
                Ok(()) => {
                    &&& final(self).spec_ref_kind() == Some(ReferenceKind::Ephemeral)
                    &&& final(vfs)@ == spec_make_ephemeral(
                        old(vfs)@,
                        paths,
                        &old(self).spec_id(),
                        vk_of(vcs),
                    )
                },
                Err(_) => *final(self) == *old(self),
            },
            spec_can_make_ephemeral(old(vfs)@, paths, &old(self).spec_id(), vk_of(vcs)) ==> r is Ok,
    {
        proof {
            lemma_layout(paths, &self.id);
        }
        let ghost can = spec_can_make_ephemeral(old(vfs)@, paths, &old(self).spec_id(), vk_of(vcs));
        let ghost m0 = vfs@;
        let script = paths.unit_test_script(&self.id);
        let ref_script = paths.unit_test_ref_script(&self.id);
        let ref_dir = paths.unit_test_ref_dir(&self.id);
        match vfs.remove_file(&ref_script) {
            Ok(()) => {},
            Err(e) => {
                return Err(e);
            },
        }
        let ghost m1 = vfs@;
        proof {
            if can {
                assert(m1.dom().contains(spec_test_script(paths, &self.id)));
                assert(spec_test_dir(paths, &self.id).is_prefix_of(
                    spec_test_script(paths, &self.id),
                ));
                lemma_parent_exists_under(m1, paths, &self.id, "ref"@);
            }
        }
        match vfs.remove_dir(&ref_dir, true) {
            Ok(()) => {},
            Err(e) => {
                proof {
                    if can {
                        assert(false);
                    }
                }
                return Err(e);
            },
        }
        let ghost m2 = vfs@;
        proof {
            if can {
                assert(!spec_ref_dir(paths, &self.id).is_prefix_of(
                    spec_test_script(paths, &self.id),
                ));
                assert(m2.dom().contains(spec_test_script(paths, &self.id)));
                assert(m2[spec_test_script(paths, &self.id)] is File);
            }
        }
        match vcs {
            Some(v) => {
                proof {
                    if can {
                        let k = v.kind_view();
                        assert(!spec_ref_dir(paths, &self.id).is_prefix_of(
                            spec_ignore_file(paths, &self.id, k),
                        ));
                        if m2.dom().contains(spec_ignore_file(paths, &self.id, k)) {
                            assert(m2[spec_ignore_file(paths, &self.id, k)] == m0[spec_ignore_file(
                                paths,
                                &self.id,
                                k,
                            )]);
                        }
                        lemma_parent_exists_under(
                            m2,
                            paths,
                            &self.id,
                            crate::vcs::spec_ignore_file_name(k),
                        );
                    }
                }
                match v.ignore(vfs, paths, &self.id, false) {
                    Ok(()) => {},
                    Err(e) => {
                        proof {
                            if can {
                                assert(false);
                            }
                        }
                        return Err(e);
                    },
                }
            },
            None => {},
        }
        let ghost m3 = vfs@;
        proof {
            if can {
                assert(m3.dom().contains(spec_test_script(paths, &self.id)));
                assert(m3[spec_test_script(paths, &self.id)] is File);
                assert(!m3.dom().contains(spec_ref_script(paths, &self.id)));
                lemma_parent_exists_under(m3, paths, &self.id, "ref.typ"@);
            }
        }
        match vfs.copy_file(&script, &ref_script) {
            Ok(()) => {},
            Err(e) => {
                proof {
                    if can {
                        assert(false);
                    }
                }
                return Err(e);
            },
        }
        proof {
            if can {
                assert(m3[spec_test_script(paths, &self.id)] == m0[spec_test_script(
                    paths,
                    &self.id,
                )]);
            }
            assert(vfs@ =~= spec_make_ephemeral(m0, paths, &self.id, vk_of(vcs)));
        }
        self.ref_kind = Some(ReferenceKind::Ephemeral);
        Ok(())
    }

    /// Removes any previous references and creates persistent references
    /// from the given pages; the ignore file is rewritten so that the
    /// reference directory is committed again.
    pub fn make_persistent(
        &mut self,
        vfs: &mut Vfs,
        paths: &Paths,
        vcs: Option<&Vcs>,
        reference: &Document,
    ) -> (r: Result<(), FsError>)
        requires
            old(self).wf(),
            old(vfs).wf(),
        ensures
            final(vfs).wf(),
            final(self).wf(),
            final(self).spec_id() == old(self).spec_id(),
            final(self).spec_is_ignored() == old(self).spec_is_ignored(),
            match r {
                Ok(()) => {
                    &&& final(self).spec_ref_kind() == Some(ReferenceKind::Persistent)
                    &&& final(vfs)@ == spec_make_persistent(
                        old(vfs)@,
                        paths,
                        &old(self).spec_id(),
                        reference@,
                        vk_of(vcs),
                    )
                },
                Err(_) => *final(self) == *old(self),
            },
            spec_can_make_persistent(old(vfs)@, paths, &old(self).spec_id(), vk_of(vcs))
                ==> r is Ok,
    {
        proof {
            lemma_layout(paths, &self.id);
        }
        let ghost can = spec_can_make_persistent(old(vfs)@, paths, &old(self).spec_id(), vk_of(vcs));
        let ghost m0 = vfs@;
        let ref_script = paths.unit_test_ref_script(&self.id);
        let ref_dir = paths.unit_test_ref_dir(&self.id);
        match vfs.remove_file(&ref_script) {
            Ok(()) => {},
            Err(e) => {
                return Err(e);
            },
        }
        let ghost m1 = vfs@;
        proof {
            if can {
                assert(m1.dom().contains(spec_test_dir(paths, &self.id)));
                lemma_parent_exists_under(m1, paths, &self.id, "ref"@);
            }
        }
        match vfs.remove_dir(&ref_dir, true) {
            Ok(()) => {},
            Err(e) => {
                proof {
                    if can {
                        assert(false);
                    }
                }
                return Err(e);
            },
        }
        let ghost m2 = vfs@;
        proof {
            assert(!m2.dom().contains(spec_ref_dir(paths, &self.id)));
        }
        match vfs.create_dir(&ref_dir, true) {
            Ok(()) => {},
            Err(e) => {
                return Err(e);
            },
        }
        let ghost m3 = vfs@;
        proof {
            assert(m3 == m2.insert(spec_ref_dir(paths, &self.id), EntryV::Dir));
            assert(m3.dom().contains(spec_ref_dir(paths, &self.id)));
            assert forall|j: int|
                1 <= j <= reference@.len() implies !m3.dom().contains(
                #[trigger] spec_ref_dir(paths, &self.id).push(
                    crate::document::page_file_name(j as nat),
                ),
            ) by {
                let pk = spec_ref_dir(paths, &self.id).push(
                    crate::document::page_file_name(j as nat),
                );
                assert(spec_ref_dir(paths, &self.id).is_prefix_of(pk)) by {
                    assert(spec_ref_dir(paths, &self.id) =~= pk.subrange(
                        0,
                        spec_ref_dir(paths, &self.id).len() as int,
                    ));
                }
                assert(pk != spec_ref_dir(paths, &self.id));
            }
        }
        match reference.save(vfs, &ref_dir) {
            Ok(()) => {},
            Err(e) => {
                proof {
                    assert(false);
                }
                return Err(e);
            },
        }
        let ghost m4 = vfs@;
        match vcs {
            Some(v) => {
                proof {
                    crate::document::lemma_saved_props(
                        m3,
                        spec_ref_dir(paths, &self.id),
                        reference@,
                        reference@.len() as int,
                    );
                    if can {
                        let k = v.kind_view();
                        let ig = spec_ignore_file(paths, &self.id, k);
                        assert(m4.dom().contains(ig) ==> m4[ig] == m0[ig]) by {
                            if m4.dom().contains(ig) {
                                assert forall|j: int|
                                    1 <= j <= reference@.len() implies ig
                                    != #[trigger] spec_ref_dir(paths, &self.id).push(
                                    crate::document::page_file_name(j as nat),
                                ) by {
                                    assert(spec_ref_dir(paths, &self.id).push(
                                        crate::document::page_file_name(j as nat),
                                    ).len() == spec_ref_dir(paths, &self.id).len() + 1);
                                }
                                assert(m4[ig] == m3[ig]);
                            }
                        }
                        assert(m4.dom().contains(spec_ref_dir(paths, &self.id)));
                        lemma_parent_exists_under(
                            m4,
                            paths,
                            &self.id,
                            crate::vcs::spec_ignore_file_name(k),
                        );
                    }
                }
                match v.ignore(vfs, paths, &self.id, true) {
                    Ok(()) => {},
                    Err(e) => {
                        proof {
                            if can {
                                assert(false);
                            }
                        }
                        return Err(e);
                    },
                }
            },
            None => {},
        }
        proof {
            assert(vfs@ =~= spec_make_persistent(m0, paths, &self.id, reference@, vk_of(vcs)));
        }
        self.ref_kind = Some(ReferenceKind::Persistent);
        Ok(())
    }

    /// Removes any previous references.
    pub fn make_compile_only(&mut self, vfs: &mut Vfs, paths: &Paths, _vcs: Option<&Vcs>) -> (r:
        Result<(), FsError>)
        requires
            old(self).wf(),
            old(vfs).wf(),
        ensures
            final(vfs).wf(),
            final(self).wf(),
            final(self).spec_id() == old(self).spec_id(),
            final(self).spec_is_ignored() == old(self).spec_is_ignored(),
            match r {
                Ok(()) => {
                    &&& final(self).spec_ref_kind() is None
                    &&& final(vfs)@ == spec_make_compile_only(
                        old(vfs)@,
                        paths,
                        &old(self).spec_id(),
                    )
                },
                Err(_) => *final(self) == *old(self),
            },
            spec_can_make_compile_only(old(vfs)@, paths, &old(self).spec_id()) ==> r is Ok,
    {
        proof {
            lemma_layout(paths, &self.id);
        }
        let ghost can = spec_can_make_compile_only(old(vfs)@, paths, &old(self).spec_id());
        let ghost m0 = vfs@;
        let ref_script = paths.unit_test_ref_script(&self.id);
        let ref_dir = paths.unit_test_ref_dir(&self.id);
        proof {
            if can {
                lemma_parent_exists_under(m0, paths, &self.id, "ref"@);
            }
        }
        match vfs.remove_dir(&ref_dir, true) {
            Ok(()) => {},
            Err(e) => {
                proof {
                    if can {
                        assert(false);
                    }
                }
                return Err(e);
            },
        }
        let ghost m1 = vfs@;
        proof {
            if can {
                if m1.dom().contains(spec_ref_script(paths, &self.id)) {
                    assert(m1[spec_ref_script(paths, &self.id)] == m0[spec_ref_script(
                        paths,
                        &self.id,
                    )]);
                }
            }
        }
        match vfs.remove_file(&ref_script) {
            Ok(()) => {},
            Err(e) => {
                proof {
                    if can {
                        assert(false);
                    }
                }
                return Err(e);
            },
        }
        self.ref_kind = None;
        Ok(())
    }

    /// Deletes this test's directories and scripts, recursively. Pieces
    /// that are already absent count as success, including the whole test.
    ///
    /// Fails only when a directory stands where a script belongs.
    pub fn delete(&self, vfs: &mut Vfs, paths: &Paths) -> (r: Result<(), FsError>)
        requires
            self.wf(),
            old(vfs).wf(),
        ensures
            final(vfs).wf(),
            r is Ok ==> final(vfs)@ == old(vfs)@.remove_keys(
                under(spec_test_dir(paths, &self.spec_id())),
            ),
            r matches Err(e) ==> e is Other,
            spec_tidy(old(vfs)@, paths, &self.spec_id()) ==> r is Ok,
            (forall|k: Seq<Seq<char>>|
                old(vfs)@.dom().contains(k) ==> !spec_test_dir(
                    paths,
                    &self.spec_id(),
                ).is_prefix_of(k)) ==> r is Ok,
            (old(vfs)@.dom().contains(spec_test_script(paths, &self.spec_id())) ==> old(
                vfs,
            )@[spec_test_script(paths, &self.spec_id())] is File) && (old(vfs)@.dom().contains(
                spec_ref_script(paths, &self.spec_id()),
            ) ==> old(vfs)@[spec_ref_script(paths, &self.spec_id())] is File) ==> r is Ok,
    {
        proof {
            lemma_layout(paths, &self.id);
        }
        let ghost m0 = vfs@;
        let ghost d = spec_test_dir(paths, &self.spec_id());
        let ref_dir = paths.unit_test_ref_dir(&self.id);
        if let Err(e) = vfs.remove_dir(&ref_dir, true) {
            proof {
                assert(vfs@ =~= vfs@.remove_keys(under(spec_ref_dir(paths, &self.id))));
            }
        }
        let ghost m1 = vfs@;
        proof {
            assert(m1 == m0.remove_keys(under(spec_ref_dir(paths, &self.id))));
        }
        let ref_script = paths.unit_test_ref_script(&self.id);
        match vfs.remove_file(&ref_script) {
            Ok(()) => {},
            Err(e) => {
                return Err(e);
            },
        }
        let ghost m2 = vfs@;
        let out_dir = paths.unit_test_out_dir(&self.id);
        if let Err(e) = vfs.remove_dir(&out_dir, true) {
            proof {
                assert(vfs@ =~= vfs@.remove_keys(under(spec_out_dir(paths, &self.id))));
            }
        }
        let ghost m3 = vfs@;
        proof {
            assert(m3 == m2.remove_keys(under(spec_out_dir(paths, &self.id))));
        }
        let diff_dir = paths.unit_test_diff_dir(&self.id);
        if let Err(e) = vfs.remove_dir(&diff_dir, true) {
            proof {
                assert(vfs@ =~= vfs@.remove_keys(under(spec_diff_dir(paths, &self.id))));
            }
        }
        let ghost m4 = vfs@;
        proof {
            assert(m4 == m3.remove_keys(under(spec_diff_dir(paths, &self.id))));
        }
        let script = paths.unit_test_script(&self.id);
        proof {
            if m4.dom().contains(spec_test_script(paths, &self.id)) {
                assert(m4[spec_test_script(paths, &self.id)] == m0[spec_test_script(
                    paths,
                    &self.id,
                )]);
            }
        }
        match vfs.remove_file(&script) {
            Ok(()) => {},
            Err(e) => {
                return Err(e);
            },
        }
        let dir = paths.unit_test_dir(&self.id);
        if let Err(e) = vfs.remove_dir(&dir, true) {
            proof {
                assert(vfs@ =~= m0.remove_keys(under(d))) by {
                    assert forall|k: Seq<Seq<char>>| true implies (vfs@.dom().contains(k)
                        <==> m0.remove_keys(under(d)).dom().contains(k)) by {
                        if m0.dom().contains(k) && !d.is_prefix_of(k) {
                            assert(!spec_ref_dir(paths, &self.id).is_prefix_of(k)) by {
                                if spec_ref_dir(paths, &self.id).is_prefix_of(k) {
                                    lemma_prefix_trans(d, spec_ref_dir(paths, &self.id), k);
                                }
                            }
                            assert(!spec_out_dir(paths, &self.id).is_prefix_of(k)) by {
                                if spec_out_dir(paths, &self.id).is_prefix_of(k) {
                                    lemma_prefix_trans(d, spec_out_dir(paths, &self.id), k);
                                }
                            }
                            assert(!spec_diff_dir(paths, &self.id).is_prefix_of(k)) by {
                                if spec_diff_dir(paths, &self.id).is_prefix_of(k) {
                                    lemma_prefix_trans(d, spec_diff_dir(paths, &self.id), k);
                                }
                            }
                        }
                        if vfs@.dom().contains(k) {
                            assert(!d.is_prefix_of(k));
                        }
                    }
                }
            }
            return Ok(());
        }
        proof {
            assert(vfs@ =~= m0.remove_keys(under(d))) by {
                assert forall|k: Seq<Seq<char>>| true implies (vfs@.dom().contains(k)
                    <==> m0.remove_keys(under(d)).dom().contains(k)) by {
                    if m0.dom().contains(k) && !d.is_prefix_of(k) {
                        assert(!spec_ref_dir(paths, &self.id).is_prefix_of(k)) by {
                            if spec_ref_dir(paths, &self.id).is_prefix_of(k) {
                                lemma_prefix_trans(d, spec_ref_dir(paths, &self.id), k);
                            }
                        }
                        assert(!spec_out_dir(paths, &self.id).is_prefix_of(k)) by {
                            if spec_out_dir(paths, &self.id).is_prefix_of(k) {
                                lemma_prefix_trans(d, spec_out_dir(paths, &self.id), k);
                            }
                        }
                        assert(!spec_diff_dir(paths, &self.id).is_prefix_of(k)) by {
                            if spec_diff_dir(paths, &self.id).is_prefix_of(k) {
                                lemma_prefix_trans(d, spec_diff_dir(paths, &self.id), k);
                            }
                        }
                    }
                }
            }
        }
        Ok(())
    }

    /// Creates this test's temporary directories: the output and difference
    /// directories, and for an ephemeral test the reference directory.
    pub fn create_temporary_directories(&self, vfs: &mut Vfs, paths: &Paths) -> (r: Result<
        (),
        FsError,
    >)
        requires
            self.wf(),
            old(vfs).wf(),
        ensures
            final(vfs).wf(),
            r is Ok ==> final(vfs)@ == {
                let m1 = if self.spec_ref_kind() == Some(ReferenceKind::Ephemeral) {
                    with_dir(old(vfs)@, spec_ref_dir(paths, &self.spec_id()))
                } else {
                    old(vfs)@
                };
                with_dir(with_dir(m1, spec_out_dir(paths, &self.spec_id())), spec_diff_dir(paths, &self.spec_id()))
            },
            ((self.spec_ref_kind() == Some(ReferenceKind::Ephemeral) ==> (old(vfs)@.dom().contains(
                spec_ref_dir(paths, &self.spec_id()),
            ) ==> old(vfs)@[spec_ref_dir(paths, &self.spec_id())] is Dir)) && (old(
                vfs,
            )@.dom().contains(spec_out_dir(paths, &self.spec_id())) ==> old(vfs)@[spec_out_dir(
                paths,
                &self.spec_id(),
            )] is Dir) && (old(vfs)@.dom().contains(spec_diff_dir(paths, &self.spec_id())) ==> old(
                vfs,
            )@[spec_diff_dir(paths, &self.spec_id())] is Dir)) ==> r is Ok,
    {
        proof {
            lemma_layout(paths, &self.id);
        }
        let ghost can = (self.spec_ref_kind() == Some(ReferenceKind::Ephemeral) ==> (old(
            vfs,
        )@.dom().contains(spec_ref_dir(paths, &self.spec_id())) ==> old(vfs)@[spec_ref_dir(
            paths,
            &self.spec_id(),
        )] is Dir)) && (old(vfs)@.dom().contains(spec_out_dir(paths, &self.spec_id())) ==> old(
            vfs,
        )@[spec_out_dir(paths, &self.spec_id())] is Dir) && (old(vfs)@.dom().contains(
            spec_diff_dir(paths, &self.spec_id()),
        ) ==> old(vfs)@[spec_diff_dir(paths, &self.spec_id())] is Dir);
        if self.is_ephemeral() {
            let ref_dir = paths.unit_test_ref_dir(&self.id);
            match vfs.create_dir(&ref_dir, true) {
                Ok(()) => {},
                Err(e) => {
                    proof {
                        if can {
                            assert(false);
                        }
                    }
                    return Err(e);
                },
            }
        }
        let ghost m1 = vfs@;
        let out_dir = paths.unit_test_out_dir(&self.id);
        proof {
            if can && m1.dom().contains(spec_out_dir(paths, &self.id)) {
                assert(m1[spec_out_dir(paths, &self.id)] == old(vfs)@[spec_out_dir(
                    paths,
                    &self.id,
                )]);
            }
        }
        match vfs.create_dir(&out_dir, true) {
            Ok(()) => {},
            Err(e) => {
                proof {
                    if can {
                        assert(false);
                    }
                }
                return Err(e);
            },
        }
        let ghost m2 = vfs@;
        let diff_dir = paths.unit_test_diff_dir(&self.id);
        proof {
            if can && m2.dom().contains(spec_diff_dir(paths, &self.id)) {
                assert(m2[spec_diff_dir(paths, &self.id)] == old(vfs)@[spec_diff_dir(
                    paths,
                    &self.id,
                )]);
            }
        }
        match vfs.create_dir(&diff_dir, true) {
            Ok(()) => {},
            Err(e) => {
                proof {
                    if can {
                        assert(false);
                    }
                }
                return Err(e);
            },
        }
        Ok(())
    }

    /// Deletes this test's temporary directories: the output and difference
    /// directories, and for an ephemeral test the reference directory.
    pub fn delete_temporary_directories(&self, vfs: &mut Vfs, paths: &Paths) -> (r: Result<
        (),
        FsError,
    >)
        requires
            self.wf(),
            old(vfs).wf(),
        ensures
            final(vfs).wf(),
            r is Ok ==> final(vfs)@ == {
                let m1 = if self.spec_ref_kind() == Some(ReferenceKind::Ephemeral) {
                    old(vfs)@.remove_keys(under(spec_ref_dir(paths, &self.spec_id())))
                } else {
                    old(vfs)@
                };
                m1.remove_keys(under(spec_out_dir(paths, &self.spec_id()))).remove_keys(
                    under(spec_diff_dir(paths, &self.spec_id())),
                )
            },
            old(vfs)@.dom().contains(spec_test_dir(paths, &self.spec_id())) ==> r is Ok,
    {
        proof {
            lemma_layout(paths, &self.id);
        }
        let ghost can = old(vfs)@.dom().contains(spec_test_dir(paths, &self.spec_id()));
        let ghost m0 = vfs@;
        if self.is_ephemeral() {
            let ref_dir = paths.unit_test_ref_dir(&self.id);
            proof {
                if can {
                    lemma_parent_exists_under(m0, paths, &self.id, "ref"@);
                }
            }
            match vfs.remove_dir(&ref_dir, true) {
                Ok(()) => {},
                Err(e) => {
                    proof {
                        if can {
                            assert(false);
                        }
                    }
                    return Err(e);
                },
            }
        }
        let ghost m1 = vfs@;
        let out_dir = paths.unit_test_out_dir(&self.id);
        proof {
            if can {
                assert(m1.dom().contains(spec_test_dir(paths, &self.id)));
                lemma_parent_exists_under(m1, paths, &self.id, "out"@);
            }
        }
        match vfs.remove_dir(&out_dir, true) {
            Ok(()) => {},
            Err(e) => {
                proof {
                    if can {
                        assert(false);
                    }
                }
                return Err(e);
            },
        }
        let ghost m2 = vfs@;
        let diff_dir = paths.unit_test_diff_dir(&self.id);
        proof {
            if can {
                assert(m2.dom().contains(spec_test_dir(paths, &self.id)));
                lemma_parent_exists_under(m2, paths, &self.id, "diff"@);
            }
        }
        match vfs.remove_dir(&diff_dir, true) {
            Ok(()) => {},
            Err(e) => {
                proof {
                    if can {
                        assert(false);
                    }
                }
                return Err(e);
            },
        }
        Ok(())
    }

    /// Creates this test's reference script with the given contents.
    pub fn create_reference_script(&self, vfs: &mut Vfs, paths: &Paths, reference: &str) -> (r:
        Result<(), FsError>)
        requires
            self.wf(),
            old(vfs).wf(),
        ensures
            final(vfs).wf(),
            r is Ok ==> final(vfs)@ == old(vfs)@.insert(
                spec_ref_script(paths, &self.spec_id()),
                EntryV::File(FileDataV::Text(reference@)),
            ),
            r is Err ==> final(vfs)@ == old(vfs)@,
    {
        let ref_script = paths.unit_test_ref_script(&self.id);
        vfs.write_file(&ref_script, FileData::Text(reference.to_owned()))
    }

    /// Creates this test's persistent references from the given document.
    pub fn create_reference_document(&self, vfs: &mut Vfs, paths: &Paths, reference: &Document) -> (r:
        Result<(), FsError>)
        requires
            self.wf(),
            old(vfs).wf(),
        ensures
            final(vfs).wf(),
            r is Ok ==> final(vfs)@ == spec_saved(
                with_dir(old(vfs)@, spec_ref_dir(paths, &self.spec_id())),
                spec_ref_dir(paths, &self.spec_id()),
                reference@,
                reference@.len() as int,
            ),
    {
        let ref_dir = paths.unit_test_ref_dir(&self.id);
        match vfs.create_dir(&ref_dir, true) {
            Ok(()) => {},
            Err(e) => {
                return Err(e);
            },
        }
        reference.save(vfs, &ref_dir)
    }

    /// Deletes this test's reference script; a missing script is not an
    /// error.
    pub fn delete_reference_script(&self, vfs: &mut Vfs, paths: &Paths) -> (r: Result<(), FsError>)
        requires
            self.wf(),
            old(vfs).wf(),
        ensures
            final(vfs).wf(),
            r is Ok ==> final(vfs)@ == old(vfs)@.remove(spec_ref_script(paths, &self.spec_id())),
            r is Err ==> final(vfs)@ == old(vfs)@,
            r is Ok <==> (old(vfs)@.dom().contains(spec_ref_script(paths, &self.spec_id()))
                ==> old(vfs)@[spec_ref_script(paths, &self.spec_id())] is File),
    {
        let ref_script = paths.unit_test_ref_script(&self.id);
        vfs.remove_file(&ref_script)
    }

    /// Deletes this test's persistent reference documents, recursively; a
    /// missing directory is not an error.
    pub fn delete_reference_documents(&self, vfs: &mut Vfs, paths: &Paths) -> (r: Result<
        (),
        FsError,
    >)
        requires
            self.wf(),
            old(vfs).wf(),
        ensures
            final(vfs).wf(),
            r is Ok ==> final(vfs)@ == old(vfs)@.remove_keys(
                under(spec_ref_dir(paths, &self.spec_id())),
            ),
            r is Err ==> final(vfs)@ == old(vfs)@,
            (exists|k: Seq<Seq<char>>|
                old(vfs)@.dom().contains(k) && #[trigger] spec_test_dir(
                    paths,
                    &self.spec_id(),
                ).is_prefix_of(k)) ==> r is Ok,
    {
        proof {
            lemma_layout(paths, &self.id);
            if exists|k: Seq<Seq<char>>|
                old(vfs)@.dom().contains(k) && #[trigger] spec_test_dir(
                    paths,
                    &self.spec_id(),
                ).is_prefix_of(k) {
                lemma_parent_exists_under(old(vfs)@, paths, &self.id, "ref"@);
            }
        }
        let ref_dir = paths.unit_test_ref_dir(&self.id);
        vfs.remove_dir(&ref_dir, true)
    }

    /// Rewrites this test's ignore file so that its temporary directories
    /// stay out of version control; the reference directory is covered
    /// unless the test is persistent.
    pub fn ignore_temporary_directories(&self, vfs: &mut Vfs, paths: &Paths, vcs: &Vcs) -> (r:
        Result<(), FsError>)
        requires
            self.wf(),
            old(vfs).wf(),
        ensures
            final(vfs).wf(),
            r is Ok ==> final(vfs)@ == old(vfs)@.insert(
                spec_ignore_file(paths, &self.spec_id(), vcs.kind_view()),
                EntryV::File(
                    FileDataV::Text(
                        spec_ignore_content(
                            vcs.kind_view(),
                            self.spec_ref_kind() == Some(ReferenceKind::Persistent),
                        ),
                    ),
                ),
            ),
            r is Err ==> final(vfs)@ == old(vfs)@,
    {
        let persistent = self.is_persistent();
        vcs.ignore(vfs, paths, &self.id, persistent)
    }

    /// Rewrites this test's ignore file so that the reference directory is
    /// kept out of version control.
    pub fn ignore_reference_documents(&self, vfs: &mut Vfs, paths: &Paths, vcs: &Vcs) -> (r: Result<
        (),
        FsError,
    >)
        requires
            self.wf(),
            old(vfs).wf(),
        ensures
            final(vfs).wf(),
            r is Ok ==> final(vfs)@ == old(vfs)@.insert(
                spec_ignore_file(paths, &self.spec_id(), vcs.kind_view()),
                EntryV::File(FileDataV::Text(spec_ignore_content(vcs.kind_view(), false))),
            ),
            r is Err ==> final(vfs)@ == old(vfs)@,
    {
        vcs.ignore(vfs, paths, &self.id, false)
    }

    /// Rewrites this test's ignore file so that the reference directory is
    /// committed again.
    pub fn unignore_reference_documents(&self, vfs: &mut Vfs, paths: &Paths, vcs: &Vcs) -> (r:
        Result<(), FsError>)
        requires
            self.wf(),
            old(vfs).wf(),
        ensures
            final(vfs).wf(),
            r is Ok ==> final(vfs)@ == old(vfs)@.insert(
                spec_ignore_file(paths, &self.spec_id(), vcs.kind_view()),
                EntryV::File(FileDataV::Text(spec_ignore_content(vcs.kind_view(), true))),
            ),
            r is Err ==> final(vfs)@ == old(vfs)@,
    {
        vcs.ignore(vfs, paths, &self.id, true)
    }

    /// Loads the test script source of this test, with the path it was read
    /// from.
    pub fn load_source(&self, vfs: &Vfs, paths: &Paths) -> (r: Result<(DiskPath, String), FsError>)
        requires
            self.wf(),
            vfs.wf(),
        ensures
            match r {
                Ok((p, content)) => {
                    &&& p@ == spec_test_script(paths, &self.spec_id())
                    &&& vfs@.dom().contains(p@)
                    &&& vfs@[p@] == EntryV::File(FileDataV::Text(content@))
                },
                Err(e) => e is NotFound <==> !vfs@.dom().contains(
                    spec_test_script(paths, &self.spec_id()),
                ),
            },
    {
        let script = paths.unit_test_script(&self.id);
        match vfs.read_text(&script) {
            Ok(content) => Ok((script, content)),
            Err(e) => Err(e),
        }
    }

    /// Loads the reference script source of this test, if it is ephemeral.
    pub fn load_reference_source(&self, vfs: &Vfs, paths: &Paths) -> (r: Result<
        Option<(DiskPath, String)>,
        FsError,
    >)
        requires
            self.wf(),
            vfs.wf(),
        ensures
            match r {
                Ok(Some((p, content))) => {
                    &&& self.spec_ref_kind() == Some(ReferenceKind::Ephemeral)
                    &&& p@ == spec_ref_script(paths, &self.spec_id())
                    &&& vfs@.dom().contains(p@)
                    &&& vfs@[p@] == EntryV::File(FileDataV::Text(content@))
                },
                Ok(None) => self.spec_ref_kind() != Some(ReferenceKind::Ephemeral),
                Err(e) => self.spec_ref_kind() == Some(ReferenceKind::Ephemeral) && (e is NotFound
                    <==> !vfs@.dom().contains(spec_ref_script(paths, &self.spec_id()))),
            },
    {
        if !self.is_ephemeral() {
            return Ok(None);
        }
        let ref_script = paths.unit_test_ref_script(&self.id);
        match vfs.read_text(&ref_script) {
            Ok(content) => Ok(Some((ref_script, content))),
            Err(e) => Err(e),
        }
    }

    /// Loads the persistent reference pages of this test, if it is
    /// persistent.
    pub fn load_reference_document(&self, vfs: &Vfs, paths: &Paths) -> (r: Result<
        Option<Document>,
        LoadError,
    >)
        requires
            self.wf(),
            vfs.wf(),
        ensures
            match r {
                Ok(Some(doc)) => self.spec_ref_kind() == Some(ReferenceKind::Persistent)
                    && doc@.len() >= 1 && doc.wf(),
                Ok(None) => self.spec_ref_kind() != Some(ReferenceKind::Persistent),
                Err(_) => self.spec_ref_kind() == Some(ReferenceKind::Persistent),
            },
            self.spec_ref_kind() == Some(ReferenceKind::Persistent) ==> match r {
                Ok(Some(doc)) => {
                    &&& (forall|i: int|
                        0 <= i < doc@.len() ==> vfs@[spec_ref_dir(paths, &self.spec_id()).push(
                            crate::document::page_file_name((i + 1) as nat),
                        )] == EntryV::File(FileDataV::Page(#[trigger] doc@[i])))
                    &&& (forall|n: u64|
                        1 <= n && crate::document::has_page(
                            vfs@,
                            spec_ref_dir(paths, &self.spec_id()),
                            n as nat,
                        ) ==> n <= doc@.len())
                },
                Ok(None) => false,
                Err(LoadError::MissingPages(found)) => {
                    &&& (forall|n: u64|
                        1 <= n ==> (crate::document::has_page(
                            vfs@,
                            spec_ref_dir(paths, &self.spec_id()),
                            n as nat,
                        ) <==> found@.contains(n)))
                    &&& (forall|a: int, b: int|
                        0 <= a < b < found@.len() ==> #[trigger] found@[a] < #[trigger] found@[b])
                    &&& (found@.len() == 0 || exists|n: u64|
                        1 <= n <= found@.last() && !crate::document::has_page(
                            vfs@,
                            spec_ref_dir(paths, &self.spec_id()),
                            n as nat,
                        ))
                },
                Err(LoadError::Decode { page }) => crate::document::has_page(
                    vfs@,
                    spec_ref_dir(paths, &self.spec_id()),
                    page as nat,
                ) && !(vfs@[spec_ref_dir(paths, &self.spec_id()).push(
                    crate::document::page_file_name(page as nat),
                )] matches crate::vfs::EntryV::File(crate::vfs::FileDataV::Page(p)) && p.wf()),
            },
            (self.spec_ref_kind() == Some(ReferenceKind::Persistent) && exists|n: u64|
                #[trigger] crate::document::spec_pages_exact(
                    vfs@,
                    spec_ref_dir(paths, &self.spec_id()),
                    n,
                )) ==> r is Ok,
    {
        if !self.is_persistent() {
            return Ok(None);
        }
        let ref_dir = paths.unit_test_ref_dir(&self.id);
        match Document::load(vfs, &ref_dir) {
            Ok(doc) => Ok(Some(doc)),
            Err(e) => Err(e),
        }
    }
}


/// After a conversion to ephemeral on a tree that holds the test script, the
/// layout matches the ephemeral row of the shape table, and collecting reads
/// the kind back as ephemeral.
pub proof fn lemma_make_ephemeral_shape(
    m: Map<Seq<Seq<char>>, EntryV>,
    paths: &Paths,
    id: &Id,
    vk: Option<VcsKind>,
)
    requires
        id.wf(),
        m.dom().contains(spec_test_script(paths, id)),
        m[spec_test_script(paths, id)] is File,
    ensures
        spec_shape(
            spec_make_ephemeral(m, paths, id, vk),
            paths,
            id,
            Some(ReferenceKind::Ephemeral),
        ),
        spec_collect_kind(spec_make_ephemeral(m, paths, id, vk), paths, id) == Some(
            Some(ReferenceKind::Ephemeral),
        ),
{
    lemma_layout(paths, id);
    let r = spec_make_ephemeral(m, paths, id, vk);
    assert(r[spec_test_script(paths, id)] == m[spec_test_script(paths, id)]);
    assert(r.dom().contains(spec_ref_script(paths, id)));
    assert(!r.dom().contains(spec_ref_dir(paths, id))) by {
        assert(spec_ref_dir(paths, id).is_prefix_of(spec_ref_dir(paths, id)));
    }
}

/// After a conversion to persistent on any tree, the layout matches the
/// persistent row of the shape table whenever the test script is present,
/// and collecting reads the kind back as persistent.
pub proof fn lemma_make_persistent_shape(
    m: Map<Seq<Seq<char>>, EntryV>,
    paths: &Paths,
    id: &Id,
    pages: Seq<crate::document::PageV>,
    vk: Option<VcsKind>,
)
    requires
        id.wf(),
        m.dom().contains(spec_test_script(paths, id)),
        m[spec_test_script(paths, id)] is File,
    ensures
        spec_shape(
            spec_make_persistent(m, paths, id, pages, vk),
            paths,
            id,
            Some(ReferenceKind::Persistent),
        ),
        spec_collect_kind(spec_make_persistent(m, paths, id, pages, vk), paths, id) == Some(
            Some(ReferenceKind::Persistent),
        ),
        forall|j: int|
            1 <= j <= pages.len() ==> #[trigger] crate::document::has_page(
                spec_make_persistent(m, paths, id, pages, vk),
                spec_ref_dir(paths, id),
                j as nat,
            ),
{
    lemma_layout(paths, id);
    let m1 = m.remove(spec_ref_script(paths, id));
    let m2 = m1.remove_keys(under(spec_ref_dir(paths, id)));
    let m3 = m2.insert(spec_ref_dir(paths, id), EntryV::Dir);
    crate::document::lemma_saved_props(m3, spec_ref_dir(paths, id), pages, pages.len() as int);
    let r = spec_make_persistent(m, paths, id, pages, vk);
    assert forall|j: int|
        1 <= j <= pages.len() implies #[trigger] crate::document::has_page(
        r,
        spec_ref_dir(paths, id),
        j as nat,
    ) by {
        let pk = spec_ref_dir(paths, id).push(crate::document::page_file_name(j as nat));
        assert(match vk {
            None => true,
            Some(k) => pk != spec_ignore_file(paths, id, k),
        }) by {
            assert(pk.len() == spec_ref_dir(paths, id).len() + 1);
        }
    }
    let ts = spec_test_script(paths, id);
    assert(m3.dom().contains(ts) && m3[ts] == m[ts]);
    assert forall|j: int|
        1 <= j <= pages.len() implies ts != #[trigger] spec_ref_dir(paths, id).push(
        crate::document::page_file_name(j as nat),
    ) by {
        assert(spec_ref_dir(paths, id).push(crate::document::page_file_name(j as nat)).len()
            == spec_ref_dir(paths, id).len() + 1);
    }
    assert(spec_saved(m3, spec_ref_dir(paths, id), pages, pages.len() as int).dom().contains(ts));
    assert(spec_saved(m3, spec_ref_dir(paths, id), pages, pages.len() as int)[ts] == m3[ts]);
    assert(r[ts] == m[ts]);
    assert(!r.dom().contains(spec_ref_script(paths, id))) by {
        assert forall|j: int|
            1 <= j <= pages.len() implies spec_ref_script(paths, id)
            != #[trigger] spec_ref_dir(paths, id).push(
            crate::document::page_file_name(j as nat),
        ) by {
            assert(spec_ref_dir(paths, id).push(
                crate::document::page_file_name(j as nat),
            ).len() == spec_ref_dir(paths, id).len() + 1);
        }
    }
    assert(r.dom().contains(spec_ref_dir(paths, id)) && r[spec_ref_dir(paths, id)] is Dir) by {
        assert forall|j: int|
            1 <= j <= pages.len() implies spec_ref_dir(paths, id)
            != #[trigger] spec_ref_dir(paths, id).push(
            crate::document::page_file_name(j as nat),
        ) by {
            assert(spec_ref_dir(paths, id).push(
                crate::document::page_file_name(j as nat),
            ).len() == spec_ref_dir(paths, id).len() + 1);
        }
    }
}

/// After a conversion to compile-only on a tree that holds the test script,
/// the layout matches the compile-only row of the shape table, and
/// collecting reads the kind back as compile-only.
pub proof fn lemma_make_compile_only_shape(m: Map<Seq<Seq<char>>, EntryV>, paths: &Paths, id: &Id)
    requires
        id.wf(),
        m.dom().contains(spec_test_script(paths, id)),
        m[spec_test_script(paths, id)] is File,
    ensures
        spec_shape(spec_make_compile_only(m, paths, id), paths, id, None),
        spec_collect_kind(spec_make_compile_only(m, paths, id), paths, id) == Some(
            None::<ReferenceKind>,
        ),
{
    lemma_layout(paths, id);
    let r = spec_make_compile_only(m, paths, id);
    assert(!r.dom().contains(spec_ref_dir(paths, id))) by {
        assert(spec_ref_dir(paths, id).is_prefix_of(spec_ref_dir(paths, id)));
    }
    assert(r[spec_test_script(paths, id)] == m[spec_test_script(paths, id)]);
}

/// Converting a test that is on disk to ephemeral twice leaves the same
/// tree as converting once.
pub proof fn lemma_make_ephemeral_idempotent(
    m: Map<Seq<Seq<char>>, EntryV>,
    paths: &Paths,
    id: &Id,
    vk: Option<VcsKind>,
)
    requires
        id.wf(),
        m.dom().contains(spec_test_script(paths, id)),
    ensures
        spec_make_ephemeral(spec_make_ephemeral(m, paths, id, vk), paths, id, vk)
            == spec_make_ephemeral(m, paths, id, vk),
{
    lemma_layout(paths, id);
    let one = spec_make_ephemeral(m, paths, id, vk);
    let ts = spec_test_script(paths, id);
    assert(one.dom().contains(ts) && one[ts] == m[ts]);
    assert(spec_make_ephemeral(one, paths, id, vk) =~= one);
}

/// Converting to persistent twice with the same reference document leaves
/// the same tree as converting once.
#[verifier::rlimit(60)]
#[verifier::spinoff_prover]
pub proof fn lemma_make_persistent_idempotent(
    m: Map<Seq<Seq<char>>, EntryV>,
    paths: &Paths,
    id: &Id,
    pages: Seq<crate::document::PageV>,
    vk: Option<VcsKind>,
)
    requires
        id.wf(),
    ensures
        spec_make_persistent(spec_make_persistent(m, paths, id, pages, vk), paths, id, pages, vk)
            == spec_make_persistent(m, paths, id, pages, vk),
{
    lemma_layout(paths, id);
    let rd = spec_ref_dir(paths, id);
    let rs = spec_ref_script(paths, id);
    let m1 = m.remove(rs);
    let m2 = m1.remove_keys(under(rd));
    let m3 = m2.insert(rd, EntryV::Dir);
    crate::document::lemma_saved_props(m3, rd, pages, pages.len() as int);
    let one = spec_make_persistent(m, paths, id, pages, vk);
    let o1 = one.remove(rs);
    let o2 = o1.remove_keys(under(rd));
    let o3 = o2.insert(rd, EntryV::Dir);
    crate::document::lemma_saved_props(o3, rd, pages, pages.len() as int);
    let two = spec_make_persistent(one, paths, id, pages, vk);
    assert(rd.is_prefix_of(rd));
    assert forall|j: int|
        1 <= j <= pages.len() implies rd.is_prefix_of(
        #[trigger] rd.push(crate::document::page_file_name(j as nat)),
    ) && rd.push(crate::document::page_file_name(j as nat)) != rd && rd.push(
        crate::document::page_file_name(j as nat),
    ) != rs && (match vk {
        None => true,
        Some(k) => rd.push(crate::document::page_file_name(j as nat)) != spec_ignore_file(
            paths,
            id,
            k,
        ),
    }) by {
        let pk = rd.push(crate::document::page_file_name(j as nat));
        assert(rd =~= pk.subrange(0, rd.len() as int));
        assert(pk.len() == rd.len() + 1);
    }
    assert(two =~= one) by {
        assert forall|x: Seq<Seq<char>>| true implies (two.dom().contains(x) <==> one.dom().contains(
            x,
        )) && (two.dom().contains(x) ==> two[x] == one[x]) by {
            let is_ig = match vk {
                None => false,
                Some(k) => x == spec_ignore_file(paths, id, k),
            };
            if is_ig {
            } else if x == rd {
            } else if exists|j: int|
                1 <= j <= pages.len() && x == #[trigger] rd.push(
                    crate::document::page_file_name(j as nat),
                ) {
            } else if rd.is_prefix_of(x) {
                // below the reference directory and no page of this save:
                // absent on both sides
                assert(!o2.dom().contains(x) && !m2.dom().contains(x));
                assert(!o3.dom().contains(x) && !m3.dom().contains(x));
            } else if x == rs {
                assert(!o1.dom().contains(x) && !m1.dom().contains(x));
                assert(!o3.dom().contains(x) && !m3.dom().contains(x));
            } else {
                // untouched on both sides
                assert(o3.dom().contains(x) <==> one.dom().contains(x));
                assert(o3.dom().contains(x) ==> o3[x] == one[x]);
            }
        }
    }
}

/// Converting to compile-only twice leaves the same tree as converting once.
pub proof fn lemma_make_compile_only_idempotent(
    m: Map<Seq<Seq<char>>, EntryV>,
    paths: &Paths,
    id: &Id,
)
    requires
        id.wf(),
    ensures
        spec_make_compile_only(spec_make_compile_only(m, paths, id), paths, id)
            == spec_make_compile_only(m, paths, id),
{
    lemma_layout(paths, id);
    assert(spec_make_compile_only(spec_make_compile_only(m, paths, id), paths, id)
        =~= spec_make_compile_only(m, paths, id));
}

} // verus!
