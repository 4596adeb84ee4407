//! The test suite: every test discovered under the test root, ordered by
//! identifier, with filtering into matched and skipped partitions and a
//! machine-readable rendering.

use vstd::prelude::*;

use crate::id::Id;
use crate::id::is_segment_ok;
use crate::id::join_segs;
use crate::id::lemma_join_injective;
use crate::id::lemma_join_push;
use crate::id::lemma_same_view_same_segs;
use crate::id::lemma_segments_ok;
use crate::id::lemma_template_no_slash;
use crate::id::seg_char;
use crate::id::spec_seg_ok;
use crate::id::template_id;
use crate::id::wf_id;
use crate::paths::Paths;
use crate::test::ReferenceKind;
use crate::test::Test;
use crate::test::source_is_ignored;
use crate::test::spec_collect_kind;
use crate::test::spec_source_ignored;
use crate::test::spec_test_dir;
use crate::test::spec_test_script;
use crate::test_set::TestSet;
use crate::test_set::spec_matches;
use crate::util::push_char;
use crate::util::str_chars;
use crate::vfs::EntryV;
use crate::vfs::FileDataV;
use crate::vfs::Vfs;

verus! {

/// Strict lexicographic order on identifier segments: segment sequences are
/// compared segment by segment, each segment character by character.
pub open spec fn spec_chars_lt(a: Seq<char>, b: Seq<char>) -> bool
    decreases a.len(),
{
    if b.len() == 0 {
        false
    } else if a.len() == 0 {
        true
    } else if (a[0] as u32) < (b[0] as u32) {
        true
    } else if (a[0] as u32) > (b[0] as u32) {
        false
    } else {
        spec_chars_lt(a.drop_first(), b.drop_first())
    }
}

/// Strict lexicographic order over segment sequences.
pub open spec fn spec_segs_lt(a: Seq<Seq<char>>, b: Seq<Seq<char>>) -> bool
    decreases a.len(),
{
    if b.len() == 0 {
        false
    } else if a.len() == 0 {
        true
    } else if spec_chars_lt(a[0], b[0]) {
        true
    } else if a[0] != b[0] {
        false
    } else {
        spec_segs_lt(a.drop_first(), b.drop_first())
    }
}

/// Compares two strings character by character.
fn chars_lt(a: &Vec<char>, b: &Vec<char>) -> (r: bool)
    ensures
        r == spec_chars_lt(a@, b@),
    decreases a@.len(),
{
    let an = a.len();
    let bn = b.len();
    proof {
        assert(a@.skip(0) =~= a@);
        assert(b@.skip(0) =~= b@);
    }
    let mut i: usize = 0;
    loop
        invariant
            an == a@.len(),
            bn == b@.len(),
            0 <= i <= an,
            i <= bn,
            spec_chars_lt(a@, b@) == spec_chars_lt(a@.skip(i as int), b@.skip(i as int)),
        decreases an - i,
    {
        proof {
            assert(a@.skip(i as int).len() == an - i && b@.skip(i as int).len() == bn - i);
        }
        if i == bn {
            proof {
                assert(!spec_chars_lt(a@.skip(i as int), b@.skip(i as int)));
            }
            return false;
        }
        if i == an {
            proof {
                assert(spec_chars_lt(a@.skip(i as int), b@.skip(i as int)));
            }
            return true;
        }
        let ca = a[i];
        let cb = b[i];
        proof {
            assert(a@.skip(i as int)[0] == a@[i as int]);
            assert(b@.skip(i as int)[0] == b@[i as int]);
            assert(a@.skip(i as int).drop_first() =~= a@.skip(i + 1));
            assert(b@.skip(i as int).drop_first() =~= b@.skip(i + 1));
        }
        if (ca as u32) < (cb as u32) {
            return true;
        }
        if (ca as u32) > (cb as u32) {
            return false;
        }
        i += 1;
    }
}

/// Compares two identifiers by their segments.
pub fn id_lt(a: &Id, b: &Id) -> (r: bool)
    requires
        a.wf(),
        b.wf(),
    ensures
        r == spec_segs_lt(a.segs_view(), b.segs_view()),
{
    let sa = a.components();
    let sb = b.components();
    let an = sa.len();
    let bn = sb.len();
    proof {
        assert(a.segs_view().skip(0) =~~= a.segs_view());
        assert(b.segs_view().skip(0) =~~= b.segs_view());
    }
    let mut i: usize = 0;
    loop
        invariant
            an == sa@.len(),
            bn == sb@.len(),
            sa.deep_view() == a.segs_view(),
            sb.deep_view() == b.segs_view(),
            0 <= i <= an,
            i <= bn,
            spec_segs_lt(a.segs_view(), b.segs_view()) == spec_segs_lt(
                a.segs_view().skip(i as int),
                b.segs_view().skip(i as int),
            ),
        decreases an - i,
    {
        proof {
            assert(a.segs_view().skip(i as int).len() == an - i);
            assert(b.segs_view().skip(i as int).len() == bn - i);
        }
        if i == bn {
            proof {
                assert(!spec_segs_lt(a.segs_view().skip(i as int), b.segs_view().skip(i as int)));
            }
            return false;
        }
        if i == an {
            proof {
                assert(spec_segs_lt(a.segs_view().skip(i as int), b.segs_view().skip(i as int)));
            }
            return true;
        }
        let ca = str_chars(sa[i].as_str());
        let cb = str_chars(sb[i].as_str());
        proof {
            assert(a.segs_view().skip(i as int)[0] == a.segs_view()[i as int]);
            assert(b.segs_view().skip(i as int)[0] == b.segs_view()[i as int]);
            assert(a.segs_view().skip(i as int).drop_first() =~= a.segs_view().skip(i + 1));
            assert(b.segs_view().skip(i as int).drop_first() =~= b.segs_view().skip(i + 1));
            assert(ca@ == a.segs_view()[i as int]);
            assert(cb@ == b.segs_view()[i as int]);
        }
        if chars_lt(&ca, &cb) {
            return true;
        }
        let eq = crate::util::str_eq(sa[i].as_str(), sb[i].as_str());
        if !eq {
            return false;
        }
        i += 1;
    }
}

/// The collected suite: tests in identifier order, and the identifiers of
/// nested tests, which are reported but not loaded.
/// Whether the tree holds a file node at the test script position of `id`.
pub open spec fn spec_script_present(
    m: Map<Seq<Seq<char>>, EntryV>,
    paths: &Paths,
    id: Id,
) -> bool {
    m.dom().contains(spec_test_script(paths, &id)) && m[spec_test_script(paths, &id)] is File
}

/// Whether a test stands strictly above `id` in the tree: a well-formed
/// identifier with fewer segments, prefixing `id`'s, whose directory holds
/// a test script of its own.
pub open spec fn spec_nested_below(
    m: Map<Seq<Seq<char>>, EntryV>,
    paths: &Paths,
    id: Id,
) -> bool {
    exists|o: Id|
        o.wf() && #[trigger] spec_script_present(m, paths, o) && o.segs_view().len()
            < id.segs_view().len() && o.segs_view() == id.segs_view().take(
            o.segs_view().len() as int,
        )
}

/// How many of the first `n` tests hold each reference kind: persistent,
/// then ephemeral, then compile-only.
pub open spec fn spec_kind_tally(tests: Seq<Test>, n: int) -> (int, int, int)
    decreases n,
{
    if n <= 0 {
        (0, 0, 0)
    } else {
        let prev = spec_kind_tally(tests, n - 1);
        match tests[n - 1].spec_ref_kind() {
            Some(ReferenceKind::Persistent) => (prev.0 + 1, prev.1, prev.2),
            Some(ReferenceKind::Ephemeral) => (prev.0, prev.1 + 1, prev.2),
            None => (prev.0, prev.1, prev.2 + 1),
        }
    }
}

/// Whether the identifier at `i` lies strictly below another one in the
/// list: one with fewer segments that prefix its own.
fn nested_within(found: &Vec<Id>, i: usize) -> (r: bool)
    requires
        i < found@.len(),
        forall|k: int| 0 <= k < found@.len() ==> (#[trigger] found@[k]).wf(),
    ensures
        r <==> exists|w: int|
            0 <= w < found@.len() && (#[trigger] found@[w]).segs_view().len()
                < found@[i as int].segs_view().len() && found@[w].segs_view()
                == found@[i as int].segs_view().take(found@[w].segs_view().len() as int),
{
    let id = found[i].duplicate();
    let mut nested = false;
    let mut j: usize = 0;
    while j < found.len()
        invariant
            0 <= j <= found@.len(),
            forall|k: int| 0 <= k < found@.len() ==> (#[trigger] found@[k]).wf(),
            i < found@.len(),
            id.wf(),
            id.segs_view() == found@[i as int].segs_view(),
            nested ==> exists|w: int|
                0 <= w < found@.len() && (#[trigger] found@[w]).segs_view().len()
                    < id.segs_view().len() && found@[w].segs_view() == id.segs_view().take(
                    found@[w].segs_view().len() as int,
                ),
            !nested ==> forall|w: int|
                0 <= w < j ==> !((#[trigger] found@[w]).segs_view().len()
                    < id.segs_view().len() && found@[w].segs_view() == id.segs_view().take(
                    found@[w].segs_view().len() as int,
                )),
        decreases found@.len() - j,
    {
        if j != i {
            let other = &found[j];
            let oc = other.components();
            let ic = id.components();
            if oc.len() < ic.len() {
                // a strictly shorter identifier whose segments prefix ours
                // makes us nested
                let mut all_eq = true;
                let mut k: usize = 0;
                while k < oc.len()
                    invariant
                        j < found@.len(),
                        oc@.len() < ic@.len(),
                        oc.deep_view() == found@[j as int].segs_view(),
                        ic.deep_view() == id.segs_view(),
                        oc@.len() == oc.deep_view().len(),
                        ic@.len() == ic.deep_view().len(),
                        0 <= k <= oc@.len(),
                        all_eq ==> forall|t: int|
                            0 <= t < k ==> #[trigger] oc.deep_view()[t] == ic.deep_view()[t],
                        !all_eq ==> exists|t: int|
                            0 <= t < oc.deep_view().len() && #[trigger] oc.deep_view()[t]
                                != ic.deep_view()[t],
                    decreases oc@.len() - k,
                {
                    if !crate::util::str_eq(oc[k].as_str(), ic[k].as_str()) {
                        proof {
                            assert(oc.deep_view()[k as int] == oc@[k as int]@);
                            assert(ic.deep_view()[k as int] == ic@[k as int]@);
                            assert(oc.deep_view()[k as int] != ic.deep_view()[k as int]);
                        }
                        all_eq = false;
                        k = oc.len();
                    } else {
                        proof {
                            assert(oc.deep_view()[k as int] == ic.deep_view()[k as int]);
                        }
                        k += 1;
                    }
                }
                if all_eq {
                    proof {
                        assert(found@[j as int].segs_view() =~~= id.segs_view().take(
                            found@[j as int].segs_view().len() as int,
                        ));
                    }
                    nested = true;
                    j = found.len();
                    continue ;
                } else {
                    proof {
                        let t = choose|t: int|
                            0 <= t < oc.deep_view().len() && #[trigger] oc.deep_view()[t]
                                != ic.deep_view()[t];
                        assert(found@[j as int].segs_view()[t] != id.segs_view().take(
                            oc.deep_view().len() as int,
                        )[t]);
                    }
                }
            } else {
                proof {
                    assert(!(found@[j as int].segs_view().len() < id.segs_view().len()));
                }
            }
        } else {
            proof {
                assert(found@[j as int].segs_view() == id.segs_view());
            }
        }
        j += 1;
    }
    nested
}

pub struct Suite {
    tests: Vec<Test>,
    nested: Vec<Id>,
}

impl Suite {
    /// The collected tests.
    pub closed spec fn tests_view(&self) -> Seq<Test> {
        self.tests@
    }

    /// The identifiers of nested tests.
    pub closed spec fn nested_view(&self) -> Seq<Id> {
        self.nested@
    }

    /// Validity: every test is valid and the order is strictly by identifier
    /// segments.
    pub open spec fn wf(self) -> bool {
        &&& (forall|i: int| 0 <= i < self.tests_view().len() ==> (#[trigger] self.tests_view()[i]).wf())
        &&& (forall|i: int, j: int|
            0 <= i < j < self.tests_view().len() ==> spec_segs_lt(
                (#[trigger] self.tests_view()[i]).spec_id().segs_view(),
                (#[trigger] self.tests_view()[j]).spec_id().segs_view(),
            ))
    }

    /// An empty suite.
    pub fn new() -> (r: Suite)
        ensures
            r.wf(),
            r.tests_view().len() == 0,
            r.nested_view().len() == 0,
    {
        Suite { tests: Vec::new(), nested: Vec::new() }
    }

    /// The tests, in identifier order.
    pub fn tests(&self) -> (r: &Vec<Test>)
        ensures
            r@ == self.tests_view(),
    {
        &self.tests
    }

    /// The identifiers of nested tests.
    pub fn nested(&self) -> (r: &Vec<Id>)
        ensures
            r@ == self.nested_view(),
    {
        &self.nested
    }

    /// The number of tests.
    pub fn len(&self) -> (r: usize)
        ensures
            r == self.tests_view().len(),
    {
        self.tests.len()
    }

    /// Collects the suite from the tree: every file named `test.typ` under
    /// the test root is a test, its identifier the directory path relative
    /// to the test root. The reference kind is read off the layout, the
    /// `ignored` annotation off the leading doc comment lines of the source.
    /// A test inside another test's directory is reported as nested and not
    /// loaded.
    ///
    /// Every loaded test reflects the tree: its kind is what collecting the
    /// tree at its identifier reads, and its `ignored` flag is what the
    /// script's source states. The suite is also complete: every well-formed
    /// identifier whose directory holds a textual test script, with no test
    /// standing above it, is loaded.
    pub fn collect(vfs: &Vfs, paths: &Paths) -> (r: Suite)
        requires
            vfs.wf(),
        ensures
            r.wf(),
            forall|i: int|
                0 <= i < r.tests_view().len() ==> spec_collect_kind(
                    vfs@,
                    paths,
                    &(#[trigger] r.tests_view()[i]).spec_id(),
                ) == Some(r.tests_view()[i].spec_ref_kind()),
            forall|i: int|
                0 <= i < r.tests_view().len() ==> (vfs@[spec_test_script(
                    paths,
                    &(#[trigger] r.tests_view()[i]).spec_id(),
                )] matches EntryV::File(FileDataV::Text(t))
                    ==> r.tests_view()[i].spec_is_ignored() == spec_source_ignored(t)),
            forall|id2: Id|
                (#[trigger] spec_script_present(vfs@, paths, id2)) && id2.wf() && (vfs@[spec_test_script(
                    paths,
                    &id2,
                )] matches EntryV::File(FileDataV::Text(_))) && !spec_nested_below(
                    vfs@,
                    paths,
                    id2,
                ) ==> exists|i: int|
                    0 <= i < r.tests_view().len() && (#[trigger] r.tests_view()[i]).spec_id()@
                        == id2@,
    {
        let root = paths.test_root();
        let scripts = vfs.files_named("test.typ");
        let mut found: Vec<Id> = Vec::new();
        let mut i: usize = 0;
        // derive the identifiers of all test scripts under the root
        while i < scripts.len()
            invariant
                vfs.wf(),
                root@ == paths.spec_test_root(),
                0 <= i <= scripts@.len(),
                forall|a: int|
                    0 <= a < scripts@.len() ==> {
                        &&& vfs@.dom().contains((#[trigger] scripts@[a])@)
                        &&& vfs@[scripts@[a]@] is File
                        &&& scripts@[a]@.len() > 0
                        &&& scripts@[a]@.last() == "test.typ"@
                    },
                forall|k: int| 0 <= k < found@.len() ==> (#[trigger] found@[k]).wf(),
                forall|k: int|
                    0 <= k < found@.len() ==> spec_script_present(
                        vfs@,
                        paths,
                        #[trigger] found@[k],
                    ),
                forall|id2: Id|
                    #![trigger spec_test_script(paths, &id2)]
                    id2.wf() && (exists|si: int|
                        0 <= si < i && (#[trigger] scripts@[si])@ == spec_test_script(
                            paths,
                            &id2,
                        )) ==> exists|fi: int|
                        0 <= fi < found@.len() && (#[trigger] found@[fi])@ == id2@,
            decreases scripts@.len() - i,
        {
            let script = &scripts[i];
            let ghost pre_found = found@;
            let ghost mid = script@.subrange(root@.len() as int, script@.len() - 1);
            let under = script.starts_with(&root) && script.len() >= 2 && script.len() - 2
                >= root.len();
            if under {
                // the segments between the test root and `test.typ`
                let mut segs: Vec<String> = Vec::new();
                let mut ok = true;
                let mut k = root.len();
                while k < script.len() - 1
                    invariant
                        script@ == scripts@[i as int]@,
                        script@.len() >= 2,
                        script@.len() - 2 >= root@.len(),
                        root@.len() <= k <= script@.len() - 1,
                        segs.deep_view() =~~= script@.subrange(root@.len() as int, k as int),
                        ok <==> (forall|t: int|
                            0 <= t < segs.deep_view().len() ==> spec_seg_ok(
                                #[trigger] segs.deep_view()[t],
                            )),
                    decreases script@.len() - 1 - k,
                {
                    let part = script.part(k);
                    let seg_fine = is_segment_ok(part.as_str());
                    let ghost before_segs = segs.deep_view();
                    segs.push(part.clone());
                    proof {
                        assert(segs.deep_view() =~~= before_segs.push(script@[k as int]));
                        assert(segs.deep_view() =~~= script@.subrange(root@.len() as int, k + 1));
                    }
                    if !seg_fine {
                        ok = false;
                    }
                    proof {
                        assert(segs.deep_view().len() == before_segs.len() + 1);
                        assert(segs.deep_view()[before_segs.len() as int] == script@[k as int]);
                        assert(forall|t: int|
                            0 <= t < before_segs.len() ==> #[trigger] segs.deep_view()[t]
                                == before_segs[t]);
                        assert(seg_fine == spec_seg_ok(segs.deep_view()[before_segs.len() as int]));
                        if !ok {
                            if seg_fine {
                                let t0 = choose|t0: int|
                                    0 <= t0 < before_segs.len() && !spec_seg_ok(
                                        #[trigger] before_segs[t0],
                                    );
                                assert(!spec_seg_ok(segs.deep_view()[t0]));
                            } else {
                                assert(!spec_seg_ok(
                                    segs.deep_view()[before_segs.len() as int],
                                ));
                            }
                        }
                    }
                    k += 1;
                }
                proof {
                    assert(segs.deep_view() =~~= mid);
                    assert(mid.len() >= 1);
                }
                // join the segments into the rendered identifier
                let mut name = String::new();
                let mut q: usize = 0;
                while q < segs.len()
                    invariant
                        segs.deep_view() =~~= mid,
                        segs@.len() == mid.len(),
                        0 <= q <= segs@.len(),
                        q == 0 ==> name@ == Seq::<char>::empty(),
                        q > 0 ==> name@ == join_segs(segs.deep_view().take(q as int)),
                    decreases segs@.len() - q,
                {
                    if q > 0 {
                        push_char(&mut name, '/');
                    }
                    name.append(segs[q].as_str());
                    proof {
                        lemma_join_push(
                            segs.deep_view().take(q as int),
                            segs.deep_view()[q as int],
                        );
                        assert(segs.deep_view().take(q + 1) =~~= segs.deep_view().take(
                            q as int,
                        ).push(segs.deep_view()[q as int]));
                        if q == 0 {
                            assert(name@ =~= join_segs(segs.deep_view().take(1)));
                        } else {
                            assert(name@ =~= join_segs(segs.deep_view().take(q + 1)));
                        }
                    }
                    q += 1;
                }
                proof {
                    assert(segs.deep_view().take(segs.deep_view().len() as int)
                        =~~= segs.deep_view());
                    assert(name@ == join_segs(mid));
                }
                if ok {
                    match Id::new(name.as_str()) {
                        Ok(id) => {
                            let ghost gid = id;
                            proof {
                                // every accepted component is non-empty and
                                // free of separators, so the parsed identifier
                                // splits the joined name back into exactly the
                                // path components
                                lemma_template_no_slash();
                                assert(!seg_char('/'));
                                assert forall|t: int, j: int|
                                    0 <= t < mid.len() && 0 <= j
                                        < mid[t].len() implies #[trigger] mid[t][j] != '/' by {
                                    if mid[t] == template_id() {
                                    } else {
                                        assert(seg_char(mid[t][j]));
                                    }
                                }
                                assert forall|t: int|
                                    0 <= t < mid.len() implies (#[trigger] mid[t]).len() > 0 by {
                                    if mid[t] == template_id() {
                                        assert(template_id().len() == 9);
                                    }
                                }
                                assert(join_segs(id.segs_view()) == join_segs(mid));
                                lemma_join_injective(id.segs_view(), mid);
                                assert(id.segs_view() == mid);
                                // this node is the identifier's script position
                                assert(script@.subrange(0, root@.len() as int) =~~= root@);
                                assert(spec_test_script(paths, &id) =~~= script@);
                                assert(spec_script_present(vfs@, paths, id));
                            }
                            found.push(id);
                            proof {
                                assert(forall|a: int|
                                    0 <= a < pre_found.len() ==> #[trigger] found@[a]
                                        == pre_found[a]);
                                assert(found@[pre_found.len() as int] == gid);
                            }
                        },
                        Err(_) => {
                        },
                    }
                }
                proof {
                    assert((forall|t: int| 0 <= t < mid.len() ==> spec_seg_ok(#[trigger] mid[t]))
                        && wf_id(join_segs(mid)) ==> found@.len() == pre_found.len() + 1
                        && found@[pre_found.len() as int]@ == join_segs(mid)
                        && found@[pre_found.len() as int].wf());
                    assert(forall|a: int|
                        0 <= a < pre_found.len() ==> #[trigger] found@[a] == pre_found[a]);
                }
            }
            proof {
                assert forall|id2: Id|
                    id2.wf() && (exists|si: int|
                        0 <= si < i + 1 && (#[trigger] scripts@[si])@ == spec_test_script(
                            paths,
                            &id2,
                        )) implies exists|fi: int|
                    0 <= fi < found@.len() && (#[trigger] found@[fi])@ == id2@ by {
                    let si = choose|si: int|
                        0 <= si < i + 1 && (#[trigger] scripts@[si])@ == spec_test_script(
                            paths,
                            &id2,
                        );
                    if si < i {
                        let fi = choose|fi: int|
                            0 <= fi < pre_found.len() && (#[trigger] pre_found[fi])@ == id2@;
                        assert(found@[fi]@ == id2@);
                    } else {
                        // this very node: the branch above ran and pushed it
                        assert(script@ == spec_test_script(paths, &id2));
                        assert(script@ =~~= (paths.spec_test_root() + id2.segs_view()).push(
                            "test.typ"@,
                        ));
                        assert(script@.len() == root@.len() + id2.segs_view().len() + 1);
                        assert(script@.subrange(0, root@.len() as int) =~~= root@);
                        assert(root@.is_prefix_of(script@));
                        assert(under);
                        assert(mid =~~= id2.segs_view());
                        lemma_segments_ok(&id2);
                        assert(forall|t: int|
                            0 <= t < mid.len() ==> spec_seg_ok(#[trigger] mid[t]));
                        assert(join_segs(mid) == id2@);
                        assert(wf_id(id2@));
                        assert(found@[pre_found.len() as int]@ == id2@);
                    }
                }
            }
            i += 1;
        }
        // nested tests: an identifier below another found identifier
        let mut suite = Suite::new();
        let mut i: usize = 0;
        while i < found.len()
            invariant
                vfs.wf(),
                0 <= i <= found@.len(),
                forall|k: int| 0 <= k < found@.len() ==> (#[trigger] found@[k]).wf(),
                forall|k: int|
                    0 <= k < found@.len() ==> spec_script_present(
                        vfs@,
                        paths,
                        #[trigger] found@[k],
                    ),
                suite.wf(),
                forall|k: int|
                    0 <= k < suite.tests_view().len() ==> spec_collect_kind(
                        vfs@,
                        paths,
                        &(#[trigger] suite.tests_view()[k]).spec_id(),
                    ) == Some(suite.tests_view()[k].spec_ref_kind()),
                forall|k: int|
                    0 <= k < suite.tests_view().len() ==> (vfs@[spec_test_script(
                        paths,
                        &(#[trigger] suite.tests_view()[k]).spec_id(),
                    )] matches EntryV::File(FileDataV::Text(t))
                        ==> suite.tests_view()[k].spec_is_ignored() == spec_source_ignored(t)),
                forall|id2: Id|
                    #![trigger spec_test_script(paths, &id2)]
                    id2.wf() && (exists|fi: int|
                        0 <= fi < i && (#[trigger] found@[fi])@ == id2@) && (vfs@[spec_test_script(
                        paths,
                        &id2,
                    )] matches EntryV::File(FileDataV::Text(_))) && !spec_nested_below(
                        vfs@,
                        paths,
                        id2,
                    ) ==> exists|t: int|
                        0 <= t < suite.tests_view().len()
                            && (#[trigger] suite.tests_view()[t]).spec_id()@ == id2@,
            decreases found@.len() - i,
        {
            let nested = nested_within(&found, i);
            let id = found[i].duplicate();
            if nested {
                proof {
                    assert forall|id2: Id|
                        id2.wf() && found@[i as int]@ == id2@ && !spec_nested_below(
                            vfs@,
                            paths,
                            id2,
                        ) implies false by {
                        lemma_same_view_same_segs(&id, &id2);
                        let w = choose|w: int|
                            0 <= w < found@.len() && (#[trigger] found@[w]).segs_view().len()
                                < id.segs_view().len() && found@[w].segs_view()
                                == id.segs_view().take(found@[w].segs_view().len() as int);
                        assert(spec_script_present(vfs@, paths, found@[w]));
                        assert(found@[w].segs_view() == id2.segs_view().take(
                            found@[w].segs_view().len() as int,
                        ));
                        assert(spec_nested_below(vfs@, paths, id2));
                    }
                }
                suite.push_nested(id);
                i += 1;
                continue ;
            }
            // read the kind off the layout
            let ref_script = paths.unit_test_ref_script(&id);
            let ref_dir = paths.unit_test_ref_dir(&id);
            let script = paths.unit_test_script(&id);
            proof {
                assert(spec_test_script(paths, &id) == spec_test_script(
                    paths,
                    &found@[i as int],
                ));
                assert(vfs@.dom().contains(script@));
            }
            if !vfs.try_exists(&script) {
                proof {
                    assert(false);
                }
                i += 1;
                continue ;
            }
            let kind = if vfs.try_exists(&ref_script) {
                Some(ReferenceKind::Ephemeral)
            } else if vfs.try_exists(&ref_dir) {
                Some(ReferenceKind::Persistent)
            } else {
                None
            };
            let is_ignored = match vfs.read_text(&script) {
                Ok(source) => source_is_ignored(source.as_str()),
                Err(_) => {
                    // the node is no text file, so no test is loaded here
                    proof {
                        assert forall|id2: Id|
                            id2.wf() && found@[i as int]@ == id2@ && (vfs@[spec_test_script(
                                paths,
                                &id2,
                            )] matches EntryV::File(FileDataV::Text(_))) implies false by {
                            lemma_same_view_same_segs(&id, &id2);
                            assert(spec_test_script(paths, &id2) == script@);
                        }
                    }
                    i += 1;
                    continue ;
                },
            };
            let test = Test::new_test(id, kind, is_ignored);
            let ghost pre_tests = suite.tests_view();
            let ghost gtest = test;
            suite.insert(test);
            proof {
                assert forall|id2: Id|
                    id2.wf() && (exists|fi: int|
                        0 <= fi < i + 1 && (#[trigger] found@[fi])@ == id2@) && (vfs@[spec_test_script(
                        paths,
                        &id2,
                    )] matches EntryV::File(FileDataV::Text(_))) && !spec_nested_below(
                        vfs@,
                        paths,
                        id2,
                    ) implies exists|t: int|
                    0 <= t < suite.tests_view().len()
                        && (#[trigger] suite.tests_view()[t]).spec_id()@ == id2@ by {
                    let fi = choose|fi: int|
                        0 <= fi < i + 1 && (#[trigger] found@[fi])@ == id2@;
                    if fi < i {
                        let t0 = choose|t0: int|
                            0 <= t0 < pre_tests.len() && (#[trigger] pre_tests[t0]).spec_id()@
                                == id2@;
                        assert(pre_tests.contains(pre_tests[t0]));
                        assert(suite.tests_view().contains(pre_tests[t0]));
                        let t1 = choose|t1: int|
                            0 <= t1 < suite.tests_view().len()
                                && #[trigger] suite.tests_view()[t1] == pre_tests[t0];
                        assert(suite.tests_view()[t1].spec_id()@ == id2@);
                    } else {
                        let t1 = choose|t1: int|
                            0 <= t1 < suite.tests_view().len()
                                && (#[trigger] suite.tests_view()[t1]).spec_id()@
                                == gtest.spec_id()@;
                        assert(suite.tests_view()[t1].spec_id()@ == id2@);
                    }
                }
            }
            i += 1;
        }
        proof {
            assert forall|id2: Id|
                (#[trigger] spec_script_present(vfs@, paths, id2)) && id2.wf() && (vfs@[spec_test_script(
                    paths,
                    &id2,
                )] matches EntryV::File(FileDataV::Text(_))) && !spec_nested_below(
                    vfs@,
                    paths,
                    id2,
                ) implies exists|t: int|
                0 <= t < suite.tests_view().len() && (#[trigger] suite.tests_view()[t]).spec_id()@
                    == id2@ by {
                let key = spec_test_script(paths, &id2);
                assert(key.len() > 0);
                assert(key.last() == "test.typ"@);
                assert(vfs@.dom().contains(key) && vfs@[key] is File);
                assert(exists|si: int|
                    0 <= si < scripts@.len() && (#[trigger] scripts@[si])@ == key);
                assert(exists|fi: int|
                    0 <= fi < found@.len() && (#[trigger] found@[fi])@ == id2@);
            }
        }
        suite
    }

    /// Counts the tests by reference kind.
    pub fn kind_tally(&self) -> (r: (usize, usize, usize))
        ensures
            (r.0 as int, r.1 as int, r.2 as int) == spec_kind_tally(
                self.tests_view(),
                self.tests_view().len() as int,
            ),
            r.0 + r.1 + r.2 == self.tests_view().len(),
    {
        let mut persistent: usize = 0;
        let mut ephemeral: usize = 0;
        let mut compile_only: usize = 0;
        let n = self.tests.len();
        let mut i: usize = 0;
        while i < n
            invariant
                n == self.tests_view().len(),
                0 <= i <= n,
                persistent + ephemeral + compile_only == i,
                (persistent as int, ephemeral as int, compile_only as int) == spec_kind_tally(
                    self.tests_view(),
                    i as int,
                ),
            decreases n - i,
        {
            match self.tests[i].ref_kind() {
                Some(ReferenceKind::Persistent) => {
                    persistent += 1;
                },
                Some(ReferenceKind::Ephemeral) => {
                    ephemeral += 1;
                },
                None => {
                    compile_only += 1;
                },
            }
            i += 1;
        }
        (persistent, ephemeral, compile_only)
    }

    /// Records the identifier of a nested test.
    pub fn push_nested(&mut self, id: Id)
        ensures
            final(self).tests_view() == old(self).tests_view(),
            final(self).nested_view() == old(self).nested_view().push(id),
            old(self).wf() ==> final(self).wf(),
    {
        self.nested.push(id);
    }

    /// Inserts a test at its place in identifier order; a test with an
    /// identifier already present is dropped.
    pub fn insert(&mut self, test: Test)
        requires
            old(self).wf(),
            test.wf(),
        ensures
            final(self).wf(),
            final(self).nested_view() == old(self).nested_view(),
            forall|i: int|
                0 <= i < final(self).tests_view().len() ==> (#[trigger] final(self).tests_view()[i])
                    == test || old(self).tests_view().contains(
                    final(self).tests_view()[i],
                ),
            exists|i: int|
                0 <= i < final(self).tests_view().len() && (#[trigger] final(self).tests_view()[i]).spec_id()@
                    == test.spec_id()@,
            forall|t: Test|
                old(self).tests_view().contains(t) ==> final(self).tests_view().contains(t),
    {
        let n = self.tests.len();
        proof {
            assert forall|k: int| 0 <= k < n implies (#[trigger] self.tests@[k]).wf() by {
                assert(self.tests_view()[k].wf());
            }
        }
        let mut pos: usize = 0;
        while pos < n && id_lt(self.tests[pos].id(), test.id())
            invariant
                self.wf(),
                *self == *old(self),
                test.wf(),
                forall|k: int| 0 <= k < n ==> (#[trigger] self.tests@[k]).wf(),
                n == self.tests@.len(),
                0 <= pos <= n,
                forall|k: int|
                    0 <= k < pos ==> spec_segs_lt(
                        (#[trigger] self.tests_view()[k]).spec_id().segs_view(),
                        test.spec_id().segs_view(),
                    ),
            decreases n - pos,
        {
            pos += 1;
        }
        if pos < n {
            proof {
                assert(self.tests@[pos as int].wf());
            }
            if !id_lt(test.id(), self.tests[pos].id()) {
                // neither is smaller: the identifiers coincide; keep the first
                proof {
                    lemma_segs_lt_connected(
                        self.tests@[pos as int].spec_id().segs_view(),
                        test.spec_id().segs_view(),
                    );
                    assert(self.tests@[pos as int].spec_id().segs_view()
                        == test.spec_id().segs_view());
                    assert(self.tests_view()[pos as int].spec_id()@ == test.spec_id()@);
                    assert(forall|t: Test|
                        old(self).tests_view().contains(t) ==> final(self).tests_view().contains(
                            t,
                        ));
                }
                return ;
            }
        }
        let ghost before = self.tests@;
        self.tests.insert(pos, test);
        proof {
            assert(forall|k: int| 0 <= k < pos ==> self.tests@[k] == before[k]);
            assert(self.tests@[pos as int] == test);
            assert(forall|k: int| pos < k < self.tests@.len() ==> self.tests@[k] == before[k - 1]);
            assert(before =~= old(self).tests_view());
            assert forall|a: int, b: int|
                0 <= a < b < self.tests_view().len() implies spec_segs_lt(
                (#[trigger] self.tests_view()[a]).spec_id().segs_view(),
                (#[trigger] self.tests_view()[b]).spec_id().segs_view(),
            ) by {
                if a == pos {
                    // the new test precedes its old right neighbour, and by
                    // transitivity everything after it
                    assert(spec_segs_lt(
                        test.spec_id().segs_view(),
                        old(self).tests_view()[pos as int].spec_id().segs_view(),
                    ));
                    if b - 1 > pos {
                        assert(spec_segs_lt(
                            (old(self).tests_view()[pos as int]).spec_id().segs_view(),
                            (old(self).tests_view()[b - 1]).spec_id().segs_view(),
                        ));
                        lemma_segs_lt_trans(
                            test.spec_id().segs_view(),
                            old(self).tests_view()[pos as int].spec_id().segs_view(),
                            old(self).tests_view()[b - 1].spec_id().segs_view(),
                        );
                    }
                    assert(before[b - 1] == old(self).tests_view()[b - 1]);
                } else if b == pos {
                    assert(self.tests_view()[a] == old(self).tests_view()[a]);
                } else if a < pos && b > pos {
                    assert(spec_segs_lt(
                        (old(self).tests_view()[a]).spec_id().segs_view(),
                        (old(self).tests_view()[b - 1]).spec_id().segs_view(),
                    ));
                } else if a < pos && b < pos {
                    assert(spec_segs_lt(
                        (old(self).tests_view()[a]).spec_id().segs_view(),
                        (old(self).tests_view()[b]).spec_id().segs_view(),
                    ));
                } else if a > pos {
                    assert(spec_segs_lt(
                        (old(self).tests_view()[a - 1]).spec_id().segs_view(),
                        (old(self).tests_view()[b - 1]).spec_id().segs_view(),
                    ));
                }
            }
            assert(forall|i: int|
                0 <= i < self.tests@.len() && self.tests@[i] != test ==> before.contains(
                    #[trigger] self.tests@[i],
                ));
            assert(self.tests_view()[pos as int].spec_id()@ == test.spec_id()@);
            assert forall|t: Test| before.contains(t) implies self.tests@.contains(t) by {
                let w = choose|w: int| 0 <= w < before.len() && before[w] == t;
                if w < pos {
                    assert(self.tests@[w] == t);
                } else {
                    assert(self.tests@[w + 1] == t);
                }
            }
        }
    }

    /// Applies a filter: tests in the set go to `matched`, the rest to
    /// `filtered`, both keeping identifier order.
    pub fn filter(self, set: &TestSet) -> (r: (Vec<Test>, Vec<Test>))
        requires
            self.wf(),
            set.wf(),
        ensures
            r.0@.len() + r.1@.len() == self.tests_view().len(),
            forall|i: int|
                0 <= i < r.0@.len() ==> spec_matches(
                    set.expr_view(),
                    (#[trigger] r.0@[i]).spec_id()@,
                    r.0@[i].spec_ref_kind(),
                    r.0@[i].spec_is_ignored(),
                ) && self.tests_view().contains(r.0@[i]),
            forall|i: int|
                0 <= i < r.1@.len() ==> !spec_matches(
                    set.expr_view(),
                    (#[trigger] r.1@[i]).spec_id()@,
                    r.1@[i].spec_ref_kind(),
                    r.1@[i].spec_is_ignored(),
                ) && self.tests_view().contains(r.1@[i]),
            forall|i: int|
                0 <= i < self.tests_view().len() ==> (r.0@.contains(
                    #[trigger] self.tests_view()[i],
                ) || r.1@.contains(self.tests_view()[i])),
            forall|a: int, b: int|
                0 <= a < b < r.0@.len() ==> spec_segs_lt(
                    (#[trigger] r.0@[a]).spec_id().segs_view(),
                    (#[trigger] r.0@[b]).spec_id().segs_view(),
                ),
            forall|a: int, b: int|
                0 <= a < b < r.1@.len() ==> spec_segs_lt(
                    (#[trigger] r.1@[a]).spec_id().segs_view(),
                    (#[trigger] r.1@[b]).spec_id().segs_view(),
                ),
    {
        let ghost orig = self.tests@;
        let total = self.tests.len();
        proof {
            assert forall|k: int| 0 <= k < orig.len() implies (#[trigger] orig[k]).wf() by {
                assert(self.tests_view()[k].wf());
            }
            assert forall|a: int, b: int|
                0 <= a < b < orig.len() implies spec_segs_lt(
                (#[trigger] orig[a]).spec_id().segs_view(),
                (#[trigger] orig[b]).spec_id().segs_view(),
            ) by {
                assert(spec_segs_lt(
                    self.tests_view()[a].spec_id().segs_view(),
                    self.tests_view()[b].spec_id().segs_view(),
                ));
            }
        }
        let mut rest = self.tests;
        let mut matched: Vec<Test> = Vec::new();
        let mut filtered: Vec<Test> = Vec::new();
        let ghost mut midx: Seq<int> = Seq::empty();
        let ghost mut fidx: Seq<int> = Seq::empty();
        let mut i: usize = 0;
        while rest.len() > 0
            invariant
                set.wf(),
                total == orig.len(),
                0 <= i <= orig.len(),
                rest@ =~= orig.skip(i as int),
                forall|k: int| 0 <= k < orig.len() ==> (#[trigger] orig[k]).wf(),
                forall|a: int, b: int|
                    0 <= a < b < orig.len() ==> spec_segs_lt(
                        (#[trigger] orig[a]).spec_id().segs_view(),
                        (#[trigger] orig[b]).spec_id().segs_view(),
                    ),
                midx.len() == matched@.len(),
                fidx.len() == filtered@.len(),
                forall|k: int| 0 <= k < midx.len() ==> 0 <= #[trigger] midx[k] < i,
                forall|k: int| 0 <= k < fidx.len() ==> 0 <= #[trigger] fidx[k] < i,
                forall|a: int, b: int| 0 <= a < b < midx.len() ==> midx[a] < midx[b],
                forall|a: int, b: int| 0 <= a < b < fidx.len() ==> fidx[a] < fidx[b],
                forall|k: int| 0 <= k < midx.len() ==> (#[trigger] matched@[k]) == orig[midx[k]],
                forall|k: int| 0 <= k < fidx.len() ==> (#[trigger] filtered@[k]) == orig[fidx[k]],
                matched@.len() + filtered@.len() == i,
                forall|k: int|
                    0 <= k < matched@.len() ==> spec_matches(
                        set.expr_view(),
                        (#[trigger] matched@[k]).spec_id()@,
                        matched@[k].spec_ref_kind(),
                        matched@[k].spec_is_ignored(),
                    ) && orig.contains(matched@[k]),
                forall|k: int|
                    0 <= k < filtered@.len() ==> !spec_matches(
                        set.expr_view(),
                        (#[trigger] filtered@[k]).spec_id()@,
                        filtered@[k].spec_ref_kind(),
                        filtered@[k].spec_is_ignored(),
                    ) && orig.contains(filtered@[k]),
                forall|k: int|
                    0 <= k < i ==> (matched@.contains(#[trigger] orig[k]) || filtered@.contains(
                        orig[k],
                    )),
            decreases rest@.len(),
        {
            proof {
                assert(rest@.len() == orig.len() - i);
            }
            let t = rest.remove(0);
            proof {
                assert(t == orig[i as int]);
                assert(orig.contains(orig[i as int]));
                assert(rest@ =~= orig.skip(i + 1));
            }
            if set.contains(&t) {
                let ghost before = matched@;
                matched.push(t);
                proof {
                    midx = midx.push(i as int);
                    assert(forall|k: int| 0 <= k < before.len() ==> matched@[k] == before[k]);
                    assert(matched@[matched@.len() - 1] == orig[i as int]);
                    assert(matched@.contains(orig[i as int]));
                    assert forall|k: int|
                        0 <= k < i + 1 implies (matched@.contains(#[trigger] orig[k])
                        || filtered@.contains(orig[k])) by {
                        if k < i {
                            if before.contains(orig[k]) {
                                let w = choose|w: int| 0 <= w < before.len() && before[w] == orig[k];
                                assert(matched@[w] == orig[k]);
                            }
                        }
                    }
                }
            } else {
                let ghost before = filtered@;
                filtered.push(t);
                proof {
                    fidx = fidx.push(i as int);
                    assert(forall|k: int| 0 <= k < before.len() ==> filtered@[k] == before[k]);
                    assert(filtered@[filtered@.len() - 1] == orig[i as int]);
                    assert(filtered@.contains(orig[i as int]));
                    assert forall|k: int|
                        0 <= k < i + 1 implies (matched@.contains(#[trigger] orig[k])
                        || filtered@.contains(orig[k])) by {
                        if k < i {
                            if before.contains(orig[k]) {
                                let w = choose|w: int| 0 <= w < before.len() && before[w] == orig[k];
                                assert(filtered@[w] == orig[k]);
                            }
                        }
                    }
                }
            }
            i += 1;
        }
        proof {
            assert(i == orig.len());
            assert forall|a: int, b: int|
                0 <= a < b < matched@.len() implies spec_segs_lt(
                (#[trigger] matched@[a]).spec_id().segs_view(),
                (#[trigger] matched@[b]).spec_id().segs_view(),
            ) by {
                assert(matched@[a] == orig[midx[a]] && matched@[b] == orig[midx[b]]);
                assert(midx[a] < midx[b]);
            }
            assert forall|a: int, b: int|
                0 <= a < b < filtered@.len() implies spec_segs_lt(
                (#[trigger] filtered@[a]).spec_id().segs_view(),
                (#[trigger] filtered@[b]).spec_id().segs_view(),
            ) by {
                assert(filtered@[a] == orig[fidx[a]] && filtered@[b] == orig[fidx[b]]);
                assert(fidx[a] < fidx[b]);
            }
        }
        (matched, filtered)
    }
}

/// Two characters with one scalar value are one character.
proof fn lemma_char_cast_injective(x: char, y: char)
    requires
        (x as u32) == (y as u32),
    ensures
        x == y,
{
}

/// Strict character order is connected: distinct strings are ordered.
proof fn lemma_chars_lt_connected(a: Seq<char>, b: Seq<char>)
    ensures
        a == b || spec_chars_lt(a, b) || spec_chars_lt(b, a),
    decreases a.len(),
{
    if a.len() == 0 && b.len() == 0 {
        assert(a =~= b);
    } else if a.len() == 0 || b.len() == 0 {
    } else {
        if (a[0] as u32) < (b[0] as u32) {
        } else if (a[0] as u32) > (b[0] as u32) {
        } else {
            assert((a[0] as u32) == (b[0] as u32));
            lemma_char_cast_injective(a[0], b[0]);
            lemma_chars_lt_connected(a.drop_first(), b.drop_first());
            if a.drop_first() == b.drop_first() {
                assert(a.drop_first().len() == b.drop_first().len());
                assert(a.len() == b.len());
                assert(a =~= b) by {
                    assert(forall|i: int|
                        1 <= i < a.len() ==> a[i] == a.drop_first()[i - 1] && b[i]
                            == b.drop_first()[i - 1]);
                }
            }
        }
    }
}

/// Strict segment order is connected: distinct segment sequences are ordered.
proof fn lemma_segs_lt_connected(a: Seq<Seq<char>>, b: Seq<Seq<char>>)
    ensures
        a == b || spec_segs_lt(a, b) || spec_segs_lt(b, a),
    decreases a.len(),
{
    if a.len() == 0 && b.len() == 0 {
        assert(a =~= b);
    } else if a.len() == 0 || b.len() == 0 {
    } else {
        lemma_chars_lt_connected(a[0], b[0]);
        if spec_chars_lt(a[0], b[0]) {
        } else if spec_chars_lt(b[0], a[0]) {
            assert(a[0] != b[0]) by {
                if a[0] == b[0] {
                    lemma_chars_lt_irreflexive(a[0]);
                }
            }
        } else {
            assert(a[0] == b[0]);
            lemma_segs_lt_connected(a.drop_first(), b.drop_first());
            if a.drop_first() == b.drop_first() {
                assert(a.drop_first().len() == b.drop_first().len());
                assert(a.len() == b.len());
                assert(a =~= b) by {
                    assert(forall|i: int|
                        1 <= i < a.len() ==> a[i] == a.drop_first()[i - 1] && b[i]
                            == b.drop_first()[i - 1]);
                }
            }
        }
    }
}

/// No string precedes itself.
proof fn lemma_chars_lt_irreflexive(a: Seq<char>)
    ensures
        !spec_chars_lt(a, a),
    decreases a.len(),
{
    if a.len() > 0 {
        lemma_chars_lt_irreflexive(a.drop_first());
    }
}

/// Strict character order is transitive.
proof fn lemma_chars_lt_trans(a: Seq<char>, b: Seq<char>, c: Seq<char>)
    requires
        spec_chars_lt(a, b),
        spec_chars_lt(b, c),
    ensures
        spec_chars_lt(a, c),
    decreases b.len(),
{
    if a.len() == 0 {
    } else {
        // all three are non-empty here, and the head comparisons compose at
        // the numeric level
        if (a[0] as u32) < (b[0] as u32) {
            if (b[0] as u32) < (c[0] as u32) {
            } else {
                assert((b[0] as u32) == (c[0] as u32));
            }
        } else {
            assert((a[0] as u32) == (b[0] as u32));
            if (b[0] as u32) < (c[0] as u32) {
            } else {
                assert((b[0] as u32) == (c[0] as u32));
                lemma_chars_lt_trans(a.drop_first(), b.drop_first(), c.drop_first());
            }
        }
    }
}

/// Strict segment order is transitive.
proof fn lemma_segs_lt_trans(a: Seq<Seq<char>>, b: Seq<Seq<char>>, c: Seq<Seq<char>>)
    requires
        spec_segs_lt(a, b),
        spec_segs_lt(b, c),
    ensures
        spec_segs_lt(a, c),
    decreases b.len(),
{
    if a.len() == 0 {
    } else {
        if spec_chars_lt(a[0], b[0]) {
            if spec_chars_lt(b[0], c[0]) {
                lemma_chars_lt_trans(a[0], b[0], c[0]);
            } else {
                assert(b[0] == c[0]);
            }
        } else {
            assert(a[0] == b[0]);
            if spec_chars_lt(b[0], c[0]) {
            } else {
                assert(b[0] == c[0]);
                lemma_segs_lt_trans(a.drop_first(), b.drop_first(), c.drop_first());
            }
        }
    }
}


/// The name of a reference kind in machine-readable output.
pub open spec fn spec_kind_name(kind: Option<ReferenceKind>) -> Seq<char> {
    match kind {
        Some(ReferenceKind::Persistent) => "persistent"@,
        Some(ReferenceKind::Ephemeral) => "ephemeral"@,
        None => "compile-only"@,
    }
}

/// The machine-readable record of one test: its identifier, kind, whether it
/// is skipped, and the path of its directory.
pub open spec fn spec_test_json(
    id: Seq<char>,
    kind: Option<ReferenceKind>,
    is_skip: bool,
    path: Seq<char>,
) -> Seq<char> {
    "{\"id\":\""@ + id + "\",\"kind\":\""@ + spec_kind_name(kind) + "\",\"is_skip\":"@ + (
    if is_skip {
        "true"@
    } else {
        "false"@
    }) + ",\"path\":\""@ + path + "\"}"@
}

/// Renders one test as its machine-readable record.
pub fn test_json(test: &Test, paths: &Paths) -> (r: String)
    requires
        test.wf(),
    ensures
        r@ == spec_test_json(
            test.spec_id()@,
            test.spec_ref_kind(),
            test.spec_is_ignored(),
            join_segs(spec_test_dir(paths, &test.spec_id())),
        ),
{
    let mut out = String::from_str("{\"id\":\"");
    let id_str = test.id().to_string();
    out.append(id_str.as_str());
    out.append("\",\"kind\":\"");
    match test.ref_kind() {
        Some(ReferenceKind::Persistent) => out.append("persistent"),
        Some(ReferenceKind::Ephemeral) => out.append("ephemeral"),
        None => out.append("compile-only"),
    }
    out.append("\",\"is_skip\":");
    if test.is_ignored() {
        out.append("true");
    } else {
        out.append("false");
    }
    out.append(",\"path\":\"");
    let dir = paths.unit_test_dir(test.id());
    let rendered = dir.render();
    out.append(rendered.as_str());
    out.append("\"}");
    proof {
        assert(out@ =~= spec_test_json(
            test.spec_id()@,
            test.spec_ref_kind(),
            test.spec_is_ignored(),
            join_segs(spec_test_dir(paths, &test.spec_id())),
        ));
    }
    out
}

/// The machine-readable records of the given tests, comma separated.
pub open spec fn spec_list_items(tests: Seq<Test>, paths: &Paths) -> Seq<char>
    decreases tests.len(),
{
    if tests.len() == 0 {
        Seq::empty()
    } else {
        let item = spec_test_json(
            tests.last().spec_id()@,
            tests.last().spec_ref_kind(),
            tests.last().spec_is_ignored(),
            join_segs(spec_test_dir(paths, &tests.last().spec_id())),
        );
        if tests.len() == 1 {
            item
        } else {
            spec_list_items(tests.drop_last(), paths) + ","@ + item
        }
    }
}

/// Renders the matched tests as a machine-readable array, in order.
pub fn list_json(tests: &Vec<Test>, paths: &Paths) -> (r: String)
    requires
        forall|i: int| 0 <= i < tests@.len() ==> (#[trigger] tests@[i]).wf(),
    ensures
        r@ == "["@ + spec_list_items(tests@, paths) + "]"@,
{
    let mut out = String::from_str("[");
    let n = tests.len();
    let mut i: usize = 0;
    while i < n
        invariant
            n == tests@.len(),
            forall|k: int| 0 <= k < tests@.len() ==> (#[trigger] tests@[k]).wf(),
            0 <= i <= n,
            out@ == "["@ + spec_list_items(tests@.take(i as int), paths),
        decreases n - i,
    {
        if i > 0 {
            out.append(",");
        }
        let item = test_json(&tests[i], paths);
        out.append(item.as_str());
        proof {
            assert(tests@.take(i + 1).drop_last() =~= tests@.take(i as int));
            assert(tests@.take(i + 1).last() == tests@[i as int]);
            assert(tests@.take(i + 1).len() == i + 1);
            if i == 0 {
                assert(spec_list_items(tests@.take(0), paths) == Seq::<char>::empty());
                assert(spec_list_items(tests@.take(1), paths) == spec_test_json(
                    tests@[0].spec_id()@,
                    tests@[0].spec_ref_kind(),
                    tests@[0].spec_is_ignored(),
                    join_segs(spec_test_dir(paths, &tests@[0].spec_id())),
                ));
                assert(out@ =~= "["@ + spec_list_items(tests@.take(1), paths));
            } else {
                assert(out@ =~= "["@ + spec_list_items(tests@.take(i + 1), paths));
            }
        }
        i += 1;
    }
    out.append("]");
    proof {
        assert(tests@.take(n as int) =~= tests@);
        assert(out@ =~= "["@ + spec_list_items(tests@, paths) + "]"@);
    }
    out
}

} // verus!
