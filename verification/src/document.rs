//! The in-memory representation of a rendered document: an ordered sequence
//! of raster pages in row-major RGBA8 layout, stored on disk as a directory
//! of PNG files named `1.png`, `2.png`, and so on.

use vstd::prelude::*;

use crate::paths::DiskPath;
use crate::util::digit_char;
use crate::util::spec_decimal;
use crate::util::u64_to_string;
use crate::vfs::EntryV;
use crate::vfs::FileData;
use crate::vfs::FileDataV;
use crate::vfs::FsError;
use crate::vfs::Vfs;

verus! {

/// The mathematical value of a [`Page`].
pub struct PageV {
    pub width: nat,
    pub height: nat,
    pub pixels: Seq<u8>,
}

impl PageV {
    /// Consistency: four bytes per pixel.
    pub open spec fn wf(self) -> bool {
        self.pixels.len() == 4 * self.width * self.height
    }
}

/// A raster page: width, height and row-major RGBA8 pixel data.
#[derive(Debug, Clone, PartialEq, Eq, Hash)]
pub struct Page {
    pub width: u32,
    pub height: u32,
    pub pixels: Vec<u8>,
}

impl View for Page {
    type V = PageV;

    open spec fn view(&self) -> PageV {
        PageV { width: self.width as nat, height: self.height as nat, pixels: self.pixels@ }
    }
}

impl DeepView for Page {
    type V = PageV;

    open spec fn deep_view(&self) -> PageV {
        self.view()
    }
}

impl Page {
    /// Consistency: the pixel buffer holds four bytes for every pixel.
    pub open spec fn wf(self) -> bool {
        self.pixels@.len() == 4 * self.width * self.height
    }

    /// Copies the page.
    pub fn duplicate(&self) -> (r: Page)
        ensures
            r@ == self@,
    {
        let r = Page {
            width: self.width,
            height: self.height,
            pixels: vstd::slice::slice_to_vec(self.pixels.as_slice()),
        };
        proof {
            assert(r@.pixels =~= self@.pixels);
        }
        r
    }
}

/// The file name of page number `n`: its decimal rendering plus `.png`.
pub open spec fn page_file_name(n: nat) -> Seq<char> {
    spec_decimal(n) + ".png"@
}

/// The tree after the first `k` of the given pages have been written into
/// `dir`, as `1.png` up to `k.png`.
pub open spec fn spec_saved(
    m: Map<Seq<Seq<char>>, EntryV>,
    dir: Seq<Seq<char>>,
    pages: Seq<PageV>,
    k: int,
) -> Map<Seq<Seq<char>>, EntryV>
    decreases k,
{
    if k <= 0 {
        m
    } else {
        spec_saved(m, dir, pages, k - 1).insert(
            dir.push(page_file_name(k as nat)),
            EntryV::File(FileDataV::Page(pages[k - 1])),
        )
    }
}

/// What the tree looks like after a save: page keys carry their pages, and
/// every other node is untouched.
pub proof fn lemma_saved_props(
    m: Map<Seq<Seq<char>>, EntryV>,
    dir: Seq<Seq<char>>,
    pages: Seq<PageV>,
    k: int,
)
    requires
        0 <= k <= pages.len(),
    ensures
        forall|x: Seq<Seq<char>>|
            #[trigger] spec_saved(m, dir, pages, k).dom().contains(x) <==> (m.dom().contains(x)
                || exists|j: int| 1 <= j <= k && x == #[trigger] dir.push(page_file_name(j as nat))),
        forall|j: int|
            1 <= j <= k ==> spec_saved(m, dir, pages, k)[#[trigger] dir.push(
                page_file_name(j as nat),
            )] == EntryV::File(FileDataV::Page(pages[j - 1])),
        forall|x: Seq<Seq<char>>|
            #![trigger m.dom().contains(x)]
            (m.dom().contains(x) && !(exists|j: int|
                1 <= j <= k && x == #[trigger] dir.push(page_file_name(j as nat)))) ==> spec_saved(
                m,
                dir,
                pages,
                k,
            )[x] == m[x],
    decreases k,
{
    if k > 0 {
        lemma_saved_props(m, dir, pages, k - 1);
        assert forall|j: int|
            1 <= j <= k implies spec_saved(m, dir, pages, k)[#[trigger] dir.push(
            page_file_name(j as nat),
        )] == EntryV::File(FileDataV::Page(pages[j - 1])) by {
            if j < k {
                assert(page_file_name(j as nat) != page_file_name(k as nat)) by {
                    if page_file_name(j as nat) == page_file_name(k as nat) {
                        lemma_page_name_injective(j as nat, k as nat);
                    }
                }
                assert(dir.push(page_file_name(j as nat)) != dir.push(page_file_name(k as nat)))
                    by {
                    assert(dir.push(page_file_name(j as nat)).last() == page_file_name(j as nat));
                    assert(dir.push(page_file_name(k as nat)).last() == page_file_name(k as nat));
                }
            }
        }
    }
}

/// Loading a document can fail: the numbered files may have gaps, or a page
/// file may not decode.
#[derive(Debug, Clone, PartialEq, Eq)]
pub enum LoadError {
    /// The page numbers found are not exactly `1..=n` for some `n >= 1`;
    /// carries the numbers that were found, in ascending order.
    MissingPages(Vec<u64>),
    /// The file of this page number does not decode as an image.
    Decode { page: u64 },
}

/// Whether `dir` holds exactly the consistent page files `1..=n`: every one
/// of them decodes, and no page file beyond `n` exists.
pub open spec fn spec_pages_exact(
    m: Map<Seq<Seq<char>>, EntryV>,
    dir: Seq<Seq<char>>,
    n: u64,
) -> bool {
    &&& n >= 1
    &&& (forall|j: u64|
        1 <= j <= n ==> m.dom().contains(#[trigger] dir.push(page_file_name(j as nat)))
            && (m[dir.push(page_file_name(j as nat))] matches EntryV::File(FileDataV::Page(p))
            && p.wf()))
    &&& (forall|j: u64| 1 <= j && has_page(m, dir, j as nat) ==> j <= n)
}

/// Whether the tree holds a page file numbered `n` inside `dir`.
pub open spec fn has_page(m: Map<Seq<Seq<char>>, EntryV>, dir: Seq<Seq<char>>, n: nat) -> bool {
    m.dom().contains(dir.push(page_file_name(n))) && m[dir.push(page_file_name(n))] is File
}

/// A document: an ordered sequence of raster pages.
#[derive(Debug, Clone, PartialEq, Eq)]
pub struct Document {
    pages: Vec<Page>,
}

impl View for Document {
    type V = Seq<PageV>;

    closed spec fn view(&self) -> Seq<PageV> {
        self.pages.deep_view()
    }
}

impl Document {
    /// Consistency: every page carries four bytes per pixel.
    pub closed spec fn wf(self) -> bool {
        forall|i: int| 0 <= i < self.pages@.len() ==> (#[trigger] self.pages@[i]).wf()
    }

    /// A document made of the given pages; every page must be consistent.
    pub fn new(pages: Vec<Page>) -> (r: Document)
        requires
            forall|i: int| 0 <= i < pages@.len() ==> (#[trigger] pages@[i]).wf(),
        ensures
            r@ == pages.deep_view(),
            r.wf(),
    {
        Document { pages }
    }

    /// The pages, in order.
    pub fn pages(&self) -> (r: &Vec<Page>)
        ensures
            r.deep_view() == self@,
            self.wf() ==> forall|i: int| 0 <= i < r@.len() ==> (#[trigger] r@[i]).wf(),
    {
        &self.pages
    }

    /// The number of pages.
    pub fn len(&self) -> (r: usize)
        ensures
            r == self@.len(),
    {
        proof {
            assert(self@.len() == self.pages@.len());
        }
        self.pages.len()
    }

    /// Writes the pages into `dir` as `1.png`, `2.png`, and so on.
    ///
    /// The caller has created `dir`; the write fails only when a stray
    /// directory stands where a page file belongs.
    pub fn save(&self, vfs: &mut Vfs, dir: &DiskPath) -> (r: Result<(), FsError>)
        requires
            old(vfs).wf(),
        ensures
            final(vfs).wf(),
            r is Ok ==> final(vfs)@ == spec_saved(old(vfs)@, dir@, self@, self@.len() as int),
            r matches Err(e) ==> (e is Other || e is NotFound),
            ((dir@.len() == 0 || exists|k: Seq<Seq<char>>|
                old(vfs)@.dom().contains(k) && dir@.is_prefix_of(k)) && (forall|j: int|
                1 <= j <= self@.len() ==> (old(vfs)@.dom().contains(
                    #[trigger] dir@.push(page_file_name(j as nat)),
                ) ==> !(old(vfs)@[dir@.push(page_file_name(j as nat))] is Dir)))) ==> r is Ok,
    {
        let n = self.pages.len();
        let mut i: usize = 0;
        proof {
            assert(self@.len() == n);
        }
        while i < n
            invariant
                vfs.wf(),
                n == self.pages@.len(),
                self@.len() == n,
                0 <= i <= n,
                vfs@ == spec_saved(old(vfs)@, dir@, self@, i as int),
            decreases n - i,
        {
            let mut name = u64_to_string((i + 1) as u64);
            name.append(".png");
            let file = dir.join(name.as_str());
            proof {
                assert(file@ == dir@.push(page_file_name((i + 1) as nat)));
            }
            let ghost can = (dir@.len() == 0 || exists|k: Seq<Seq<char>>|
                old(vfs)@.dom().contains(k) && dir@.is_prefix_of(k)) && (forall|j: int|
                1 <= j <= self@.len() ==> (old(vfs)@.dom().contains(
                    #[trigger] dir@.push(page_file_name(j as nat)),
                ) ==> !(old(vfs)@[dir@.push(page_file_name(j as nat))] is Dir)));
            proof {
                if can {
                    lemma_saved_props(old(vfs)@, dir@, self@, i as int);
                    // the target position is no directory, and the parent
                    // directory of the page files exists
                    assert(vfs@.dom().contains(file@) ==> !(vfs@[file@] is Dir)) by {
                        if vfs@.dom().contains(file@) {
                            if exists|j: int|
                                1 <= j <= i && file@ == #[trigger] dir@.push(
                                    page_file_name(j as nat),
                                ) {
                                let j = choose|j: int|
                                    1 <= j <= i && file@ == #[trigger] dir@.push(
                                        page_file_name(j as nat),
                                    );
                                assert(vfs@[file@] == EntryV::File(
                                    FileDataV::Page(self@[j - 1]),
                                ));
                            } else {
                                assert(old(vfs)@.dom().contains(file@));
                                assert(vfs@[file@] == old(vfs)@[file@]);
                                assert(file@ == dir@.push(page_file_name((i + 1) as nat)));
                                assert(!(old(vfs)@[file@] is Dir));
                            }
                        }
                    }
                    if file@.len() > 1 {
                        assert(file@.drop_last() =~= dir@);
                        if dir@.len() == 0 {
                            assert(false);
                        }
                        let w = choose|k: Seq<Seq<char>>|
                            old(vfs)@.dom().contains(k) && dir@.is_prefix_of(k);
                        assert(vfs@.dom().contains(w));
                        assert(Vfs::spec_parent_exists(vfs@, file@));
                    }
                }
            }
            match vfs.write_file(&file, FileData::Page(self.pages[i].duplicate())) {
                Ok(()) => {},
                Err(e) => {
                    proof {
                        if can {
                            assert(false);
                        }
                    }
                    return Err(e);
                },
            }
            proof {
                assert(self.pages.deep_view()[i as int] == self.pages@[i as int]@);
                assert(vfs@ == spec_saved(old(vfs)@, dir@, self@, i + 1));
            }
            i += 1;
        }
        Ok(())
    }

    /// Reads the document stored in `dir`.
    ///
    /// Every file named `n.png` for a decimal `n >= 1` is a page. The load
    /// succeeds exactly when the page numbers found are `1..=count` with at
    /// least one page and every page decodes; gaps or emptiness yield
    /// [`LoadError::MissingPages`] with the numbers found, in order.
    pub fn load(vfs: &Vfs, dir: &DiskPath) -> (r: Result<Document, LoadError>)
        requires
            vfs.wf(),
        ensures
            match r {
                Ok(doc) => {
                    &&& doc.wf()
                    &&& doc@.len() >= 1
                    &&& (forall|i: int|
                        0 <= i < doc@.len() ==> has_page(vfs@, dir@, (i + 1) as nat) && vfs@[dir@.push(
                            page_file_name((i + 1) as nat),
                        )] == EntryV::File(FileDataV::Page(#[trigger] doc@[i])))
                    &&& (forall|n: u64| 1 <= n && has_page(vfs@, dir@, n as nat) ==> n <= doc@.len())
                },
                Err(LoadError::MissingPages(found)) => {
                    &&& (forall|a: int, b: int|
                        0 <= a < b < found@.len() ==> #[trigger] found@[a] < #[trigger] found@[b])
                    &&& (forall|n: u64|
                        1 <= n ==> (has_page(vfs@, dir@, n as nat) <==> found@.contains(n)))
                    &&& (found@.len() == 0 || exists|n: u64|
                        1 <= n <= found@.last() && !has_page(vfs@, dir@, n as nat))
                },
                Err(LoadError::Decode { page }) => has_page(vfs@, dir@, page as nat) && !(
                vfs@[dir@.push(page_file_name(page as nat))] matches EntryV::File(
                    FileDataV::Page(p),
                ) && p.wf()),
            },
            (exists|n: u64| #[trigger] spec_pages_exact(vfs@, dir@, n)) ==> r is Ok,
    {
        let names = vfs.file_names_in(dir);
        // the largest page number present
        let mut max: u64 = 0;
        let mut i: usize = 0;
        while i < names.len()
            invariant
                vfs.wf(),
                0 <= i <= names@.len(),
                max == 0 ==> forall|n: u64|
                    1 <= n ==> !seq_has_name(names@.take(i as int), page_file_name(n as nat)),
                forall|n: u64|
                    1 <= n && seq_has_name(names@.take(i as int), page_file_name(n as nat)) ==> n
                        <= max,
                max >= 1 ==> seq_has_name(names@.take(i as int), page_file_name(max as nat)),
            decreases names@.len() - i,
        {
            proof {
                lemma_take_has_name(names@, i as int);
            }
            match parse_page_name(names[i].as_str()) {
                Some(n) => {
                    proof {
                        assert forall|n2: u64|
                            1 <= n2 && names@[i as int]@ == page_file_name(
                                n2 as nat,
                            ) implies n2 == n by {
                            lemma_page_name_injective(n2 as nat, n as nat);
                        }
                    }
                    if n > max {
                        max = n;
                    }
                },
                None => {},
            }
            i += 1;
        }
        proof {
            assert(names@.take(names@.len() as int) =~= names@);
            lemma_names_pages(vfs, dir, names@);
        }
        // collect the numbers that are present, in ascending order
        let mut found: Vec<u64> = Vec::new();
        let mut gap = false;
        let mut k: u64 = 0;
        while k < max
            invariant
                vfs.wf(),
                0 <= k <= max,
                forall|a: int, b: int|
                    0 <= a < b < found@.len() ==> #[trigger] found@[a] < #[trigger] found@[b],
                forall|a: int| 0 <= a < found@.len() ==> 1 <= #[trigger] found@[a] <= k,
                forall|a: int|
                    0 <= a < found@.len() ==> has_page(vfs@, dir@, #[trigger] found@[a] as nat),
                forall|n: u64| 1 <= n <= k && has_page(vfs@, dir@, n as nat) ==> found@.contains(n),
                gap == exists|n: u64| 1 <= n <= k && !has_page(vfs@, dir@, n as nat),
                forall|n: u64| 1 <= n && has_page(vfs@, dir@, n as nat) ==> n <= max,
                max >= 1 ==> has_page(vfs@, dir@, max as nat),
            decreases max - k,
        {
            let num = k + 1;
            let mut name = u64_to_string(num);
            name.append(".png");
            let file = dir.join(name.as_str());
            proof {
                assert(file@ == dir@.push(page_file_name(num as nat)));
            }
            let present = vfs.try_exists(&file);
            let ghost old_gap = gap;
            if present {
                if matches!(vfs.read_data(&file), Ok(_)) {
                    proof {
                        assert(has_page(vfs@, dir@, num as nat));
                    }
                    let ghost before = found@;
                    found.push(num);
                    proof {
                        assert(found@ =~= before.push(num));
                        assert(forall|a: int| 0 <= a < before.len() ==> found@[a] == before[a]);
                        assert forall|n: u64|
                            1 <= n <= k + 1 && has_page(vfs@, dir@, n as nat) implies found@.contains(
                            n,
                        ) by {
                            if n <= k {
                                assert(before.contains(n));
                                let a = choose|a: int| 0 <= a < before.len() && before[a] == n;
                                assert(found@[a] == n);
                                assert(found@.contains(n));
                            } else {
                                assert(n == num);
                                assert(found@[found@.len() - 1] == num);
                                assert(found@.contains(num));
                            }
                        }
                        if old_gap {
                            let w = choose|n: u64| 1 <= n <= k && !has_page(vfs@, dir@, n as nat);
                            assert(1 <= w <= k + 1 && !has_page(vfs@, dir@, w as nat));
                        }
                    }
                } else {
                    proof {
                        assert(!has_page(vfs@, dir@, num as nat));
                    }
                    gap = true;
                }
            } else {
                proof {
                    assert(!has_page(vfs@, dir@, num as nat));
                }
                gap = true;
            }
            proof {
                if gap && !old_gap {
                    assert(1 <= num <= k + 1 && !has_page(vfs@, dir@, num as nat));
                }
                if !gap {
                    assert forall|n: u64| 1 <= n <= k + 1 implies has_page(vfs@, dir@, n as nat) by {
                        if n <= k {
                            assert(!(1 <= n <= k && !has_page(vfs@, dir@, n as nat)));
                        }
                    }
                }
            }
            k += 1;
        }
        if gap || max == 0 {
            proof {
                if exists|n0: u64| #[trigger] spec_pages_exact(vfs@, dir@, n0) {
                    let n0 = choose|n0: u64| #[trigger] spec_pages_exact(vfs@, dir@, n0);
                    assert(vfs@.dom().contains(dir@.push(page_file_name(1 as nat)))
                        && vfs@[dir@.push(page_file_name(1 as nat))] is File);
                    assert(has_page(vfs@, dir@, 1 as nat));
                    assert(max >= 1);
                    if gap {
                        let w = choose|n: u64|
                            1 <= n <= max && !has_page(vfs@, dir@, n as nat);
                        assert(has_page(vfs@, dir@, max as nat));
                        assert(max <= n0);
                        assert(vfs@.dom().contains(dir@.push(page_file_name(w as nat)))
                            && vfs@[dir@.push(page_file_name(w as nat))] is File);
                        assert(false);
                    }
                    assert(false);
                }
                if max == 0 {
                    if found@.len() > 0 {
                        assert(1 <= found@[0] <= 0);
                    }
                    assert(found@.len() == 0);
                } else {
                    // the largest page is in `found`, and it is the last
                    assert(found@.contains(max));
                    let a0 = choose|a: int| 0 <= a < found@.len() && found@[a] == max;
                    assert(found@.len() >= 1);
                    assert(found@.last() <= max && found@[a0] == max);
                    assert(a0 <= found@.len() - 1);
                    if a0 < found@.len() - 1 {
                        assert(found@[a0] < found@.last());
                    }
                    assert(found@.last() == max);
                    let n0 = choose|n: u64| 1 <= n <= max && !has_page(vfs@, dir@, n as nat);
                    assert(1 <= n0 <= found@.last() && !has_page(vfs@, dir@, n0 as nat));
                }
                assert forall|n: u64| 1 <= n implies (has_page(vfs@, dir@, n as nat)
                    <==> found@.contains(n)) by {
                    if has_page(vfs@, dir@, n as nat) {
                        assert(n <= max);
                    }
                    if found@.contains(n) {
                        let a = choose|a: int| 0 <= a < found@.len() && found@[a] == n;
                        assert(has_page(vfs@, dir@, found@[a] as nat));
                    }
                }
            }
            return Err(LoadError::MissingPages(found));
        }
        // no gap below `max` and `max >= 1`: the numbers are exactly `1..=max`
        let mut pages: Vec<Page> = Vec::new();
        let mut k: u64 = 0;
        while k < max
            invariant
                vfs.wf(),
                max >= 1,
                0 <= k <= max,
                forall|n: u64| 1 <= n <= max ==> has_page(vfs@, dir@, n as nat),
                pages@.len() == k,
                forall|i: int|
                    0 <= i < pages@.len() ==> vfs@[dir@.push(page_file_name((i + 1) as nat))]
                        == EntryV::File(FileDataV::Page(#[trigger] pages.deep_view()[i])),
                forall|i: int| 0 <= i < pages@.len() ==> (#[trigger] pages@[i]).wf(),
                forall|n: u64| 1 <= n && has_page(vfs@, dir@, n as nat) ==> n <= max,
            decreases max - k,
        {
            let num = k + 1;
            let mut name = u64_to_string(num);
            name.append(".png");
            let file = dir.join(name.as_str());
            proof {
                assert(file@ == dir@.push(page_file_name(num as nat)));
                assert(has_page(vfs@, dir@, num as nat));
            }
            match vfs.read_data(&file) {
                Ok(FileData::Page(p)) => {
                    proof {
                        assert(4u128 * (p.width as u128) * (p.height as u128) <= u128::MAX)
                            by (nonlinear_arith)
                            requires
                                p.width <= u32::MAX,
                                p.height <= u32::MAX,
                        ;
                    }
                    let plen = p.pixels.len();
                    if !(plen as u128 == 4u128 * (p.width as u128) * (p.height as u128)) {
                        proof {
                            assert(p.pixels@.len() == 4 * p.width * p.height ==> plen as u128
                                == 4u128 * (p.width as u128) * (p.height as u128))
                                by (nonlinear_arith)
                                requires
                                    plen == p.pixels@.len(),
                            ;
                        }
                        return Err(LoadError::Decode { page: num });
                    }
                    proof {
                        assert(p.pixels@.len() == 4 * p.width * p.height) by (nonlinear_arith)
                            requires
                                plen == p.pixels@.len(),
                                plen as u128 == 4u128 * (p.width as u128) * (p.height as u128),
                        ;
                    }
                    let ghost before = pages.deep_view();
                    pages.push(p);
                    proof {
                        assert(pages.deep_view() =~~= before.push(pages@[pages@.len() - 1]@));
                    }
                },
                Ok(_) => {
                    return Err(LoadError::Decode { page: num });
                },
                Err(_) => {
                    proof {
                        assert(false);
                    }
                    return Err(LoadError::Decode { page: num });
                },
            }
            k += 1;
        }
        let doc = Document { pages };
        proof {
            assert(doc@.len() == max);
        }
        Ok(doc)
    }
}

/// Whether `names` holds a string whose characters are `name`.
pub open spec fn seq_has_name(names: Seq<String>, name: Seq<char>) -> bool {
    exists|i: int| 0 <= i < names.len() && (#[trigger] names[i])@ == name
}

/// Membership in a take-prefix grows one element at a time.
proof fn lemma_take_has_name(names: Seq<String>, i: int)
    requires
        0 <= i < names.len(),
    ensures
        forall|name: Seq<char>|
            #[trigger] seq_has_name(names.take(i + 1), name) <==> (seq_has_name(names.take(i), name)
                || names[i]@ == name),
{
    assert forall|name: Seq<char>| #[trigger]
        seq_has_name(names.take(i + 1), name) implies (seq_has_name(names.take(i), name)
        || names[i]@ == name) by {
        let j = choose|j: int| 0 <= j < i + 1 && (#[trigger] names.take(i + 1)[j])@ == name;
        if j < i {
            assert(names.take(i)[j]@ == name);
        }
    }
    assert forall|name: Seq<char>|
        (seq_has_name(names.take(i), name) || names[i]@ == name) implies #[trigger] seq_has_name(
        names.take(i + 1),
        name,
    ) by {
        if seq_has_name(names.take(i), name) {
            let j = choose|j: int| 0 <= j < i && (#[trigger] names.take(i)[j])@ == name;
            assert(names.take(i + 1)[j]@ == name);
        } else {
            assert(names.take(i + 1)[i]@ == name);
        }
    }
}

/// Ties the names listed in a directory to page presence: a page `n` exists
/// in `dir` exactly when the listing holds its file name.
proof fn lemma_names_pages(vfs: &Vfs, dir: &DiskPath, names: Seq<String>)
    requires
        vfs.wf(),
        forall|i: int|
            0 <= i < names.len() ==> {
                &&& vfs@.dom().contains(dir@.push((#[trigger] names[i])@))
                &&& vfs@[dir@.push(names[i]@)] is File
            },
        forall|name: Seq<char>|
            (vfs@.dom().contains(dir@.push(name)) && vfs@[dir@.push(name)] is File) ==> exists|
                i: int,
            | 0 <= i < names.len() && (#[trigger] names[i])@ == name,
    ensures
        forall|n: u64|
            1 <= n ==> (#[trigger] has_page(vfs@, dir@, n as nat) <==> seq_has_name(
                names,
                page_file_name(n as nat),
            )),
{
    assert forall|n: u64| 1 <= n implies (#[trigger] has_page(vfs@, dir@, n as nat)
        <==> seq_has_name(names, page_file_name(n as nat))) by {
        if has_page(vfs@, dir@, n as nat) {
            assert(exists|i: int|
                0 <= i < names.len() && (#[trigger] names[i])@ == page_file_name(n as nat));
        }
        if seq_has_name(names, page_file_name(n as nat)) {
            let i = choose|i: int|
                0 <= i < names.len() && (#[trigger] names[i])@ == page_file_name(n as nat);
            assert(vfs@.dom().contains(dir@.push(page_file_name(n as nat))));
        }
    }
}

/// Whether `c` is a decimal digit.
pub open spec fn is_digit(c: char) -> bool {
    '0' as u32 <= c as u32 <= '9' as u32
}

/// The value of a digit character.
pub open spec fn digit_val(c: char) -> nat {
    (c as u32 - '0' as u32) as nat
}

/// The decimal rendering is at least one character long.
proof fn lemma_decimal_len(n: nat)
    ensures
        spec_decimal(n).len() >= 1,
    decreases n,
{
    if n >= 10 {
        lemma_decimal_len(n / 10);
    }
}

/// Every character of a decimal rendering is a digit, and the first is not
/// `0` unless the number is zero.
proof fn lemma_decimal_digits(n: nat)
    ensures
        forall|j: int| 0 <= j < spec_decimal(n).len() ==> is_digit(#[trigger] spec_decimal(n)[j]),
        n >= 1 ==> spec_decimal(n)[0] != '0',
    decreases n,
{
    if n < 10 {
        assert(is_digit(digit_char(n)) && (n >= 1 ==> digit_char(n) != '0'));
    } else {
        lemma_decimal_digits(n / 10);
        lemma_decimal_len(n / 10);
        assert(is_digit(digit_char(n % 10)));
        assert(spec_decimal(n)[0] == spec_decimal(n / 10)[0]);
    }
}

/// Distinct numbers render distinctly.
proof fn lemma_decimal_injective(a: nat, b: nat)
    requires
        spec_decimal(a) == spec_decimal(b),
    ensures
        a == b,
    decreases a,
{
    lemma_decimal_len(a);
    lemma_decimal_len(b);
    if a < 10 && b < 10 {
        assert(spec_decimal(a)[0] == digit_char(a));
        assert(spec_decimal(b)[0] == digit_char(b));
        assert(digit_char(a) == digit_char(b));
        assert(a == b);
    } else if a < 10 {
        lemma_decimal_len(b / 10);
        assert(spec_decimal(b).len() >= 2);
        assert(spec_decimal(a).len() == 1);
    } else if b < 10 {
        lemma_decimal_len(a / 10);
        assert(spec_decimal(a).len() >= 2);
        assert(spec_decimal(b).len() == 1);
    } else {
        assert(spec_decimal(a).last() == digit_char(a % 10));
        assert(spec_decimal(b).last() == digit_char(b % 10));
        assert(a % 10 == b % 10) by {
            assert(digit_char(a % 10) == digit_char(b % 10));
        }
        assert(spec_decimal(a).drop_last() =~= spec_decimal(a / 10));
        assert(spec_decimal(b).drop_last() =~= spec_decimal(b / 10));
        lemma_decimal_injective(a / 10, b / 10);
    }
}

/// Distinct page numbers have distinct file names.
proof fn lemma_page_name_injective(a: nat, b: nat)
    requires
        page_file_name(a) == page_file_name(b),
    ensures
        a == b,
{
    reveal_strlit(".png");
    lemma_decimal_len(a);
    lemma_decimal_len(b);
    assert(".png"@.len() == 4);
    assert(page_file_name(a).len() == spec_decimal(a).len() + 4);
    assert(page_file_name(b).len() == spec_decimal(b).len() + 4);
    assert(spec_decimal(a).len() == spec_decimal(b).len());
    assert(spec_decimal(a) =~= spec_decimal(b)) by {
        assert(forall|j: int|
            0 <= j < spec_decimal(a).len() ==> #[trigger] spec_decimal(a)[j] == page_file_name(
                a,
            )[j] && spec_decimal(b)[j] == page_file_name(b)[j]);
    }
    lemma_decimal_injective(a, b);
}

/// Every non-empty prefix of a decimal rendering is itself the rendering of
/// a number no larger than the rendered one.
proof fn lemma_decimal_prefix_value(n: nat, prefix: Seq<char>)
    requires
        prefix.len() >= 1,
        prefix.is_prefix_of(spec_decimal(n)),
    ensures
        exists|m: nat| #[trigger] spec_decimal(m) == prefix && m <= n,
    decreases n,
{
    lemma_decimal_len(n);
    if prefix.len() == spec_decimal(n).len() {
        assert(prefix =~= spec_decimal(n));
        assert(spec_decimal(n) == prefix && n <= n);
    } else {
        assert(n >= 10) by {
            if n < 10 {
                assert(spec_decimal(n).len() == 1);
            }
        }
        assert(prefix.is_prefix_of(spec_decimal(n / 10))) by {
            assert(spec_decimal(n).drop_last() =~= spec_decimal(n / 10));
            assert(forall|j: int|
                0 <= j < prefix.len() ==> #[trigger] prefix[j] == spec_decimal(n / 10)[j]);
            assert(prefix =~= spec_decimal(n / 10).subrange(0, prefix.len() as int));
        }
        lemma_decimal_prefix_value(n / 10, prefix);
        let m = choose|m: nat| #[trigger] spec_decimal(m) == prefix && m <= n / 10;
        assert(m <= n);
    }
}

/// Parses a canonical page file name: the decimal rendering of a number
/// `n >= 1` followed by `.png`.
pub fn parse_page_name(name: &str) -> (r: Option<u64>)
    ensures
        match r {
            Some(n) => n >= 1 && name@ == page_file_name(n as nat),
            None => forall|n: u64| 1 <= n ==> name@ != page_file_name(n as nat),
        },
{
    proof {
        reveal_strlit(".png");
    }
    let len = name.unicode_len();
    if len < 5 {
        proof {
            assert forall|n: u64| 1 <= n implies name@ != page_file_name(n as nat) by {
                lemma_decimal_len(n as nat);
            }
        }
        return None;
    }
    // check the `.png` suffix
    let suffix_ok = name.get_char(len - 4) == '.' && name.get_char(len - 3) == 'p' && name.get_char(
        len - 2,
    ) == 'n' && name.get_char(len - 1) == 'g';
    if !suffix_ok {
        proof {
            assert forall|n: u64| 1 <= n implies name@ != page_file_name(n as nat) by {
                if name@ == page_file_name(n as nat) {
                    lemma_decimal_len(n as nat);
                    let f = page_file_name(n as nat);
                    let d = spec_decimal(n as nat).len() as int;
                    assert(f.len() == d + 4);
                    assert(f[d] == '.' && f[d + 1] == 'p' && f[d + 2] == 'n' && f[d + 3] == 'g');
                }
            }
        }
        return None;
    }
    // the digit part must be non-empty, all digits, without a leading zero
    let digits = len - 4;
    if name.get_char(0) == '0' {
        proof {
            assert forall|n: u64| 1 <= n implies name@ != page_file_name(n as nat) by {
                if name@ == page_file_name(n as nat) {
                    lemma_decimal_digits(n as nat);
                    lemma_decimal_len(n as nat);
                    assert(name@[0] == spec_decimal(n as nat)[0]);
                }
            }
        }
        return None;
    }
    let ghost digits_part = name@.subrange(0, digits as int);
    let mut value: u64 = 0;
    let mut i: usize = 0;
    while i < digits
        invariant
            name@.len() == len,
            5 <= len,
            digits == len - 4,
            0 <= i <= digits,
            name@[len - 4] == '.' && name@[len - 3] == 'p' && name@[len - 2] == 'n' && name@[len
                - 1] == 'g',
            forall|j: int| 0 <= j < i ==> is_digit(name@[j]),
            i > 0 ==> value >= 1 && spec_decimal(value as nat) == name@.subrange(0, i as int),
            i == 0 ==> value == 0,
            name@[0] != '0',
        decreases digits - i,
    {
        let c = name.get_char(i);
        let d: u64 = if c == '0' {
            0
        } else if c == '1' {
            1
        } else if c == '2' {
            2
        } else if c == '3' {
            3
        } else if c == '4' {
            4
        } else if c == '5' {
            5
        } else if c == '6' {
            6
        } else if c == '7' {
            7
        } else if c == '8' {
            8
        } else if c == '9' {
            9
        } else {
            proof {
                assert forall|n: u64| 1 <= n implies name@ != page_file_name(n as nat) by {
                    if name@ == page_file_name(n as nat) {
                        reveal_strlit(".png");
                        lemma_decimal_digits(n as nat);
                        lemma_decimal_len(n as nat);
                        assert(name@.len() == spec_decimal(n as nat).len() + 4);
                        assert(i < spec_decimal(n as nat).len());
                        assert(name@[i as int] == spec_decimal(n as nat)[i as int]);
                        assert(is_digit(name@[i as int]));
                    }
                }
            }
            return None;
        };
        proof {
            assert(c == name@[i as int]);
            assert(is_digit(name@[i as int]));
            assert(digit_char(d as nat) == c);
        }
        if value > (u64::MAX - d) / 10 {
            proof {
                assert(i > 0);
                assert forall|n: u64| 1 <= n implies name@ != page_file_name(n as nat) by {
                    if name@ == page_file_name(n as nat) {
                        reveal_strlit(".png");
                        lemma_decimal_len(n as nat);
                        let dec = spec_decimal(n as nat);
                        assert(name@.len() == dec.len() + 4);
                        assert(dec.len() == digits);
                        let prefix = name@.subrange(0, (i + 1) as int);
                        assert(prefix.is_prefix_of(dec)) by {
                            assert(forall|j: int|
                                0 <= j < digits ==> name@[j] == #[trigger] dec[j]);
                            assert(prefix =~= dec.subrange(0, (i + 1) as int));
                        }
                        lemma_decimal_prefix_value(n as nat, prefix);
                        let m = choose|m: nat| #[trigger] spec_decimal(m) == prefix && m <= n as nat;
                        // the prefix extends the parsed value by digit `d`
                        assert(prefix =~= spec_decimal(value as nat).push(digit_char(d as nat)));
                        lemma_decimal_len(m);
                        assert(m >= 10) by {
                            if m < 10 {
                                assert(spec_decimal(m).len() == 1);
                                assert(prefix.len() == i + 1 >= 2);
                            }
                        }
                        assert(spec_decimal(m) == spec_decimal(m / 10).push(digit_char(m % 10)));
                        assert(spec_decimal(m / 10) =~= spec_decimal(value as nat)) by {
                            assert(spec_decimal(m).drop_last() =~= spec_decimal(m / 10));
                            assert(prefix.drop_last() =~= spec_decimal(value as nat));
                        }
                        lemma_decimal_injective(m / 10, value as nat);
                        assert(m % 10 == d) by {
                            assert(digit_char(m % 10) == prefix.last());
                            assert(prefix.last() == digit_char(d as nat));
                        }
                        assert(m == 10 * (value as nat) + d) by {
                            assert(m == (m / 10) * 10 + m % 10);
                        }
                        assert(10 * (value as nat) + d > u64::MAX) by {
                            assert(value as nat > (u64::MAX - d) as nat / 10);
                            assert((value as nat) * 10 + d > u64::MAX) by (nonlinear_arith)
                                requires
                                    value as nat > (u64::MAX - d) as nat / 10,
                                    0 <= d < 10,
                                    d <= u64::MAX,
                            ;
                        }
                        assert(m <= n as nat && n as nat <= u64::MAX);
                        assert(false);
                    }
                }
            }
            return None;
        }
        let new_value = value * 10 + d;
        proof {
            if i == 0 {
                assert(d >= 1) by {
                    assert(name@[0] != '0');
                }
                assert(spec_decimal(new_value as nat) =~= name@.subrange(0, 1));
            } else {
                assert(new_value as nat / 10 == value as nat && new_value as nat % 10 == d as nat)
                    by (nonlinear_arith)
                    requires
                        new_value == value * 10 + d,
                        0 <= d < 10,
                        value >= 1,
                ;
                assert(new_value >= 10);
                assert(spec_decimal(new_value as nat) == spec_decimal(value as nat).push(
                    digit_char(d as nat),
                ));
                assert(spec_decimal(new_value as nat) =~= name@.subrange(0, (i + 1) as int));
            }
        }
        value = new_value;
        i += 1;
    }
    proof {
        assert(name@ =~= name@.subrange(0, digits as int) + ".png"@);
        assert(name@ == page_file_name(value as nat));
    }
    Some(value)
}

} // verus!
