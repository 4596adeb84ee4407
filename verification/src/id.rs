//! Test identifiers: slash-separated, validated names that address a test
//! within the suite.
//!
//! An identifier is one or more `/`-separated segments; every segment is a
//! non-empty run of ASCII letters, digits, `_`, `.` or `-`. The single
//! segment `@template` is reserved for the template test. Two identifiers
//! are equal exactly when their rendered forms are equal; ordering is
//! lexicographic over segments.

use vstd::prelude::*;

use vstd::std_specs::cmp::PartialEqSpec;

use crate::util::push_char;

verus! {

/// Whether `c` may appear in an identifier segment.
pub open spec fn seg_char(c: char) -> bool {
    ('a' as u32 <= c as u32 && c as u32 <= 'z' as u32) || ('A' as u32 <= c as u32 && c as u32
        <= 'Z' as u32) || ('0' as u32 <= c as u32 && c as u32 <= '9' as u32) || c == '_' || c == '.'
        || c == '-'
}

/// Whether `c` may appear anywhere in a plain identifier.
pub open spec fn id_char(c: char) -> bool {
    seg_char(c) || c == '/'
}

/// The reserved identifier of the template test.
pub open spec fn template_id() -> Seq<char> {
    seq!['@', 't', 'e', 'm', 'p', 'l', 'a', 't', 'e']
}

/// Separator well-formedness: non-empty, and no leading, trailing or doubled
/// `/`.
pub open spec fn wf_sep(s: Seq<char>) -> bool {
    &&& s.len() > 0
    &&& s[0] != '/'
    &&& s[s.len() - 1] != '/'
    &&& (forall|i: int| 0 <= i < s.len() - 1 ==> !(#[trigger] s[i] == '/' && s[i + 1] == '/'))
}

/// A well-formed identifier: separator well-formed, and either the reserved
/// template name or made of identifier characters only.
pub open spec fn wf_id(s: Seq<char>) -> bool {
    wf_sep(s) && (s == template_id() || (forall|i: int| 0 <= i < s.len() ==> id_char(#[trigger] s[i])))
}

/// The segments of `segs` joined with `/` separators.
pub open spec fn join_segs(segs: Seq<Seq<char>>) -> Seq<char>
    decreases segs.len(),
{
    if segs.len() == 0 {
        Seq::empty()
    } else if segs.len() == 1 {
        segs[0]
    } else {
        segs[0] + seq!['/'] + join_segs(segs.drop_first())
    }
}

/// Rejected identifier strings name the reason they violate the grammar.
#[derive(Debug, Clone, PartialEq, Eq)]
pub enum InvalidId {
    /// The string was empty.
    Empty,
    /// A character outside the accepted set, at this position.
    Char { pos: usize },
    /// A leading, trailing or doubled separator, at this position.
    Separator { pos: usize },
}

/// A validated test identifier.
#[derive(Debug, Clone, Hash)]
pub struct Id {
    repr: String,
    segs: Vec<String>,
}

impl View for Id {
    type V = Seq<char>;

    closed spec fn view(&self) -> Seq<char> {
        self.repr@
    }
}

impl PartialEq for Id {
    fn eq(&self, other: &Id) -> (r: bool) {
        self.repr == other.repr
    }
}

impl vstd::std_specs::cmp::PartialEqSpecImpl for Id {
    open spec fn obeys_eq_spec() -> bool {
        true
    }

    open spec fn eq_spec(&self, other: &Id) -> bool {
        self@ == other@
    }
}

impl Eq for Id {

}

/// Whether `c` may appear in an identifier segment.
pub fn is_seg_char(c: char) -> (r: bool)
    ensures
        r == seg_char(c),
{
    ('a' <= c && c <= 'z') || ('A' <= c && c <= 'Z') || ('0' <= c && c <= '9') || c == '_' || c
        == '.' || c == '-'
}

impl Id {
    /// The segments of this identifier, as sequences of characters.
    pub closed spec fn segs_view(&self) -> Seq<Seq<char>> {
        self.segs.deep_view()
    }

    /// Validity: the rendered form satisfies the identifier grammar and the
    /// stored segments join back to it.
    ///
    /// Every identifier built by [`Id::new`] is valid; operations that rely
    /// on the grammar ask for it again.
    pub open spec fn wf(self) -> bool {
        &&& wf_id(self@)
        &&& self.segs_view().len() >= 1
        &&& join_segs(self.segs_view()) == self@
        &&& (forall|k: int| 0 <= k < self.segs_view().len() ==> (#[trigger] self.segs_view()[k]).len() > 0)
        &&& (forall|k: int, j: int|
            0 <= k < self.segs_view().len() && 0 <= j < self.segs_view()[k].len()
                ==> #[trigger] self.segs_view()[k][j] != '/')
    }

    /// Whether this is the reserved identifier of the template test.
    pub fn is_template(&self) -> (r: bool)
        ensures
            r == (self@ == template_id()),
    {
        is_template_str(self.repr.as_str())
    }

    /// Validates `s` and takes it as an identifier.
    ///
    /// Succeeds exactly on the strings the identifier grammar accepts: the
    /// reserved template name, or one or more non-empty `/`-separated
    /// segments of segment characters.
    pub fn new(s: &str) -> (r: Result<Id, InvalidId>)
        ensures
            r is Ok <==> wf_id(s@),
            r matches Ok(id) ==> id@ == s@ && id.wf(),
    {
        if is_template_str(s) {
            proof {
                lemma_template_wf();
            }
            let segs = split_slash_str(s);
            return Ok(Id { repr: s.to_owned(), segs });
        }
        let n = s.unicode_len();
        if n == 0 {
            return Err(InvalidId::Empty);
        }
        let ghost sv = s@;
        let mut prev_slash = true;
        let mut i: usize = 0;
        while i < n
            invariant
                n == sv.len(),
                sv == s@,
                sv != template_id(),
                0 <= i <= n,
                n > 0,
                prev_slash == (i == 0 || sv[i - 1] == '/'),
                forall|j: int| 0 <= j < i ==> id_char(#[trigger] sv[j]),
                forall|j: int| 0 <= j < i - 1 ==> !(#[trigger] sv[j] == '/' && sv[j + 1] == '/'),
                i > 0 ==> sv[0] != '/',
            decreases n - i,
        {
            let c = s.get_char(i);
            if c == '/' {
                if prev_slash {
                    return Err(InvalidId::Separator { pos: i });
                }
                prev_slash = true;
            } else if is_seg_char(c) {
                prev_slash = false;
            } else {
                return Err(InvalidId::Char { pos: i });
            }
            i += 1;
        }
        if prev_slash {
            return Err(InvalidId::Separator { pos: n - 1 });
        }
        assert(wf_id(sv));
        let segs = split_slash_str(s);
        Ok(Id { repr: s.to_owned(), segs })
    }

    /// The rendered form of this identifier.
    pub fn as_str(&self) -> (r: &str)
        ensures
            r@ == self@,
    {
        self.repr.as_str()
    }

    /// The rendered form of this identifier as an owned string.
    pub fn to_string(&self) -> (r: String)
        ensures
            r@ == self@,
    {
        self.repr.clone()
    }

    /// The number of characters in the rendered form.
    pub fn len(&self) -> (r: usize)
        ensures
            r == self@.len(),
    {
        self.repr.as_str().unicode_len()
    }

    /// The segments of this identifier, in order.
    ///
    /// Joining the returned segments with `/` yields the rendered form; every
    /// segment is non-empty and free of separators.
    pub fn components(&self) -> (r: Vec<String>)
        requires
            self.wf(),
        ensures
            r.deep_view() == self.segs_view(),
            r.len() >= 1,
            join_segs(r.deep_view()) == self@,
    {
        let mut out: Vec<String> = Vec::new();
        let n = self.segs.len();
        let mut i: usize = 0;
        while i < n
            invariant
                n == self.segs.len(),
                0 <= i <= n,
                out.deep_view() =~~= self.segs.deep_view().take(i as int),
            decreases n - i,
        {
            let ghost before = out.deep_view();
            out.push(self.segs[i].clone());
            proof {
                assert(out.deep_view() =~~= before.push(self.segs.deep_view()[i as int]));
                assert(out.deep_view() =~~= self.segs.deep_view().take(i + 1));
            }
            i += 1;
        }
        proof {
            assert(out.deep_view() =~~= self.segs.deep_view());
        }
        out
    }

    /// An owned copy of this identifier.
    pub fn duplicate(&self) -> (r: Id)
        requires
            self.wf(),
        ensures
            r@ == self@,
            r.segs_view() == self.segs_view(),
            r.wf(),
    {
        let segs = self.components();
        Id { repr: self.repr.clone(), segs }
    }

    /// The last segment: the test's own name.
    pub fn name(&self) -> (r: String)
        requires
            self.wf(),
        ensures
            r@ == self.segs_view().last(),
    {
        self.segs[self.segs.len() - 1].clone()
    }
}

/// Re-parsing the rendered form of any identifier succeeds and returns an
/// equal identifier: `parse(format(id)) == id`.
pub fn parse_format_round_trip(id: &Id) -> (r: Id)
    requires
        id.wf(),
    ensures
        r.eq_spec(id),
        r@ == id@,
{
    match Id::new(id.as_str()) {
        Ok(re) => re,
        Err(_) => unreached(),
    }
}

/// The reserved template name is separator well-formed.
proof fn lemma_template_wf()
    ensures
        wf_sep(template_id()),
        template_id().len() == 9,
{
    let t = template_id();
    assert(t.len() == 9);
    assert(t[0] == '@');
    assert(t[1] == 't');
    assert(t[2] == 'e');
    assert(t[3] == 'm');
    assert(t[4] == 'p');
    assert(t[5] == 'l');
    assert(t[6] == 'a');
    assert(t[7] == 't');
    assert(t[8] == 'e');
    assert forall|i: int| 0 <= i < t.len() - 1 implies !(#[trigger] t[i] == '/' && t[i + 1] == '/') by {
        assert(t[i] != '/');
    }
}

/// Whether `s` is exactly the reserved template name.
fn is_template_str(s: &str) -> (r: bool)
    ensures
        r == (s@ == template_id()),
{
    let n = s.unicode_len();
    if n != 9 {
        return false;
    }
    let r = s.get_char(0) == '@' && s.get_char(1) == 't' && s.get_char(2) == 'e' && s.get_char(3)
        == 'm' && s.get_char(4) == 'p' && s.get_char(5) == 'l' && s.get_char(6) == 'a' && s.get_char(
        7,
    ) == 't' && s.get_char(8) == 'e';
    if r {
        assert(s@ =~= template_id());
    } else {
        assert(s@ != template_id());
    }
    r
}

/// Joining `xs ++ [y ++ [c]]` renders as joining `xs ++ [y]` and then `c`.
proof fn lemma_join_push_char(xs: Seq<Seq<char>>, y: Seq<char>, c: char)
    ensures
        join_segs(xs.push(y.push(c))) == join_segs(xs.push(y)).push(c),
    decreases xs.len(),
{
    if xs.len() == 0 {
        assert(join_segs(xs.push(y.push(c))) =~= join_segs(xs.push(y)).push(c));
    } else {
        lemma_join_push_char(xs.drop_first(), y, c);
        let a = xs.push(y.push(c));
        let b = xs.push(y);
        assert(a.drop_first() =~= xs.drop_first().push(y.push(c)));
        assert(b.drop_first() =~= xs.drop_first().push(y));
        assert(join_segs(a) == a[0] + seq!['/'] + join_segs(a.drop_first()));
        assert(join_segs(b) == b[0] + seq!['/'] + join_segs(b.drop_first()));
        assert(a[0] == b[0]);
        assert(join_segs(a) =~= join_segs(b).push(c));
    }
}

/// Opening a fresh segment after `xs ++ [y]` renders as a `/` separator.
proof fn lemma_join_push_empty(xs: Seq<Seq<char>>, y: Seq<char>)
    ensures
        join_segs(xs.push(y).push(Seq::empty())) == join_segs(xs.push(y)).push('/'),
    decreases xs.len(),
{
    if xs.len() == 0 {
        let a = xs.push(y).push(Seq::<char>::empty());
        assert(a.len() == 2);
        assert(a[0] == y);
        assert(a.drop_first() =~= seq![Seq::<char>::empty()]);
        assert(join_segs(a.drop_first()) == Seq::<char>::empty());
        assert(join_segs(a) == y + seq!['/'] + Seq::<char>::empty());
        assert(join_segs(xs.push(y)) == y);
        assert(y + seq!['/'] + Seq::<char>::empty() =~= y.push('/'));
    } else {
        lemma_join_push_empty(xs.drop_first(), y);
        let a = xs.push(y).push(Seq::<char>::empty());
        let b = xs.push(y);
        assert(a.drop_first() =~= xs.drop_first().push(y).push(Seq::empty()));
        assert(b.drop_first() =~= xs.drop_first().push(y));
        assert(join_segs(a) == a[0] + seq!['/'] + join_segs(a.drop_first()));
        assert(join_segs(b) == b[0] + seq!['/'] + join_segs(b.drop_first()));
        assert(a[0] == b[0]);
        assert(join_segs(a) =~= join_segs(b).push('/'));
    }
}

/// Splits a separator well-formed string at its `/` separators.
fn split_slash_str(s: &str) -> (r: Vec<String>)
    requires
        wf_sep(s@),
    ensures
        r.len() >= 1,
        join_segs(r.deep_view()) == s@,
        forall|k: int| 0 <= k < r.len() ==> (#[trigger] r.deep_view()[k]).len() > 0,
        forall|k: int, j: int|
            0 <= k < r.len() && 0 <= j < r.deep_view()[k].len() ==> #[trigger] r.deep_view()[k][j]
                != '/',
{
    let ghost sv = s@;
    let n = s.unicode_len();
    let mut out: Vec<String> = Vec::new();
    let mut cur = String::new();
    let mut i: usize = 0;
    let ghost mut start: int = 0;
    while i < n
        invariant
            n == sv.len(),
            sv == s@,
            wf_sep(sv),
            0 <= start <= i <= n,
            cur@ == sv.subrange(start, i as int),
            start == 0 || sv[start - 1] == '/',
            forall|j: int| start <= j < i ==> sv[j] != '/',
            join_segs(out.deep_view().push(cur@)) == sv.subrange(0, i as int),
            forall|k: int| 0 <= k < out.len() ==> (#[trigger] out.deep_view()[k]).len() > 0,
            forall|k: int, j: int|
                0 <= k < out.len() && 0 <= j < out.deep_view()[k].len() ==> #[trigger] out.deep_view()[k][j] != '/',
        decreases n - i,
    {
        let c = s.get_char(i);
        if c == '/' {
            proof {
                // a doubled or leading separator is excluded, so the segment
                // that ends here is non-empty
                if start == i {
                    if i == 0 {
                        assert(sv[0] != '/');
                    } else {
                        assert(sv[i - 1] == '/');
                        assert(!(sv[i - 1] == '/' && sv[i as int] == '/'));
                    }
                    assert(false);
                }
                lemma_join_push_empty(out.deep_view(), cur@);
                assert(sv.subrange(0, i + 1) =~= sv.subrange(0, i as int).push(sv[i as int]));
            }
            let ghost out_mid = out.deep_view();
            let ghost cur_mid = cur@;
            out.push(cur);
            proof {
                assert(out.deep_view() =~~= out_mid.push(cur_mid));
            }
            cur = String::new();
            proof {
                start = i + 1;
                assert(cur@ =~= sv.subrange(start, i + 1));
            }
        } else {
            proof {
                lemma_join_push_char(out.deep_view(), cur@, c);
                assert(sv.subrange(0, i + 1) =~= sv.subrange(0, i as int).push(sv[i as int]));
                assert(sv.subrange(start, i + 1) =~= sv.subrange(start, i as int).push(
                    sv[i as int],
                ));
            }
            push_char(&mut cur, c);
        }
        i += 1;
    }
    proof {
        assert(sv.subrange(0, n as int) =~= sv);
        // the final segment is non-empty: the last character is no separator
        if start == n {
            assert(n > 0 && sv[n - 1] == '/');
            assert(false);
        }
    }
    let ghost out_before = out.deep_view();
    let ghost cur_v = cur@;
    out.push(cur);
    proof {
        assert(out.deep_view() =~~= out_before.push(cur_v));
    }
    out
}


/// Well-formed segment lists split uniquely: two lists of non-empty,
/// separator-free segments with one joined rendering are one list.
pub proof fn lemma_join_injective(a: Seq<Seq<char>>, b: Seq<Seq<char>>)
    requires
        a.len() >= 1,
        b.len() >= 1,
        join_segs(a) == join_segs(b),
        forall|k: int| 0 <= k < a.len() ==> (#[trigger] a[k]).len() > 0,
        forall|k: int, j: int| 0 <= k < a.len() && 0 <= j < a[k].len() ==> #[trigger] a[k][j] != '/',
        forall|k: int| 0 <= k < b.len() ==> (#[trigger] b[k]).len() > 0,
        forall|k: int, j: int| 0 <= k < b.len() && 0 <= j < b[k].len() ==> #[trigger] b[k][j] != '/',
    ensures
        a == b,
    decreases a.len(),
{
    let s = join_segs(a);
    if a.len() == 1 && b.len() == 1 {
        assert(a =~= b);
    } else if a.len() == 1 {
        // a renders without separators, b with one
        assert(join_segs(b) == b[0] + seq!['/'] + join_segs(b.drop_first()));
        assert(join_segs(b)[b[0].len() as int] == '/');
        assert(s == a[0]);
        assert(s[b[0].len() as int] != '/');
        assert(false);
    } else if b.len() == 1 {
        assert(join_segs(a) == a[0] + seq!['/'] + join_segs(a.drop_first()));
        assert(join_segs(a)[a[0].len() as int] == '/');
        assert(join_segs(b) == b[0]);
        assert(s[a[0].len() as int] != '/');
        assert(false);
    } else {
        assert(join_segs(a) == a[0] + seq!['/'] + join_segs(a.drop_first()));
        assert(join_segs(b) == b[0] + seq!['/'] + join_segs(b.drop_first()));
        // the first separator pins the first segment's length
        assert(a[0].len() == b[0].len()) by {
            if a[0].len() < b[0].len() {
                assert(s[a[0].len() as int] == '/');
                assert(s[a[0].len() as int] == b[0][a[0].len() as int]);
                assert(b[0][a[0].len() as int] != '/');
                assert(false);
            }
            if b[0].len() < a[0].len() {
                assert(s[b[0].len() as int] == '/');
                assert(s[b[0].len() as int] == a[0][b[0].len() as int]);
                assert(a[0][b[0].len() as int] != '/');
                assert(false);
            }
        }
        assert(a[0] =~= b[0]) by {
            assert(forall|j: int| 0 <= j < a[0].len() ==> #[trigger] a[0][j] == s[j] && b[0][j] == s[j]);
        }
        assert(join_segs(a.drop_first()) =~= join_segs(b.drop_first())) by {
            assert(join_segs(a.drop_first()) =~= s.skip(a[0].len() as int + 1));
            assert(join_segs(b.drop_first()) =~= s.skip(b[0].len() as int + 1));
        }
        assert(forall|k: int|
            0 <= k < a.drop_first().len() ==> (#[trigger] a.drop_first()[k]).len() > 0 && a.drop_first()[k]
                == a[k + 1]);
        assert(forall|k: int|
            0 <= k < b.drop_first().len() ==> (#[trigger] b.drop_first()[k]).len() > 0 && b.drop_first()[k]
                == b[k + 1]);
        assert(forall|k: int, j: int|
            0 <= k < a.drop_first().len() && 0 <= j < a.drop_first()[k].len()
                ==> #[trigger] a.drop_first()[k][j] != '/');
        assert(forall|k: int, j: int|
            0 <= k < b.drop_first().len() && 0 <= j < b.drop_first()[k].len()
                ==> #[trigger] b.drop_first()[k][j] != '/');
        lemma_join_injective(a.drop_first(), b.drop_first());
        assert(a =~= b) by {
            assert(a.len() == b.len());
            assert(forall|k: int|
                1 <= k < a.len() ==> #[trigger] a[k] == a.drop_first()[k - 1] && b[k]
                    == b.drop_first()[k - 1]);
        }
    }
}

/// Two well-formed identifiers with one rendering have the same segments.
pub proof fn lemma_same_view_same_segs(a: &Id, b: &Id)
    requires
        a.wf(),
        b.wf(),
        a@ == b@,
    ensures
        a.segs_view() == b.segs_view(),
{
    lemma_join_injective(a.segs_view(), b.segs_view());
}


/// Joining after appending a segment appends the segment after a separator.
pub proof fn lemma_join_push(s: Seq<Seq<char>>, x: Seq<char>)
    ensures
        join_segs(s.push(x)) == if s.len() == 0 {
            x
        } else {
            join_segs(s) + seq!['/'] + x
        },
    decreases s.len(),
{
    if s.len() == 0 {
        assert(s.push(x).len() == 1);
        assert(s.push(x)[0] == x);
    } else if s.len() == 1 {
        assert(s.push(x).drop_first() =~= seq![x]);
        assert(s.push(x)[0] == s[0]);
        assert(join_segs(seq![x]) == x);
        assert(join_segs(s.push(x)) =~= s[0] + seq!['/'] + x);
        assert(join_segs(s) == s[0]);
    } else {
        assert(s.push(x).drop_first() =~= s.drop_first().push(x));
        lemma_join_push(s.drop_first(), x);
        assert(join_segs(s.push(x)) == s[0] + seq!['/'] + (join_segs(s.drop_first()) + seq!['/']
            + x));
        assert(join_segs(s) + seq!['/'] + x =~= s[0] + seq!['/'] + (join_segs(s.drop_first())
            + seq!['/'] + x));
    }
}

/// Every character of every segment appears in the joined rendering.
pub proof fn lemma_join_char_member(s: Seq<Seq<char>>, k: int, j: int)
    requires
        0 <= k < s.len(),
        0 <= j < s[k].len(),
    ensures
        exists|p: int| 0 <= p < join_segs(s).len() && #[trigger] join_segs(s)[p] == s[k][j],
    decreases k,
{
    if s.len() == 1 {
        assert(join_segs(s)[j] == s[k][j]);
    } else if k == 0 {
        assert(join_segs(s) == s[0] + seq!['/'] + join_segs(s.drop_first()));
        assert(join_segs(s)[j] == s[k][j]);
    } else {
        assert(join_segs(s) == s[0] + seq!['/'] + join_segs(s.drop_first()));
        assert(s.drop_first()[k - 1] == s[k]);
        lemma_join_char_member(s.drop_first(), k - 1, j);
        let p = choose|p: int|
            0 <= p < join_segs(s.drop_first()).len() && #[trigger] join_segs(s.drop_first())[p]
                == s.drop_first()[k - 1][j];
        assert(join_segs(s)[s[0].len() + 1 + p] == s[k][j]);
    }
}

/// A string the collector accepts as one path component: a non-empty run of
/// segment characters, or the reserved template name.
pub open spec fn spec_seg_ok(s: Seq<char>) -> bool {
    (s.len() > 0 && forall|j: int| 0 <= j < s.len() ==> seg_char(#[trigger] s[j])) || s
        == template_id()
}

/// Whether `s` is acceptable as one identifier segment.
pub fn is_segment_ok(s: &str) -> (r: bool)
    ensures
        r == spec_seg_ok(s@),
{
    if is_template_str(s) {
        return true;
    }
    let n = s.unicode_len();
    if n == 0 {
        return false;
    }
    let mut i: usize = 0;
    while i < n
        invariant
            n == s@.len(),
            0 <= i <= n,
            s@ != template_id(),
            forall|j: int| 0 <= j < i ==> seg_char(#[trigger] s@[j]),
        decreases n - i,
    {
        if !is_seg_char(s.get_char(i)) {
            return false;
        }
        i += 1;
    }
    true
}

/// No character of the reserved template name is a separator.
pub proof fn lemma_template_no_slash()
    ensures
        forall|j: int| 0 <= j < template_id().len() ==> #[trigger] template_id()[j] != '/',
{
    assert forall|j: int| 0 <= j < template_id().len() implies #[trigger] template_id()[j]
        != '/' by {
        if j == 0 {
            assert(template_id()[0] == '@');
        } else if j == 1 {
            assert(template_id()[1] == 't');
        } else if j == 2 {
            assert(template_id()[2] == 'e');
        } else if j == 3 {
            assert(template_id()[3] == 'm');
        } else if j == 4 {
            assert(template_id()[4] == 'p');
        } else if j == 5 {
            assert(template_id()[5] == 'l');
        } else if j == 6 {
            assert(template_id()[6] == 'a');
        } else if j == 7 {
            assert(template_id()[7] == 't');
        } else {
            assert(template_id()[8] == 'e');
        }
    }
}

/// The segments of a well-formed identifier are each acceptable components:
/// plain runs of segment characters, or the single reserved template name.
pub proof fn lemma_segments_ok(id: &Id)
    requires
        id.wf(),
    ensures
        forall|k: int| 0 <= k < id.segs_view().len() ==> spec_seg_ok(#[trigger] id.segs_view()[k]),
{
    let segs = id.segs_view();
    if id@ == template_id() {
        // the rendering holds no separator, so there is exactly one segment
        lemma_template_no_slash();
        if segs.len() >= 2 {
            assert(join_segs(segs) == segs[0] + seq!['/'] + join_segs(segs.drop_first()));
            assert(id@[segs[0].len() as int] == '/');
            assert(false);
        }
        assert(segs[0] == id@);
    } else {
        assert forall|k: int| 0 <= k < segs.len() implies spec_seg_ok(#[trigger] segs[k]) by {
            assert forall|j: int| 0 <= j < segs[k].len() implies seg_char(
                #[trigger] segs[k][j],
            ) by {
                lemma_join_char_member(segs, k, j);
                let p = choose|p: int|
                    0 <= p < join_segs(segs).len() && #[trigger] join_segs(segs)[p] == segs[k][j];
                assert(id_char(id@[p]));
            }
        }
    }
}

} // verus!
