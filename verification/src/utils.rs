//! Metadata patching and version-number generation.
//!
//! The packaged artifact is named by a fresh version number — the local
//! date followed by a three-digit draw — and the package metadata has its
//! id and localized title rewritten to that number before it is archived.

use vstd::prelude::*;

verus! {

/// `pat` occurs in `s` at position `i`.
pub open spec fn is_match_at(s: Seq<u8>, pat: Seq<u8>, i: int) -> bool {
    &&& 0 <= i
    &&& i + pat.len() <= s.len()
    &&& s.subrange(i, i + pat.len() as int) == pat
}

/// The first position at which `pat` occurs in `s`, or -1 when it never
/// does.
pub open spec fn spec_find(s: Seq<u8>, pat: Seq<u8>) -> int
    decreases s.len(),
{
    if pat.len() > s.len() {
        -1
    } else if s.subrange(0, pat.len() as int) == pat {
        0
    } else if s.len() == 0 {
        -1
    } else {
        let r = spec_find(s.drop_first(), pat);
        if r < 0 {
            -1
        } else {
            r + 1
        }
    }
}

/// `spec_find` returns the first match position, and -1 exactly when there
/// is no match.
pub proof fn lemma_spec_find(s: Seq<u8>, pat: Seq<u8>)
    ensures
        spec_find(s, pat) >= 0 ==> {
            &&& is_match_at(s, pat, spec_find(s, pat))
            &&& forall|j: int| 0 <= j < spec_find(s, pat) ==> !is_match_at(s, pat, j)
        },
        spec_find(s, pat) == -1 ==> forall|j: int| !is_match_at(s, pat, j),
    decreases s.len(),
{
    if pat.len() > s.len() {
    } else if s.subrange(0, pat.len() as int) == pat {
    } else {
        assert(s.len() > 0) by {
            if s.len() == 0 {
                assert(s.subrange(0, pat.len() as int) =~= pat);
            }
        }
        assert forall|j: int| 1 <= j implies is_match_at(s, pat, j) == is_match_at(
            s.drop_first(),
            pat,
            j - 1,
        ) by {
            if j + pat.len() <= s.len() {
                assert(s.drop_first().subrange(j - 1, j - 1 + pat.len() as int) =~= s.subrange(
                    j,
                    j + pat.len() as int,
                ));
            } else {
                assert(s.drop_first().len() == s.len() - 1);
                assert(!is_match_at(s, pat, j));
                assert(!is_match_at(s.drop_first(), pat, j - 1));
            }
        }
        if s.len() > 0 {
            lemma_spec_find(s.drop_first(), pat);
        }
    }
}

/// Bytes `a..b` of `v`.
pub fn subvec(v: &Vec<u8>, a: usize, b: usize) -> (r: Vec<u8>)
    requires
        a <= b <= v@.len(),
    ensures
        r@ == v@.subrange(a as int, b as int),
{
    let mut r: Vec<u8> = Vec::new();
    let mut i: usize = a;
    while i < b
        invariant
            a <= i <= b <= v@.len(),
            r@ == v@.subrange(a as int, i as int),
        decreases b - i,
    {
        r.push(v[i]);
        i = i + 1;
    }
    r
}

/// Append all of `v` to `out`.
pub fn append_all(out: &mut Vec<u8>, v: &Vec<u8>)
    ensures
        final(out)@ == old(out)@ + v@,
{
    let mut i: usize = 0;
    while i < v.len()
        invariant
            i <= v@.len(),
            out@ == old(out)@ + v@.subrange(0, i as int),
        decreases v@.len() - i,
    {
        out.push(v[i]);
        i = i + 1;
    }
    proof {
        assert(out@ =~= old(out)@ + v@);
    }
}

/// Whether `pat` occurs in `content` at position `i`.
fn match_at(content: &Vec<u8>, pat: &Vec<u8>, i: usize) -> (r: bool)
    requires
        i + pat@.len() <= content@.len(),
    ensures
        r == is_match_at(content@, pat@, i as int),
{
    let n = content.len();
    let m = pat.len();
    let mut j: usize = 0;
    while j < m
        invariant
            j <= m,
            i + m <= n == content@.len(),
            m == pat@.len(),
            forall|k: int| 0 <= k < j ==> content@[i + k] == pat@[k],
        decreases m - j,
    {
        if content[i + j] != pat[j] {
            proof {
                if is_match_at(content@, pat@, i as int) {
                    assert(content@.subrange(i as int, i + m as int)[j as int] == pat@[j as int]);
                }
            }
            return false;
        }
        j = j + 1;
    }
    proof {
        assert(content@.subrange(i as int, i + m as int) =~= pat@);
    }
    true
}

/// The first position at which `pat` occurs in `content`.
pub fn find(content: &Vec<u8>, pat: &Vec<u8>) -> (r: Option<usize>)
    ensures
        match r {
            Some(i) => spec_find(content@, pat@) == i as int,
            None => spec_find(content@, pat@) == -1,
        },
{
    proof {
        lemma_spec_find(content@, pat@);
    }
    let n = content.len();
    let m = pat.len();
    if m > n {
        return None;
    }
    if m == 0 {
        assert(content@.subrange(0, 0) =~= pat@);
        return Some(0);
    }
    let mut i: usize = 0;
    while i <= n - m
        invariant
            1 <= m <= n,
            n == content@.len(),
            m == pat@.len(),
            i <= n - m + 1,
            forall|j: int| 0 <= j < i ==> !is_match_at(content@, pat@, j),
        decreases n - m + 1 - i,
    {
        if match_at(content, pat, i) {
            proof {
                lemma_spec_find(content@, pat@);
            }
            return Some(i);
        }
        i = i + 1;
    }
    proof {
        lemma_spec_find(content@, pat@);
        assert forall|j: int| !is_match_at(content@, pat@, j) by {
            if is_match_at(content@, pat@, j) {
                assert(0 <= j <= n - m);
            }
        }
    }
    None
}

/// What patching one tag pair produces: locate the first start tag, the
/// first end tag from there on, and replace the first occurrence of the
/// whole enclosed segment with the tags around the new value.  `None` when
/// either tag is missing.
pub open spec fn spec_replace_tag(
    content: Seq<u8>,
    st: Seq<u8>,
    et: Seq<u8>,
    nv: Seq<u8>,
) -> Option<Seq<u8>> {
    let s = spec_find(content, st);
    if s < 0 {
        None
    } else {
        let e_rel = spec_find(content.skip(s), et);
        if e_rel < 0 {
            None
        } else {
            let seg_len = e_rel + et.len();
            let old_seg = content.subrange(s, s + seg_len);
            let k = spec_find(content, old_seg);
            Some(content.take(k) + st + nv + et + content.skip(k + seg_len))
        }
    }
}

/// Replace the payload between the first `start_tag` and the following
/// `end_tag` with `new_value`, keeping the tags; `None` when either tag is
/// missing.
pub fn replace_tag(
    content: &Vec<u8>,
    start_tag: &Vec<u8>,
    end_tag: &Vec<u8>,
    new_value: &Vec<u8>,
) -> (r: Option<Vec<u8>>)
    ensures
        match r {
            Some(out) => spec_replace_tag(content@, start_tag@, end_tag@, new_value@) == Some(
                out@,
            ),
            None => spec_replace_tag(content@, start_tag@, end_tag@, new_value@) is None,
        },
{
    let n = content.len();
    let s = match find(content, start_tag) {
        Some(s) => s,
        None => {
            return None;
        },
    };
    proof {
        lemma_spec_find(content@, start_tag@);
    }
    assert(s + start_tag@.len() <= n);
    let suffix = subvec(content, s, n);
    proof {
        assert(suffix@ =~= content@.skip(s as int));
    }
    let e_rel = match find(&suffix, end_tag) {
        Some(e) => e,
        None => {
            return None;
        },
    };
    proof {
        lemma_spec_find(suffix@, end_tag@);
    }
    assert(e_rel + end_tag@.len() <= n - s);
    let seg_len = e_rel + end_tag.len();
    let old_seg = subvec(content, s, s + seg_len);
    let k = match find(content, &old_seg) {
        Some(k) => k,
        None => {
            proof {
                lemma_spec_find(content@, old_seg@);
                assert(is_match_at(content@, old_seg@, s as int));
            }
            return None;
        },
    };
    proof {
        lemma_spec_find(content@, old_seg@);
    }
    assert(k + seg_len <= n);
    let mut out = subvec(content, 0, k);
    append_all(&mut out, start_tag);
    append_all(&mut out, new_value);
    append_all(&mut out, end_tag);
    let tail = subvec(content, k + seg_len, n);
    append_all(&mut out, &tail);
    proof {
        assert(content@.take(k as int) =~= content@.subrange(0, k as int));
        assert(content@.skip(k + seg_len) =~= content@.subrange((k + seg_len) as int, n as int));
    }
    Some(out)
}

/// The id tag pair of the metadata file: `<id>` and `</id>`.
pub open spec fn spec_id_open() -> Seq<u8> {
    seq![60u8, 105u8, 100u8, 62u8]
}

pub open spec fn spec_id_close() -> Seq<u8> {
    seq![60u8, 47u8, 105u8, 100u8, 62u8]
}

/// The localized title tag pair: `<title locale="zh_CN"><![CDATA[` and
/// `]]></title>`.
pub open spec fn spec_title_open() -> Seq<u8> {
    seq![
        60u8, 116u8, 105u8, 116u8, 108u8, 101u8, 32u8, 108u8, 111u8, 99u8, 97u8, 108u8, 101u8,
        61u8, 34u8, 122u8, 104u8, 95u8, 67u8, 78u8, 34u8, 62u8, 60u8, 33u8, 91u8, 67u8, 68u8,
        65u8, 84u8, 65u8, 91u8,
    ]
}

pub open spec fn spec_title_close() -> Seq<u8> {
    seq![93u8, 93u8, 62u8, 60u8, 47u8, 116u8, 105u8, 116u8, 108u8, 101u8, 62u8]
}

/// The bytes of `<id>`.
pub fn id_open_tag() -> (v: Vec<u8>)
    ensures
        v@ == spec_id_open(),
{
    let mut v: Vec<u8> = Vec::new();
    v.push(60u8);
    v.push(105u8);
    v.push(100u8);
    v.push(62u8);
    proof {
        assert(v@ =~= spec_id_open());
    }
    v
}

/// The bytes of `</id>`.
pub fn id_close_tag() -> (v: Vec<u8>)
    ensures
        v@ == spec_id_close(),
{
    let mut v: Vec<u8> = Vec::new();
    v.push(60u8);
    v.push(47u8);
    v.push(105u8);
    v.push(100u8);
    v.push(62u8);
    proof {
        assert(v@ =~= spec_id_close());
    }
    v
}

/// The bytes of `<title locale="zh_CN"><![CDATA[`.
pub fn title_open_tag() -> (v: Vec<u8>)
    ensures
        v@ == spec_title_open(),
{
    let mut v: Vec<u8> = Vec::new();
    v.push(60u8);
    v.push(116u8);
    v.push(105u8);
    v.push(116u8);
    v.push(108u8);
    v.push(101u8);
    v.push(32u8);
    v.push(108u8);
    v.push(111u8);
    v.push(99u8);
    v.push(97u8);
    v.push(108u8);
    v.push(101u8);
    v.push(61u8);
    v.push(34u8);
    v.push(122u8);
    v.push(104u8);
    v.push(95u8);
    v.push(67u8);
    v.push(78u8);
    v.push(34u8);
    v.push(62u8);
    v.push(60u8);
    v.push(33u8);
    v.push(91u8);
    v.push(67u8);
    v.push(68u8);
    v.push(65u8);
    v.push(84u8);
    v.push(65u8);
    v.push(91u8);
    proof {
        assert(v@ =~= spec_title_open());
    }
    v
}

/// The bytes of `]]></title>`.
pub fn title_close_tag() -> (v: Vec<u8>)
    ensures
        v@ == spec_title_close(),
{
    let mut v: Vec<u8> = Vec::new();
    v.push(93u8);
    v.push(93u8);
    v.push(62u8);
    v.push(60u8);
    v.push(47u8);
    v.push(116u8);
    v.push(105u8);
    v.push(116u8);
    v.push(108u8);
    v.push(101u8);
    v.push(62u8);
    proof {
        assert(v@ =~= spec_title_close());
    }
    v
}

/// What rewriting the metadata produces: the first id payload, then the
/// first localized-title payload, both replaced by `nv`; `None` — and no
/// change at all — when either tag pair is missing.
pub open spec fn spec_replace_id_and_title(content: Seq<u8>, nv: Seq<u8>) -> Option<Seq<u8>> {
    match spec_replace_tag(content, spec_id_open(), spec_id_close(), nv) {
        None => None,
        Some(c1) => spec_replace_tag(c1, spec_title_open(), spec_title_close(), nv),
    }
}

/// Rewrite the id element and the localized title element of the metadata
/// to `new_number`; both replacements succeed, or `None` comes back and the
/// caller keeps the file untouched.
pub fn replace_id_and_title(content: &Vec<u8>, new_number: &Vec<u8>) -> (r: Option<Vec<u8>>)
    ensures
        match r {
            Some(out) => spec_replace_id_and_title(content@, new_number@) == Some(out@),
            None => spec_replace_id_and_title(content@, new_number@) is None,
        },
{
    let ido = id_open_tag();
    let idc = id_close_tag();
    let c1 = match replace_tag(content, &ido, &idc, new_number) {
        Some(c1) => c1,
        None => {
            return None;
        },
    };
    let tto = title_open_tag();
    let ttc = title_close_tag();
    replace_tag(&c1, &tto, &ttc, new_number)
}

/// A match of a concatenation is a match of its first part.
pub proof fn lemma_match_prefix(s: Seq<u8>, p: Seq<u8>, q: Seq<u8>, i: int)
    requires
        is_match_at(s, p + q, i),
    ensures
        is_match_at(s, p, i),
{
    assert(s.subrange(i, i + p.len() as int) =~= (p + q).subrange(0, p.len() as int));
    assert((p + q).subrange(0, p.len() as int) =~= p);
}

/// Replacing a tag pair whose first occurrences delimit the payload `m`
/// swaps exactly that payload: everything before the start tag and after
/// the end tag survives unchanged.
pub proof fn lemma_replace_tag_at(
    a: Seq<u8>,
    st: Seq<u8>,
    m: Seq<u8>,
    et: Seq<u8>,
    b: Seq<u8>,
    nv: Seq<u8>,
)
    requires
        spec_find(a + st + m + et + b, st) == a.len(),
        spec_find((a + st + m + et + b).skip(a.len() as int), et) == st.len() + m.len(),
    ensures
        spec_replace_tag(a + st + m + et + b, st, et, nv) == Some(a + st + nv + et + b),
{
    let content = a + st + m + et + b;
    let s = a.len() as int;
    let seg_len = st.len() + m.len() + et.len();
    let old_seg = content.subrange(s, s + seg_len);
    assert(old_seg =~= st + m + et);
    lemma_spec_find(content, old_seg);
    lemma_spec_find(content, st);
    assert(is_match_at(content, old_seg, s));
    let k = spec_find(content, old_seg);
    assert(k >= 0);
    assert(k <= s);
    assert(k >= s) by {
        if k < s {
            assert(old_seg =~= st + (m + et));
            lemma_match_prefix(content, st, m + et, k);
        }
    }
    assert(content.take(k) =~= a);
    assert(content.skip(k + seg_len) =~= b);
    assert(content.take(k) + st + nv + et + content.skip(k + seg_len) =~= a + st + nv + et + b);
}

/// Patching the metadata twice, first with one number and then with
/// another, leaves the id and the localized title each holding the second
/// number, and everything else as one patch with the second number alone
/// would leave it.  The hypotheses say the file and its patched forms are
/// cleanly tagged: each patching step finds its tag pair exactly where the
/// written shape shows it.
#[verifier::rlimit(60)]
pub proof fn lemma_patch_metadata_twice(
    a: Seq<u8>,
    m: Seq<u8>,
    c: Seq<u8>,
    t: Seq<u8>,
    e: Seq<u8>,
    n1: Seq<u8>,
    n2: Seq<u8>,
)
    requires
        spec_find(
            a + spec_id_open() + m + spec_id_close() + (c + spec_title_open() + t
                + spec_title_close() + e),
            spec_id_open(),
        ) == a.len(),
        spec_find(
            (a + spec_id_open() + m + spec_id_close() + (c + spec_title_open() + t
                + spec_title_close() + e)).skip(a.len() as int),
            spec_id_close(),
        ) == spec_id_open().len() + m.len(),
        spec_find(
            (a + spec_id_open() + n1 + spec_id_close() + c) + spec_title_open() + t
                + spec_title_close() + e,
            spec_title_open(),
        ) == (a + spec_id_open() + n1 + spec_id_close() + c).len(),
        spec_find(
            ((a + spec_id_open() + n1 + spec_id_close() + c) + spec_title_open() + t
                + spec_title_close() + e).skip(
                (a + spec_id_open() + n1 + spec_id_close() + c).len() as int,
            ),
            spec_title_close(),
        ) == spec_title_open().len() + t.len(),
        spec_find(
            a + spec_id_open() + n1 + spec_id_close() + (c + spec_title_open() + n1
                + spec_title_close() + e),
            spec_id_open(),
        ) == a.len(),
        spec_find(
            (a + spec_id_open() + n1 + spec_id_close() + (c + spec_title_open() + n1
                + spec_title_close() + e)).skip(a.len() as int),
            spec_id_close(),
        ) == spec_id_open().len() + n1.len(),
        spec_find(
            (a + spec_id_open() + n2 + spec_id_close() + c) + spec_title_open() + n1
                + spec_title_close() + e,
            spec_title_open(),
        ) == (a + spec_id_open() + n2 + spec_id_close() + c).len(),
        spec_find(
            ((a + spec_id_open() + n2 + spec_id_close() + c) + spec_title_open() + n1
                + spec_title_close() + e).skip(
                (a + spec_id_open() + n2 + spec_id_close() + c).len() as int,
            ),
            spec_title_close(),
        ) == spec_title_open().len() + n1.len(),
    ensures
        spec_replace_id_and_title(
            a + spec_id_open() + m + spec_id_close() + (c + spec_title_open() + t
                + spec_title_close() + e),
            n1,
        ) == Some(
            a + spec_id_open() + n1 + spec_id_close() + (c + spec_title_open() + n1
                + spec_title_close() + e),
        ),
        spec_replace_id_and_title(
            a + spec_id_open() + n1 + spec_id_close() + (c + spec_title_open() + n1
                + spec_title_close() + e),
            n2,
        ) == Some(
            a + spec_id_open() + n2 + spec_id_close() + (c + spec_title_open() + n2
                + spec_title_close() + e),
        ),
{
    let ido = spec_id_open();
    let idc = spec_id_close();
    let tto = spec_title_open();
    let ttc = spec_title_close();
    // first pass: the id payload becomes n1, then the title payload does
    lemma_replace_tag_at(a, ido, m, idc, c + tto + t + ttc + e, n1);
    lemma_replace_tag_at(a + ido + n1 + idc + c, tto, t, ttc, e, n1);
    assert(a + ido + n1 + idc + (c + tto + t + ttc + e) =~= (a + ido + n1 + idc + c) + tto + t
        + ttc + e);
    assert((a + ido + n1 + idc + c) + tto + n1 + ttc + e =~= a + ido + n1 + idc + (c + tto + n1
        + ttc + e));
    // second pass over the once-patched file, with n2
    lemma_replace_tag_at(a, ido, n1, idc, c + tto + n1 + ttc + e, n2);
    lemma_replace_tag_at(a + ido + n2 + idc + c, tto, n1, ttc, e, n2);
    assert(a + ido + n2 + idc + (c + tto + n1 + ttc + e) =~= (a + ido + n2 + idc + c) + tto + n1
        + ttc + e);
    assert((a + ido + n2 + idc + c) + tto + n2 + ttc + e =~= a + ido + n2 + idc + (c + tto + n2
        + ttc + e));
}


/// Every byte is a decimal digit.
pub open spec fn all_digits(s: Seq<u8>) -> bool {
    forall|i: int| 0 <= i < s.len() ==> 48 <= #[trigger] s[i] <= 57
}

/// A match at `pos` with none before it pins `spec_find` down.
pub proof fn lemma_find_is(s: Seq<u8>, pat: Seq<u8>, pos: int)
    requires
        is_match_at(s, pat, pos),
        forall|j: int| 0 <= j < pos ==> !is_match_at(s, pat, j),
    ensures
        spec_find(s, pat) == pos,
{
    lemma_spec_find(s, pat);
}

/// A first match that lies inside a prefix stays the first match whatever
/// follows the prefix.
pub proof fn lemma_find_in_prefix(
    p: Seq<u8>,
    x: Seq<u8>,
    y: Seq<u8>,
    pat: Seq<u8>,
    fpos: int,
)
    requires
        spec_find(p + y, pat) == fpos,
        0 <= fpos,
        fpos + pat.len() <= p.len(),
    ensures
        spec_find(p + x, pat) == fpos,
{
    lemma_spec_find(p + y, pat);
    assert((p + x).subrange(fpos, fpos + pat.len() as int) =~= (p + y).subrange(
        fpos,
        fpos + pat.len() as int,
    ));
    assert(is_match_at(p + x, pat, fpos));
    assert forall|j: int| 0 <= j < fpos implies !is_match_at(p + x, pat, j) by {
        if is_match_at(p + x, pat, j) {
            assert((p + y).subrange(j, j + pat.len() as int) =~= (p + x).subrange(
                j,
                j + pat.len() as int,
            ));
            assert(is_match_at(p + y, pat, j));
        }
    }
    lemma_find_is(p + x, pat, fpos);
}

/// Swapping a digits-only payload in for the delimited one moves a later
/// first match of a digit-free tag by exactly the length difference: the
/// tag cannot appear inside the new payload, across its edges, or anywhere
/// it did not already appear.
pub proof fn lemma_find_survives_payload_swap(
    p: Seq<u8>,
    m: Seq<u8>,
    n: Seq<u8>,
    s: Seq<u8>,
    s2: Seq<u8>,
    pat: Seq<u8>,
    k: int,
)
    requires
        spec_find(p + m + s, pat) == p.len() + m.len() + k,
        0 <= k,
        k + pat.len() <= s.len(),
        k + pat.len() <= s2.len(),
        s.subrange(0, k + pat.len() as int) == s2.subrange(0, k + pat.len() as int),
        all_digits(n),
        n.len() > 0,
        pat.len() > 0,
        forall|i: int| 0 <= i < pat.len() ==> !(48 <= #[trigger] pat[i] <= 57),
    ensures
        spec_find(p + n + s2, pat) == p.len() + n.len() + k,
{
    let c0 = p + m + s;
    let c1 = p + n + s2;
    let pos0 = p.len() + m.len() + k;
    let pos1 = p.len() + n.len() + k;
    lemma_spec_find(c0, pat);
    assert(c0.subrange(pos0 as int, pos0 + pat.len() as int) =~= s.subrange(
        k,
        k + pat.len() as int,
    ));
    assert(s.subrange(k, k + pat.len() as int) =~= s.subrange(0, k + pat.len() as int).subrange(
        k,
        k + pat.len() as int,
    ));
    assert(s2.subrange(k, k + pat.len() as int) =~= s2.subrange(0, k + pat.len() as int).subrange(
        k,
        k + pat.len() as int,
    ));
    assert(c1.subrange(pos1 as int, pos1 + pat.len() as int) =~= s2.subrange(
        k,
        k + pat.len() as int,
    ));
    assert(is_match_at(c1, pat, pos1 as int));
    assert forall|j: int| 0 <= j < pos1 implies !is_match_at(c1, pat, j) by {
        if is_match_at(c1, pat, j) {
            if j + pat.len() <= p.len() {
                // the window lies in the unchanged prefix
                assert(c0.subrange(j, j + pat.len() as int) =~= c1.subrange(
                    j,
                    j + pat.len() as int,
                ));
                assert(is_match_at(c0, pat, j));
            } else if j < p.len() + n.len() {
                // the window touches the digits-only payload
                let pos = if j >= p.len() {
                    j
                } else {
                    p.len() as int
                };
                assert(p.len() <= pos < p.len() + n.len());
                assert(j <= pos < j + pat.len());
                assert(c1[pos] == n[pos - p.len()]);
                assert(48 <= c1[pos] <= 57);
                assert(c1.subrange(j, j + pat.len() as int)[pos - j] == pat[pos - j]);
                assert(!(48 <= pat[pos - j] <= 57));
            } else {
                // the window lies in the part of the tail both sides share
                let j2 = j - p.len() - n.len();
                assert(0 <= j2 < k);
                assert(c1.subrange(j, j + pat.len() as int) =~= s2.subrange(
                    j2,
                    j2 + pat.len() as int,
                ));
                assert(s2.subrange(j2, j2 + pat.len() as int) =~= s2.subrange(
                    0,
                    k + pat.len() as int,
                ).subrange(j2, j2 + pat.len() as int));
                assert(s.subrange(j2, j2 + pat.len() as int) =~= s.subrange(
                    0,
                    k + pat.len() as int,
                ).subrange(j2, j2 + pat.len() as int));
                assert(c0.subrange(
                    p.len() + m.len() + j2,
                    p.len() + m.len() + j2 + pat.len(),
                ) =~= s.subrange(j2, j2 + pat.len() as int));
                assert(is_match_at(c0, pat, p.len() + m.len() + j2));
            }
        }
    }
    lemma_find_is(c1, pat, pos1 as int);
}

/// A digit-free tag that follows a digits-only payload is first found
/// right behind the payload, as long as it does not already begin inside
/// whatever precedes the payload.
pub proof fn lemma_find_tag_after_digits(
    pre: Seq<u8>,
    nv: Seq<u8>,
    pat: Seq<u8>,
    rest: Seq<u8>,
)
    requires
        all_digits(nv),
        pat.len() > 0,
        !(48 <= pat[0] <= 57),
        forall|j: int| 0 <= j < pre.len() ==> !is_match_at(pre + nv + pat + rest, pat, j),
    ensures
        spec_find(pre + nv + pat + rest, pat) == pre.len() + nv.len(),
{
    let x = pre + nv + pat + rest;
    let pos = pre.len() + nv.len();
    assert(x.subrange(pos as int, pos + pat.len() as int) =~= pat);
    assert(is_match_at(x, pat, pos as int));
    assert forall|j: int| 0 <= j < pos implies !is_match_at(x, pat, j) by {
        if is_match_at(x, pat, j) && j >= pre.len() {
            assert(x.subrange(j, j + pat.len() as int)[0] == pat[0]);
            assert(x[j] == nv[j - pre.len()]);
            assert(48 <= x[j] <= 57);
        }
    }
    lemma_find_is(x, pat, pos as int);
}

/// The first id end tag after a digits-only payload sits right behind it:
/// the end tag cannot begin inside the open tag or inside the digits.
pub proof fn lemma_find_id_close_after_digits(nv: Seq<u8>, rest: Seq<u8>)
    requires
        all_digits(nv),
    ensures
        spec_find(spec_id_open() + nv + spec_id_close() + rest, spec_id_close())
            == spec_id_open().len() + nv.len(),
{
    let ido = spec_id_open();
    let idc = spec_id_close();
    let x = ido + nv + idc + rest;
    assert forall|j: int| 0 <= j < ido.len() implies !is_match_at(x, idc, j) by {
        if is_match_at(x, idc, j) {
            if j == 0 {
                assert(x.subrange(j, j + idc.len() as int)[1] == idc[1]);
            } else {
                assert(x.subrange(j, j + idc.len() as int)[0] == idc[0]);
                assert(x[j] == ido[j]);
            }
        }
    }
    lemma_find_tag_after_digits(ido, nv, idc, rest);
}

/// The first title end tag after a digits-only payload sits right behind
/// it: neither the open tag nor the digits hold its leading byte.
pub proof fn lemma_find_title_close_after_digits(nv: Seq<u8>, rest: Seq<u8>)
    requires
        all_digits(nv),
    ensures
        spec_find(spec_title_open() + nv + spec_title_close() + rest, spec_title_close())
            == spec_title_open().len() + nv.len(),
{
    let tto = spec_title_open();
    let ttc = spec_title_close();
    let x = tto + nv + ttc + rest;
    assert(forall|i: int| 0 <= i < tto.len() ==> #[trigger] tto[i] != 93u8);
    assert forall|j: int| 0 <= j < tto.len() implies !is_match_at(x, ttc, j) by {
        if is_match_at(x, ttc, j) {
            assert(x.subrange(j, j + ttc.len() as int)[0] == ttc[0]);
            assert(x[j] == tto[j]);
        }
    }
    lemma_find_tag_after_digits(tto, nv, ttc, rest);
}

/// Patching the metadata twice, with any two nonempty digits-only version
/// numbers in turn, leaves the id and the localized title each holding the
/// second number and everything else untouched.  The hypotheses speak only
/// of the unpatched file: its first id tags delimit the id payload where
/// the written shape shows them, and its first title tags follow with the
/// title payload between them.
#[verifier::rlimit(100)]
pub proof fn lemma_patch_metadata_twice_digits(
    a: Seq<u8>,
    m: Seq<u8>,
    c: Seq<u8>,
    t: Seq<u8>,
    e: Seq<u8>,
    n1: Seq<u8>,
    n2: Seq<u8>,
)
    requires
        spec_find(
            a + spec_id_open() + m + spec_id_close() + (c + spec_title_open() + t
                + spec_title_close() + e),
            spec_id_open(),
        ) == a.len(),
        spec_find(
            (a + spec_id_open() + m + spec_id_close() + (c + spec_title_open() + t
                + spec_title_close() + e)).skip(a.len() as int),
            spec_id_close(),
        ) == spec_id_open().len() + m.len(),
        spec_find(
            a + spec_id_open() + m + spec_id_close() + (c + spec_title_open() + t
                + spec_title_close() + e),
            spec_title_open(),
        ) == a.len() + spec_id_open().len() + m.len() + spec_id_close().len() + c.len(),
        spec_find(
            (a + spec_id_open() + m + spec_id_close() + (c + spec_title_open() + t
                + spec_title_close() + e)).skip(
                a.len() + spec_id_open().len() + m.len() + spec_id_close().len()
                    + c.len() as int,
            ),
            spec_title_close(),
        ) == spec_title_open().len() + t.len(),
        all_digits(n1),
        all_digits(n2),
        n1.len() > 0,
        n2.len() > 0,
    ensures
        spec_replace_id_and_title(
            a + spec_id_open() + m + spec_id_close() + (c + spec_title_open() + t
                + spec_title_close() + e),
            n1,
        ) == Some(
            a + spec_id_open() + n1 + spec_id_close() + (c + spec_title_open() + n1
                + spec_title_close() + e),
        ),
        spec_replace_id_and_title(
            a + spec_id_open() + n1 + spec_id_close() + (c + spec_title_open() + n1
                + spec_title_close() + e),
            n2,
        ) == Some(
            a + spec_id_open() + n2 + spec_id_close() + (c + spec_title_open() + n2
                + spec_title_close() + e),
        ),
{
    let ido = spec_id_open();
    let idc = spec_id_close();
    let tto = spec_title_open();
    let ttc = spec_title_close();
    // the title tag holds no digit, so a digits-only payload cannot hide it
    assert(forall|i: int| 0 <= i < tto.len() ==> !(48 <= #[trigger] tto[i] <= 57));

    let content = a + ido + m + idc + (c + tto + t + ttc + e);
    let s_old = idc + c + tto + t + ttc + e;
    let s_new = idc + c + tto + n1 + ttc + e;
    assert(content =~= (a + ido) + m + s_old);
    let k = idc.len() + c.len();

    // the title open tag of the once-patched file sits where the shape
    // shows it: the digits cannot hide or spawn one
    lemma_find_survives_payload_swap((a + ido), m, n1, s_old, s_old, tto, k as int);
    assert((a + ido) + n1 + s_old =~= (a + ido + n1 + idc + c) + tto + t + ttc + e);
    assert(spec_find(
        (a + ido + n1 + idc + c) + tto + t + ttc + e,
        tto,
    ) == (a + ido + n1 + idc + c).len());

    // its title end tag follows the untouched payload as before
    assert(((a + ido + n1 + idc + c) + tto + t + ttc + e).skip(
        (a + ido + n1 + idc + c).len() as int,
    ) =~= content.skip(
        a.len() + ido.len() + m.len() + idc.len() + c.len() as int,
    ));

    // the id open tag of the twice-written file is still the first
    let c1 = a + ido + n1 + idc + (c + tto + n1 + ttc + e);
    assert(c1 =~= (a + ido) + (n1 + idc + (c + tto + n1 + ttc + e)));
    assert(content =~= (a + ido) + (m + idc + (c + tto + t + ttc + e)));
    lemma_find_in_prefix(
        (a + ido),
        (n1 + idc + (c + tto + n1 + ttc + e)),
        (m + idc + (c + tto + t + ttc + e)),
        ido,
        a.len() as int,
    );

    // its id end tag follows the digits
    lemma_find_id_close_after_digits(n1, c + tto + n1 + ttc + e);
    assert(c1.skip(a.len() as int) =~= ido + n1 + idc + (c + tto + n1 + ttc + e));

    // the title open tag of the twice-written file: both payloads are
    // digits, and the tail still agrees up to the end of the open tag
    assert(s_old.subrange(0, k + tto.len() as int) =~= idc + c + tto);
    assert(s_new.subrange(0, k + tto.len() as int) =~= idc + c + tto);
    lemma_find_survives_payload_swap((a + ido), m, n2, s_old, s_new, tto, k as int);
    assert((a + ido) + n2 + s_new =~= (a + ido + n2 + idc + c) + tto + n1 + ttc + e);
    assert(spec_find(
        (a + ido + n2 + idc + c) + tto + n1 + ttc + e,
        tto,
    ) == (a + ido + n2 + idc + c).len());

    // and its title end tag follows the first number's digits
    lemma_find_title_close_after_digits(n1, e);
    assert(((a + ido + n2 + idc + c) + tto + n1 + ttc + e).skip(
        (a + ido + n2 + idc + c).len() as int,
    ) =~= tto + n1 + ttc + e);

    lemma_patch_metadata_twice(a, m, c, t, e, n1, n2);
}

/// Byte of the decimal digit `v`.
pub open spec fn digit(v: int) -> u8 {
    (48 + v) as u8
}

/// The version number as bytes: the four digits of the year, two of the
/// month, two of the day, and the three of the draw.
pub open spec fn spec_version_number(y: int, m: int, d: int, n: int) -> Seq<u8> {
    seq![
        digit(y / 1000),
        digit((y / 100) % 10),
        digit((y / 10) % 10),
        digit(y % 10),
        digit(m / 10),
        digit(m % 10),
        digit(d / 10),
        digit(d % 10),
        digit(n / 100),
        digit((n / 10) % 10),
        digit(n % 10),
    ]
}

/// The version number for a given date and draw.
pub fn format_version_number(y: u32, m: u32, d: u32, n: u32) -> (r: Vec<u8>)
    requires
        1000 <= y <= 9999,
        1 <= m <= 12,
        1 <= d <= 31,
        100 <= n <= 999,
    ensures
        r@ == spec_version_number(y as int, m as int, d as int, n as int),
{
    let mut r: Vec<u8> = Vec::new();
    r.push((48 + y / 1000) as u8);
    r.push((48 + (y / 100) % 10) as u8);
    r.push((48 + (y / 10) % 10) as u8);
    r.push((48 + y % 10) as u8);
    r.push((48 + m / 10) as u8);
    r.push((48 + m % 10) as u8);
    r.push((48 + d / 10) as u8);
    r.push((48 + d % 10) as u8);
    r.push((48 + n / 100) as u8);
    r.push((48 + (n / 10) % 10) as u8);
    r.push((48 + n % 10) as u8);
    proof {
        assert(r@ =~= spec_version_number(y as int, m as int, d as int, n as int));
    }
    r
}

/// Value of a four-digit byte string.
pub open spec fn spec_parse4(s: Seq<u8>) -> int {
    1000 * (s[0] - 48) + 100 * (s[1] - 48) + 10 * (s[2] - 48) + (s[3] - 48)
}

/// Value of a two-digit byte string.
pub open spec fn spec_parse2(s: Seq<u8>) -> int {
    10 * (s[0] - 48) + (s[1] - 48)
}

/// Value of a three-digit byte string.
pub open spec fn spec_parse3(s: Seq<u8>) -> int {
    100 * (s[0] - 48) + 10 * (s[1] - 48) + (s[2] - 48)
}

/// The version number format reads back: its first eight bytes are the
/// decimal date — four digits of year, two of month, two of day — and its
/// trailing three digits are the draw, every byte a decimal digit.
pub proof fn lemma_version_number_round_trip(y: int, m: int, d: int, n: int)
    requires
        1000 <= y <= 9999,
        1 <= m <= 12,
        1 <= d <= 31,
        100 <= n <= 999,
    ensures
        spec_version_number(y, m, d, n).len() == 11,
        spec_parse4(spec_version_number(y, m, d, n).subrange(0, 4)) == y,
        spec_parse2(spec_version_number(y, m, d, n).subrange(4, 6)) == m,
        spec_parse2(spec_version_number(y, m, d, n).subrange(6, 8)) == d,
        spec_parse3(spec_version_number(y, m, d, n).subrange(8, 11)) == n,
        forall|i: int|
            0 <= i < 11 ==> 48 <= #[trigger] spec_version_number(y, m, d, n)[i] <= 57,
{
    let v = spec_version_number(y, m, d, n);
    assert(y == 1000 * (y / 1000) + 100 * ((y / 100) % 10) + 10 * ((y / 10) % 10) + y % 10) by (nonlinear_arith)
        requires
            1000 <= y <= 9999,
    ;
    assert(m == 10 * (m / 10) + m % 10) by (nonlinear_arith)
        requires
            1 <= m <= 12,
    ;
    assert(d == 10 * (d / 10) + d % 10) by (nonlinear_arith)
        requires
            1 <= d <= 31,
    ;
    assert(n == 100 * (n / 100) + 10 * ((n / 10) % 10) + n % 10) by (nonlinear_arith)
        requires
            100 <= n <= 999,
    ;
}

/// Relies on chrono: `Local::now` for the current instant and the
/// `Datelike` accessors `year`, `month` and `day` for its local calendar
/// date.  The month is between 1 and 12 and the day between 1 and 31, as
/// their documentation states; nothing is assumed about the year.
#[verifier::external_body]
fn local_date_today() -> (r: (i32, u32, u32))
    ensures
        1 <= r.1 <= 12,
        1 <= r.2 <= 31,
{
    let now = chrono::Local::now();
    (chrono::Datelike::year(&now), chrono::Datelike::month(&now), chrono::Datelike::day(&now))
}

/// Relies on chrono: `Local::now` and `DateTime::timestamp`, the current
/// instant as seconds of the Unix epoch.  Nothing is assumed of the value.
#[verifier::external_body]
fn local_timestamp() -> (r: i64) {
    chrono::Local::now().timestamp()
}

/// Relies on rand: `Rng::random_range` over an inclusive range on a rng
/// seeded with `SeedableRng::seed_from_u64` returns a value within the
/// range, and panics only on an empty range, which the precondition rules
/// out.
#[verifier::external_body]
fn random_in_range(seed: u64, lo: u32, hi: u32) -> (r: u32)
    requires
        lo <= hi,
    ensures
        lo <= r <= hi,
{
    let mut rng = <rand::rngs::StdRng as rand::SeedableRng>::seed_from_u64(seed);
    rand::Rng::random_range(&mut rng, lo..=hi)
}

/// A fresh version number: the current local date as eight digits followed
/// by a three-digit draw between 100 and 998, seeded from the clock.  The
/// year is clamped into four digits, where any contemporary clock already
/// is.
pub fn generate_lockscreen_number() -> (r: Vec<u8>)
    ensures
        exists|y: int, m: int, d: int, n: int|
            {
                &&& 1000 <= y <= 9999
                &&& 1 <= m <= 12
                &&& 1 <= d <= 31
                &&& 100 <= n <= 998
                &&& r@ == spec_version_number(y, m, d, n)
            },
{
    let (y, m, d) = local_date_today();
    let ts = local_timestamp();
    let seed = #[verifier::truncate] (ts as u64);
    let n = random_in_range(seed, 100, 998);
    let yc: u32 = if y < 1000 {
        1000
    } else if y > 9999 {
        9999
    } else {
        y as u32
    };
    let r = format_version_number(yc, m, d, n);
    proof {
        assert(1000 <= yc as int <= 9999 && 1 <= m as int <= 12 && 1 <= d as int <= 31 && 100
            <= n as int <= 998 && r@ == spec_version_number(
            yc as int,
            m as int,
            d as int,
            n as int,
        ));
    }
    r
}

} // verus!
