//! Path model: paths are byte strings with `/` as the separator.
//!
//! Everything an archive build needs from a path — joining a relative
//! position onto a root, taking the final component, taking the parent,
//! swapping the extension — is defined here over `Seq<u8>` and implemented
//! on `Vec<u8>`.

use vstd::prelude::*;

verus! {

use crate::sep;

/// `base` joined with relative path `rel`: `base`, one separator, `rel`.
pub open spec fn spec_join(base: Seq<u8>, rel: Seq<u8>) -> Seq<u8> {
    base + seq![sep()] + rel
}

/// Index of the last occurrence of `c` in `s`, or -1 when `c` does not occur.
pub open spec fn last_index_of(s: Seq<u8>, c: u8) -> int
    decreases s.len(),
{
    if s.len() == 0 {
        -1
    } else if s[s.len() - 1] == c {
        s.len() - 1
    } else {
        last_index_of(s.drop_last(), c)
    }
}

/// The final path component: everything after the last separator.
/// `None` when that component is empty (a path ending in `/`, or an empty path).
pub open spec fn spec_file_name(p: Seq<u8>) -> Option<Seq<u8>> {
    let i = last_index_of(p, sep());
    if i + 1 < p.len() {
        Some(p.subrange(i + 1, p.len() as int))
    } else {
        None
    }
}

/// The parent: everything before the last separator; the lone separator is
/// kept when the path is directly under the root.  `None` when the path has
/// no separator or is just the root.
pub open spec fn spec_parent(p: Seq<u8>) -> Option<Seq<u8>> {
    let i = last_index_of(p, sep());
    if i > 0 {
        Some(p.subrange(0, i))
    } else if i == 0 && p.len() > 1 {
        Some(seq![sep()])
    } else {
        None
    }
}

/// Byte value of the extension separator.
pub open spec fn dot() -> u8 {
    46u8
}

/// `p` with its extension replaced by `ext`: everything after the last dot
/// of the final component is dropped (a dot that starts the component does
/// not count), then a dot and `ext` are appended.  A path whose final
/// component has no dot gets the dot and `ext` appended whole.
pub open spec fn spec_with_extension(p: Seq<u8>, ext: Seq<u8>) -> Seq<u8> {
    let name_start = last_index_of(p, sep()) + 1;
    let j = last_index_of(p, dot());
    if j > name_start {
        p.subrange(0, j) + seq![dot()] + ext
    } else {
        p + seq![dot()] + ext
    }
}

/// `s` begins with `pre`.
pub open spec fn spec_has_prefix(s: Seq<u8>, pre: Seq<u8>) -> bool {
    s.len() >= pre.len() && s.subrange(0, pre.len() as int) == pre
}

/// `s` with its first `pre.len()` bytes removed.
pub open spec fn spec_strip_prefix(s: Seq<u8>, pre: Seq<u8>) -> Seq<u8> {
    s.subrange(pre.len() as int, s.len() as int)
}

/// Stripping the root-plus-separator prefix from a join gives back the
/// relative part: archive-internal names computed by joining onto a root
/// never retain the root.
pub proof fn lemma_join_strip(base: Seq<u8>, rel: Seq<u8>)
    ensures
        spec_has_prefix(spec_join(base, rel), base + seq![sep()]),
        spec_strip_prefix(spec_join(base, rel), base + seq![sep()]) == rel,
{
    let j = spec_join(base, rel);
    let pre = base + seq![sep()];
    assert(j.subrange(0, pre.len() as int) =~= pre);
    assert(j.subrange(pre.len() as int, j.len() as int) =~= rel);
}

/// The last occurrence of `c` in `a`, one `c`, then a `c`-free tail is the
/// one between them.
pub proof fn lemma_last_index_of_append(a: Seq<u8>, b: Seq<u8>, c: u8)
    requires
        forall|i: int| 0 <= i < b.len() ==> b[i] != c,
    ensures
        last_index_of(a + seq![c] + b, c) == a.len(),
    decreases b.len(),
{
    if b.len() == 0 {
        assert(a + seq![c] + b =~= a + seq![c]);
        assert((a + seq![c])[a.len() as int] == c);
    } else {
        assert((a + seq![c] + b).drop_last() =~= a + seq![c] + b.drop_last());
        assert((a + seq![c] + b).last() == b.last());
        lemma_last_index_of_append(a, b.drop_last(), c);
    }
}

/// The final component of a root joined with a separator-free, nonempty
/// name is that name.
pub proof fn lemma_file_name_of_join(base: Seq<u8>, name: Seq<u8>)
    requires
        name.len() > 0,
        forall|i: int| 0 <= i < name.len() ==> name[i] != sep(),
    ensures
        spec_file_name(spec_join(base, name)) == Some(name),
{
    lemma_last_index_of_append(base, name, sep());
    let j = spec_join(base, name);
    assert(j.subrange(base.len() as int + 1, j.len() as int) =~= name);
}

/// Join of two paths as byte vectors.
pub fn join(base: &Vec<u8>, rel: &Vec<u8>) -> (r: Vec<u8>)
    ensures
        r@ == spec_join(base@, rel@),
{
    let mut r: Vec<u8> = Vec::new();
    let mut i: usize = 0;
    while i < base.len()
        invariant
            i <= base.len(),
            r@ == base@.subrange(0, i as int),
        decreases base.len() - i,
    {
        r.push(base[i]);
        i = i + 1;
    }
    assert(r@ =~= base@);
    r.push(47u8);
    let mut j: usize = 0;
    while j < rel.len()
        invariant
            j <= rel.len(),
            r@ == base@ + seq![sep()] + rel@.subrange(0, j as int),
        decreases rel.len() - j,
    {
        r.push(rel[j]);
        j = j + 1;
    }
    assert(r@ =~= spec_join(base@, rel@));
    r
}

/// Index of the last occurrence of `c`, executable form.
pub fn rfind(p: &Vec<u8>, c: u8) -> (r: Option<usize>)
    ensures
        match r {
            Some(i) => last_index_of(p@, c) == i as int && (i as int) < p@.len(),
            None => last_index_of(p@, c) == -1,
        },
{
    proof {
        assert(p@.subrange(0, p@.len() as int) =~= p@);
    }
    let mut i: usize = p.len();
    while i > 0
        invariant
            i <= p.len(),
            last_index_of(p@, c) == last_index_of(p@.subrange(0, i as int), c),
        decreases i,
    {
        proof {
            assert(p@.subrange(0, i as int).drop_last() =~= p@.subrange(0, i - 1));
        }
        if p[i - 1] == c {
            return Some(i - 1);
        }
        i = i - 1;
    }
    proof {
        assert(p@.subrange(0, 0) =~= Seq::<u8>::empty());
    }
    None
}

/// The final path component of `p`, or `None` when it is empty.
pub fn file_name(p: &Vec<u8>) -> (r: Option<Vec<u8>>)
    ensures
        match r {
            Some(n) => spec_file_name(p@) == Some(n@),
            None => spec_file_name(p@) is None,
        },
{
    let n = p.len();
    let start: usize = match rfind(p, 47u8) {
        Some(i) => {
            assert(i < n);
            i + 1
        },
        None => 0,
    };
    if start >= p.len() {
        return None;
    }
    let mut n: Vec<u8> = Vec::new();
    let mut i: usize = start;
    while i < p.len()
        invariant
            start <= i <= p.len(),
            n@ == p@.subrange(start as int, i as int),
        decreases p.len() - i,
    {
        n.push(p[i]);
        i = i + 1;
    }
    proof {
        assert(n@ =~= p@.subrange(last_index_of(p@, sep()) + 1, p@.len() as int));
    }
    Some(n)
}

/// `p` with its extension replaced by `ext`, executable form.
pub fn with_extension(p: &Vec<u8>, ext: &Vec<u8>) -> (r: Vec<u8>)
    ensures
        r@ == spec_with_extension(p@, ext@),
{
    let n = p.len();
    let slash = rfind(p, 47u8);
    let dot_idx = rfind(p, 46u8);
    let name_start: usize = match slash {
        Some(i) => {
            assert(i < n);
            i + 1
        },
        None => 0,
    };
    let stem_len: usize = match dot_idx {
        Some(j) => {
            if j > name_start {
                j
            } else {
                p.len()
            }
        },
        None => p.len(),
    };
    let mut r: Vec<u8> = Vec::new();
    let mut i: usize = 0;
    while i < stem_len
        invariant
            i <= stem_len <= p@.len(),
            r@ == p@.subrange(0, i as int),
        decreases stem_len - i,
    {
        r.push(p[i]);
        i = i + 1;
    }
    r.push(46u8);
    let mut k: usize = 0;
    while k < ext.len()
        invariant
            k <= ext.len(),
            r@ == p@.subrange(0, stem_len as int) + seq![dot()] + ext@.subrange(0, k as int),
        decreases ext.len() - k,
    {
        r.push(ext[k]);
        k = k + 1;
    }
    proof {
        assert(ext@.subrange(0, ext@.len() as int) =~= ext@);
        if last_index_of(p@, dot()) > last_index_of(p@, sep()) + 1 {
            assert(r@ =~= spec_with_extension(p@, ext@));
        } else {
            assert(p@.subrange(0, p@.len() as int) =~= p@);
            assert(r@ =~= spec_with_extension(p@, ext@));
        }
    }
    r
}

/// The parent path of `p`, or `None` when `p` has none.
pub fn parent(p: &Vec<u8>) -> (r: Option<Vec<u8>>)
    ensures
        match r {
            Some(d) => spec_parent(p@) == Some(d@),
            None => spec_parent(p@) is None,
        },
{
    match rfind(p, 47u8) {
        Some(i) => {
            if i > 0 {
                let mut d: Vec<u8> = Vec::new();
                let mut k: usize = 0;
                while k < i
                    invariant
                        k <= i < p@.len(),
                        d@ == p@.subrange(0, k as int),
                    decreases i - k,
                {
                    d.push(p[k]);
                    k = k + 1;
                }
                Some(d)
            } else if p.len() > 1 {
                let mut d: Vec<u8> = Vec::new();
                d.push(47u8);
                proof {
                    assert(d@ =~= seq![sep()]);
                }
                Some(d)
            } else {
                None
            }
        },
        None => None,
    }
}

} // verus!
