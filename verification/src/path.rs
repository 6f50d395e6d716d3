use vstd::prelude::*;

verus! {

/// Forward slash, the primary path separator.
pub const SEP: u8 = 47;

/// Backslash, accepted as a separator as well so that paths produced on
/// either platform are split the same way.
pub const SEP_ALT: u8 = 92;

/// Dot, which introduces a file-name extension.
pub const DOT: u8 = 46;

pub open spec fn is_sep(c: u8) -> bool {
    c == SEP || c == SEP_ALT
}

/// Index of the last separator byte in `p`, or -1 if there is none.
pub open spec fn last_sep(p: Seq<u8>) -> int
    decreases p.len(),
{
    if p.len() == 0 {
        -1
    } else if is_sep(p.last()) {
        p.len() - 1
    } else {
        last_sep(p.drop_last())
    }
}

pub proof fn lemma_last_sep_range(p: Seq<u8>)
    ensures
        -1 <= last_sep(p) < p.len(),
        last_sep(p) >= 0 ==> is_sep(p[last_sep(p)]),
        forall|j: int| last_sep(p) < j < p.len() ==> !is_sep(p[j]),
    decreases p.len(),
{
    if p.len() > 0 && !is_sep(p.last()) {
        lemma_last_sep_range(p.drop_last());
        assert forall|j: int| last_sep(p) < j < p.len() implies !is_sep(p[j]) by {
            if j < p.len() - 1 {
                assert(!is_sep(p.drop_last()[j]));
            } else {
                assert(p[j] == p.last());
            }
        }
    }
}

/// The file name of a path: everything after the last separator.
pub open spec fn file_name_of(p: Seq<u8>) -> Seq<u8> {
    p.skip(last_sep(p) + 1)
}

/// Index of the last dot in a file name, or -1 if there is none.
pub open spec fn last_dot(p: Seq<u8>) -> int
    decreases p.len(),
{
    if p.len() == 0 {
        -1
    } else if p.last() == DOT {
        p.len() - 1
    } else {
        last_dot(p.drop_last())
    }
}

pub proof fn lemma_last_dot_range(p: Seq<u8>)
    ensures
        -1 <= last_dot(p) < p.len(),
        last_dot(p) >= 0 ==> p[last_dot(p)] == DOT,
        forall|j: int| last_dot(p) < j < p.len() ==> p[j] != DOT,
    decreases p.len(),
{
    if p.len() > 0 && p.last() != DOT {
        lemma_last_dot_range(p.drop_last());
        assert forall|j: int| last_dot(p) < j < p.len() implies p[j] != DOT by {
            if j < p.len() - 1 {
                assert(p.drop_last()[j] != DOT);
            } else {
                assert(p[j] == p.last());
            }
        }
    }
}

/// The extension of a path, if any: the part of the file name after its last
/// dot, provided that dot is not the file name's first byte.  This mirrors how
/// the standard library reads extensions (`".gitignore"` has none, `"a."` has
/// an empty one).
pub open spec fn ext_of(p: Seq<u8>) -> Option<Seq<u8>> {
    let name = file_name_of(p);
    if last_dot(name) > 0 {
        Some(name.skip(last_dot(name) + 1))
    } else {
        None
    }
}

/// Extracts the file name from a path, as bytes.
pub fn file_name_bytes(p: &Vec<u8>) -> (r: Vec<u8>)
    ensures
        r@ == file_name_of(p@),
{
    let mut cut: usize = 0;
    let mut found = false;
    let mut i: usize = p.len();
    while i > 0 && !found
        invariant
            0 <= i <= p.len(),
            !found ==> cut == 0 && forall|j: int| i <= j < p.len() ==> !is_sep(p@[j]),
            found ==> i >= 1 && cut == i && is_sep(p@[i - 1]) && forall|j: int|
                i <= j < p.len() ==> !is_sep(p@[j]),
        decreases if found { 0int } else { i + 1 },
    {
        let c = p[i - 1];
        if c == SEP || c == SEP_ALT {
            cut = i;
            found = true;
        } else {
            i = i - 1;
        }
    }
    proof {
        lemma_last_sep_range(p@);
        if found {
            assert(last_sep(p@) == cut - 1) by {
                if last_sep(p@) < cut - 1 {
                    assert(!is_sep(p@[cut - 1]));
                }
                if last_sep(p@) > cut - 1 {
                    assert(!is_sep(p@[last_sep(p@)]));
                }
            }
        } else {
            assert(last_sep(p@) == -1) by {
                if last_sep(p@) >= 0 {
                    assert(!is_sep(p@[last_sep(p@)]));
                }
            }
        }
        assert(cut as int == last_sep(p@) + 1);
    }
    let mut r: Vec<u8> = Vec::new();
    let mut k: usize = cut;
    while k < p.len()
        invariant
            cut <= k <= p.len(),
            r@ == p@.subrange(cut as int, k as int),
        decreases p.len() - k,
    {
        r.push(p[k]);
        proof {
            assert(p@.subrange(cut as int, k as int).push(p@[k as int]) =~= p@.subrange(
                cut as int,
                k + 1,
            ));
        }
        k = k + 1;
    }
    proof {
        assert(p@.subrange(cut as int, p@.len() as int) =~= p@.skip(cut as int));
    }
    r
}

/// Extracts the extension from a path, as bytes, if it has one.
pub fn ext_bytes(p: &Vec<u8>) -> (r: Option<Vec<u8>>)
    ensures
        match r {
            Some(e) => ext_of(p@) == Some(e@),
            None => ext_of(p@) is None,
        },
{
    let name = file_name_bytes(p);
    let mut dot: usize = 0;
    let mut found = false;
    let mut i: usize = name.len();
    while i > 0 && !found
        invariant
            0 <= i <= name.len(),
            !found ==> forall|j: int| i <= j < name.len() ==> name@[j] != DOT,
            found ==> i >= 1 && dot == i - 1 && name@[i - 1] == DOT && forall|j: int|
                i <= j < name.len() ==> name@[j] != DOT,
        decreases if found { 0int } else { i + 1 },
    {
        if name[i - 1] == DOT {
            dot = i - 1;
            found = true;
        } else {
            i = i - 1;
        }
    }
    proof {
        lemma_last_dot_range(name@);
        if found {
            assert(last_dot(name@) == dot as int) by {
                if last_dot(name@) < dot as int {
                    assert(name@[dot as int] != DOT);
                }
                if last_dot(name@) > dot as int {
                    assert(name@[last_dot(name@)] != DOT);
                }
            }
        } else {
            assert(last_dot(name@) == -1) by {
                if last_dot(name@) >= 0 {
                    assert(name@[last_dot(name@)] != DOT);
                }
            }
        }
    }
    if !found || dot == 0 {
        return None;
    }
    let mut e: Vec<u8> = Vec::new();
    let mut k: usize = dot + 1;
    while k < name.len()
        invariant
            dot + 1 <= k <= name.len(),
            e@ == name@.subrange(dot + 1, k as int),
        decreases name.len() - k,
    {
        e.push(name[k]);
        proof {
            assert(name@.subrange(dot + 1, k as int).push(name@[k as int]) =~= name@.subrange(
                dot + 1,
                k + 1,
            ));
        }
        k = k + 1;
    }
    proof {
        assert(name@.subrange(dot + 1, name@.len() as int) =~= name@.skip(dot + 1));
    }
    Some(e)
}

/// What joining `rel` onto `base` yields: `rel` itself when it is absolute or
/// `base` is empty, otherwise `base`, a separator if one is missing, and `rel`.
pub open spec fn join_spec(base: Seq<u8>, rel: Seq<u8>) -> Seq<u8> {
    if rel.len() > 0 && is_sep(rel[0]) {
        rel
    } else if base.len() == 0 {
        rel
    } else if is_sep(base.last()) {
        base + rel
    } else {
        base + seq![SEP] + rel
    }
}

/// Joins a relative path onto a base path.
pub fn join_paths(base: &Vec<u8>, rel: &Vec<u8>) -> (r: Vec<u8>)
    ensures
        r@ == join_spec(base@, rel@),
{
    if rel.len() > 0 && (rel[0] == SEP || rel[0] == SEP_ALT) {
        let mut r: Vec<u8> = Vec::new();
        crate::bytes::push_bytes(&mut r, rel.as_slice());
        proof {
            assert(r@ =~= rel@);
        }
        return r;
    }
    if base.len() == 0 {
        let mut r: Vec<u8> = Vec::new();
        crate::bytes::push_bytes(&mut r, rel.as_slice());
        proof {
            assert(r@ =~= rel@);
        }
        return r;
    }
    let mut r: Vec<u8> = Vec::new();
    crate::bytes::push_bytes(&mut r, base.as_slice());
    let lastc = base[base.len() - 1];
    if !(lastc == SEP || lastc == SEP_ALT) {
        r.push(SEP);
        proof {
            assert(r@ =~= base@ + seq![SEP]);
        }
    }
    crate::bytes::push_bytes(&mut r, rel.as_slice());
    r
}

} // verus!
