use vstd::prelude::*;
use crate::criteria::{FileMeta, FilterCriteria};
use crate::path::{ext_of, file_name_of};

verus! {

/// The dependency lock file's name, `Cargo.lock`, as bytes.
pub open spec fn lock_file_name() -> Seq<u8> {
    seq![67u8, 97u8, 114u8, 103u8, 111u8, 46u8, 108u8, 111u8, 99u8, 107u8]
}

/// Builds the lock file's name at run time.
pub fn lock_file_bytes() -> (v: Vec<u8>)
    ensures
        v@ == lock_file_name(),
{
    let mut v: Vec<u8> = Vec::new();
    v.push(67);
    v.push(97);
    v.push(114);
    v.push(103);
    v.push(111);
    v.push(46);
    v.push(108);
    v.push(111);
    v.push(99);
    v.push(107);
    proof {
        assert(v@ =~= lock_file_name());
    }
    v
}

/// Whether the path's extension is a member of the allow-list, compared byte
/// for byte.
pub open spec fn extension_allowed(extensions: Seq<Vec<u8>>, path: Seq<u8>) -> bool {
    exists|i: int| 0 <= i < extensions.len() && ext_of(path) == Some(extensions[i]@)
}

/// Whether the entry passes the configured size bounds.  With no bound
/// configured the metadata is not consulted; with a bound configured, absent
/// metadata rejects the entry.
pub open spec fn size_ok(c: FilterCriteria, meta: Option<FileMeta>) -> bool {
    if c.smaller_than is None && c.larger_than is None {
        true
    } else {
        match meta {
            None => false,
            Some(m) => {
                &&& match c.smaller_than {
                    Some(st) => m.size <= st,
                    None => true,
                }
                &&& match c.larger_than {
                    Some(lt) => m.size >= lt,
                    None => true,
                }
            },
        }
    }
}

/// Whether the entry passes the configured modification-time bounds.  With no
/// bound configured nothing is consulted; with a bound configured, absent
/// metadata or an absent modification time rejects the entry.
pub open spec fn time_ok(c: FilterCriteria, meta: Option<FileMeta>) -> bool {
    if c.newer_than is None && c.older_than is None {
        true
    } else {
        match meta {
            None => false,
            Some(m) => match m.modified {
                None => false,
                Some(t) => {
                    &&& match c.older_than {
                        Some(ot) => t <= ot,
                        None => true,
                    }
                    &&& match c.newer_than {
                        Some(nt) => t >= nt,
                        None => true,
                    }
                },
            },
        }
    }
}

/// The filter decision, depending only on the criteria, the path and the
/// fetched metadata.  An entry is accepted when it is not the excluded lock
/// file, its extension is allowed, and it passes the size and time bounds.
pub open spec fn accepts(c: FilterCriteria, path: Seq<u8>, meta: Option<FileMeta>) -> bool {
    &&& (c.include_lock || file_name_of(path) != lock_file_name())
    &&& extension_allowed(c.extensions@, path)
    &&& size_ok(c, meta)
    &&& time_ok(c, meta)
}

/// Decides whether a discovered entry belongs in the output.  The checks run
/// cheapest first and short-circuit; `meta` is whatever one metadata fetch
/// for this entry returned (`None` when the fetch failed).
pub fn filter_path(c: &FilterCriteria, path: &Vec<u8>, meta: Option<FileMeta>) -> (r: bool)
    ensures
        r == accepts(*c, path@, meta),
{
    if !c.include_lock {
        let name = crate::path::file_name_bytes(path);
        let lock = lock_file_bytes();
        if crate::bytes::eq_bytes(&name, &lock) {
            return false;
        }
    }
    let ext = crate::path::ext_bytes(path);
    match ext {
        None => {
            return false;
        },
        Some(e) => {
            let mut ok = false;
            let mut i: usize = 0;
            while i < c.extensions.len()
                invariant
                    0 <= i <= c.extensions@.len(),
                    ext_of(path@) == Some(e@),
                    ok == exists|j: int|
                        0 <= j < i && ext_of(path@) == Some(c.extensions@[j]@),
                decreases c.extensions@.len() - i,
            {
                if crate::bytes::eq_bytes(&e, &c.extensions[i]) {
                    ok = true;
                }
                i = i + 1;
            }
            if !ok {
                return false;
            }
        },
    }
    if c.smaller_than.is_some() || c.larger_than.is_some() {
        match meta {
            None => {
                return false;
            },
            Some(m) => {
                if let Some(st) = c.smaller_than {
                    if m.size > st {
                        return false;
                    }
                }
                if let Some(lt) = c.larger_than {
                    if m.size < lt {
                        return false;
                    }
                }
            },
        }
    }
    if c.newer_than.is_some() || c.older_than.is_some() {
        match meta {
            None => {
                return false;
            },
            Some(m) => match m.modified {
                None => {
                    return false;
                },
                Some(t) => {
                    if let Some(ot) = c.older_than {
                        if t > ot {
                            return false;
                        }
                    }
                    if let Some(nt) = c.newer_than {
                        if t < nt {
                            return false;
                        }
                    }
                },
            },
        }
    }
    true
}

/// The filter is deterministic: identical criteria, entry and metadata always
/// yield the identical verdict.
pub proof fn lemma_filter_deterministic(
    c1: FilterCriteria,
    c2: FilterCriteria,
    path1: Seq<u8>,
    path2: Seq<u8>,
    meta1: Option<FileMeta>,
    meta2: Option<FileMeta>,
)
    requires
        c1 == c2,
        path1 == path2,
        meta1 == meta2,
    ensures
        accepts(c1, path1, meta1) == accepts(c2, path2, meta2),
{
}

/// With lock-file inclusion disabled, no entry whose file name is the lock
/// file's name is accepted, whatever the extension allow-list and the bounds
/// say.
pub proof fn lemma_lock_file_excluded(c: FilterCriteria, path: Seq<u8>, meta: Option<FileMeta>)
    requires
        !c.include_lock,
        file_name_of(path) == lock_file_name(),
    ensures
        !accepts(c, path, meta),
{
}

} // verus!
