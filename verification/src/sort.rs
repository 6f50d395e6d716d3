use vstd::prelude::*;
use vstd::relations::{antisymmetric, reflexive, sorted_by, strongly_connected, total_ordering,
    transitive};
use vstd::seq_lib::lemma_sorted_unique;
use crate::bytes::{lex_le, lex_lt};

verus! {

/// A file whose content was read: its path and the raw bytes.
pub struct LoadedFile {
    pub path: Vec<u8>,
    pub content: Vec<u8>,
}

/// The mathematical image of a loaded file.
#[verifier::ext_equal]
pub struct FileView {
    pub path: Seq<u8>,
    pub content: Seq<u8>,
}

impl View for LoadedFile {
    type V = FileView;

    open spec fn view(&self) -> FileView {
        FileView { path: self.path@, content: self.content@ }
    }
}

/// The images of a sequence of loaded files.
pub open spec fn views(s: Seq<LoadedFile>) -> Seq<FileView> {
    s.map_values(|f: LoadedFile| f@)
}

/// The total order the sorter uses: byte-wise by path, ties broken byte-wise
/// by content.
pub open spec fn file_le(a: FileView, b: FileView) -> bool {
    if a.path == b.path {
        lex_le(a.content, b.content)
    } else {
        lex_le(a.path, b.path)
    }
}

/// `file_le` as a relation value.
pub open spec fn file_order() -> spec_fn(FileView, FileView) -> bool {
    |a: FileView, b: FileView| file_le(a, b)
}

/// `file_le` is a total order, so sorting by it has exactly one result.
pub proof fn lemma_file_order_total()
    ensures
        total_ordering(file_order()),
{
    let r = file_order();
    assert forall|a: FileView| #[trigger] r(a, a) by {
        crate::bytes::lemma_lex_refl(a.content);
    }
    assert(reflexive(r));
    assert forall|a: FileView, b: FileView| #[trigger] r(a, b) && #[trigger] r(b, a) implies a
        == b by {
        if a.path == b.path {
            crate::bytes::lemma_lex_antisymmetric(a.content, b.content);
            assert(a =~= b);
        } else {
            crate::bytes::lemma_lex_antisymmetric(a.path, b.path);
        }
    }
    assert(antisymmetric(r));
    assert forall|a: FileView, b: FileView, c: FileView|
        #[trigger] r(a, b) && #[trigger] r(b, c) implies r(a, c) by {
        if a.path == b.path && b.path == c.path {
            crate::bytes::lemma_lex_transitive(a.content, b.content, c.content);
        } else if a.path == b.path {
            assert(r(a, c));
        } else if b.path == c.path {
            assert(r(a, c));
        } else {
            crate::bytes::lemma_lex_transitive(a.path, b.path, c.path);
            if a.path == c.path {
                crate::bytes::lemma_lex_antisymmetric(a.path, b.path);
            }
        }
    }
    assert(transitive(r));
    assert forall|a: FileView, b: FileView| #[trigger] r(a, b) || #[trigger] r(b, a) by {
        if a.path == b.path {
            crate::bytes::lemma_lex_total(a.content, b.content);
        } else {
            crate::bytes::lemma_lex_total(a.path, b.path);
        }
    }
    assert(strongly_connected(r));
}

/// Compares two loaded files in the sorter's order.
pub fn file_le_exec(a: &LoadedFile, b: &LoadedFile) -> (r: bool)
    ensures
        r == file_le(a@, b@),
{
    if crate::bytes::eq_bytes(&a.path, &b.path) {
        crate::bytes::lex_le_bytes(&a.content, &b.content)
    } else {
        crate::bytes::lex_le_bytes(&a.path, &b.path)
    }
}

proof fn lemma_views_remove(s: Seq<LoadedFile>, i: int)
    requires
        0 <= i < s.len(),
    ensures
        views(s.remove(i)) =~= views(s).remove(i),
{
}

proof fn lemma_views_insert(s: Seq<LoadedFile>, i: int, x: LoadedFile)
    requires
        0 <= i <= s.len(),
    ensures
        views(s.insert(i, x)) =~= views(s).insert(i, x@),
{
}

/// Sorts the loaded files by path (ties by content).  This is the single
/// point where the pipeline's ordering becomes deterministic: the result is
/// sorted and holds exactly the files that went in.
pub fn sort_files(v: &mut Vec<LoadedFile>)
    ensures
        sorted_by(views(final(v)@), file_order()),
        views(final(v)@).to_multiset() == views(old(v)@).to_multiset(),
        final(v)@.len() == old(v)@.len(),
{
    proof {
        lemma_file_order_total();
        broadcast use vstd::seq_lib::group_to_multiset_ensures;
        broadcast use vstd::multiset::group_multiset_axioms;
    }
    if v.len() <= 1 {
        return;
    }
    let mut i: usize = 1;
    while i < v.len()
        invariant
            1 <= i <= v@.len(),
            v@.len() == old(v)@.len(),
            sorted_by(views(v@).take(i as int), file_order()),
            views(v@).to_multiset() == views(old(v)@).to_multiset(),
        decreases v@.len() - i,
    {
        let ghost before = v@;
        let x = v.remove(i);
        let ghost mid = v@;
        proof {
            broadcast use vstd::seq_lib::group_to_multiset_ensures;
            broadcast use vstd::multiset::group_multiset_axioms;

            lemma_views_remove(before, i as int);
            assert(views(mid) =~= views(before).remove(i as int));
            assert(views(before)[i as int] == x@);
            assert(views(mid).to_multiset() == views(before).to_multiset().remove(x@));
            // the first i elements are untouched by the removal
            assert(views(mid).take(i as int) =~= views(before).take(i as int));
        }
        let mut j: usize = 0;
        while j < i && file_le_exec(&v[j], &x)
            invariant
                0 <= j <= i,
                i < before.len(),
                v@ == mid,
                mid.len() == before.len() - 1,
                i <= mid.len(),
                forall|k: int| 0 <= k < j ==> file_le(#[trigger] views(mid)[k], x@),
            decreases i - j,
        {
            proof {
                assert(views(mid)[j as int] == mid[j as int]@);
            }
            j = j + 1;
        }
        proof {
            lemma_file_order_total();
        }
        let ghost stopped_le = j < i;
        proof {
            if j < i {
                assert(!file_le(mid[j as int]@, x@));
                assert(views(mid)[j as int] == mid[j as int]@);
            }
        }
        v.insert(j, x);
        proof {
            broadcast use vstd::seq_lib::group_to_multiset_ensures;
            broadcast use vstd::multiset::group_multiset_axioms;

            lemma_views_insert(mid, j as int, x);
            assert(views(v@) =~= views(mid).insert(j as int, x@));
            // multiset: removing then re-inserting the same value is identity
            assert(views(before).contains(x@)) by {
                assert(views(before)[i as int] == x@);
            }
            assert(views(before).to_multiset().count(x@) > 0);
            assert(views(mid).to_multiset().insert(x@) =~= views(before).to_multiset());
            assert(views(v@).to_multiset() == views(mid).to_multiset().insert(x@)) by {
                assert(views(mid).insert(j as int, x@) =~= views(mid).take(j as int).push(x@)
                    + views(mid).skip(j as int));
                vstd::seq_lib::lemma_multiset_commutative(
                    views(mid).take(j as int).push(x@),
                    views(mid).skip(j as int),
                );
                vstd::seq_lib::lemma_multiset_commutative(
                    views(mid).take(j as int),
                    views(mid).skip(j as int),
                );
                assert(views(mid).take(j as int) + views(mid).skip(j as int) =~= views(mid));
                assert(views(mid).take(j as int).push(x@).to_multiset() =~= views(mid).take(
                    j as int,
                ).to_multiset().insert(x@));
                assert(views(v@).to_multiset() =~= views(mid).to_multiset().insert(x@));
            }
            // sortedness of the grown prefix
            let nv = views(v@);
            let mv = views(mid);
            assert forall|p: int, q: int| 0 <= p < q < i + 1 implies #[trigger] file_le(
                nv.take(i + 1)[p],
                nv.take(i + 1)[q],
            ) by {
                let fo = file_order();
                assert(total_ordering(fo));
                if stopped_le {
                    assert(!fo(mv[j as int], x@));
                    assert(fo(x@, mv[j as int]));
                }
                // elements of the new prefix relative to the old one
                assert(forall|k: int| 0 <= k < j ==> nv[k] == mv[k]);
                assert(nv[j as int] == x@);
                assert(forall|k: int| j < k <= i ==> nv[k] == mv[k - 1]);
                assert(forall|k1: int, k2: int|
                    0 <= k1 < k2 < i ==> #[trigger] fo(mv.take(i as int)[k1], mv.take(i as int)[k2]));
                assert(forall|k1: int, k2: int| 0 <= k1 < k2 < i ==> fo(mv[k1], mv[k2]));
                if p == j {
                    // x against a later element
                    if stopped_le {
                        if q - 1 > j {
                            assert(fo(mv[j as int], mv[q - 1]));
                        }
                        assert(fo(x@, mv[q - 1]));
                    }
                } else if q == j {
                    assert(fo(mv[p], x@));
                } else {
                    assert(fo(nv.take(i + 1)[p], nv.take(i + 1)[q]));
                }
            }
            assert(sorted_by(views(v@).take(i + 1), file_order()));
        }
        i = i + 1;
    }
    proof {
        assert(views(v@).take(v@.len() as int) =~= views(v@));
    }
}

/// Keeps only the first `max_files` files when a limit is configured.  The
/// pipeline applies this only after sorting, so the selection is the
/// lexicographically first `max_files` paths, never an arrival-order
/// accident.
pub fn truncate_sorted(v: &mut Vec<LoadedFile>, max_files: Option<usize>)
    ensures
        match max_files {
            Some(m) => final(v)@ == (if m <= old(v)@.len() {
                old(v)@.take(m as int)
            } else {
                old(v)@
            }),
            None => final(v)@ == old(v)@,
        },
        sorted_by(views(old(v)@), file_order()) ==> sorted_by(views(final(v)@), file_order()),
{
    let ghost orig = v@;
    if let Some(m) = max_files {
        if m <= v.len() {
            v.truncate(m);
            proof {
                assert(v@ == orig.take(m as int));
            }
        }
    }
    proof {
        if sorted_by(views(orig), file_order()) {
            assert forall|p: int, q: int| 0 <= p < q < views(v@).len() implies #[trigger] file_le(
                views(v@)[p],
                views(v@)[q],
            ) by {
                let fo = file_order();
                assert(views(orig)[p] == views(v@)[p]);
                assert(views(orig)[q] == views(v@)[q]);
                assert(fo(views(orig)[p], views(orig)[q]));
            }
        }
    }
}

/// Two sorted sequences over the same multiset of files are equal: re-running
/// the pipeline on an unchanged file set yields the identical order.
pub proof fn lemma_order_deterministic(a: Seq<FileView>, b: Seq<FileView>)
    requires
        sorted_by(a, file_order()),
        sorted_by(b, file_order()),
        a.to_multiset() == b.to_multiset(),
    ensures
        a == b,
{
    lemma_file_order_total();
    lemma_sorted_unique(a, b, file_order());
    assert(a =~= b);
}

/// Whether no two files share a path.
pub open spec fn distinct_paths(s: Seq<FileView>) -> bool {
    forall|i: int, j: int| 0 <= i < j < s.len() ==> s[i].path != s[j].path
}

/// Path distinctness carries over to any rearrangement of the same files.
pub proof fn lemma_distinct_paths_multiset(a: Seq<FileView>, b: Seq<FileView>)
    requires
        a.to_multiset() == b.to_multiset(),
        distinct_paths(a),
    ensures
        distinct_paths(b),
{
    broadcast use vstd::seq_lib::group_to_multiset_ensures;
    broadcast use vstd::multiset::group_multiset_axioms;

    assert(a.no_duplicates());
    a.lemma_multiset_has_no_duplicates();
    assert forall|i: int, j: int| 0 <= i < j < b.len() implies b[i].path != b[j].path by {
        if b[i].path == b[j].path {
            if b[i] == b[j] {
                // one value at two indices of b counts twice in the multiset,
                // but it counts once in a
                let s0 = b.subrange(0, j);
                let s1 = b.subrange(j, b.len() as int);
                assert(b =~= s0 + s1);
                vstd::seq_lib::lemma_multiset_commutative(s0, s1);
                assert(s0[i] == b[i]);
                assert(s0.contains(b[i]));
                assert(s1[0] == b[j]);
                assert(s1.contains(b[j]));
                assert(s0.to_multiset().count(b[i]) > 0);
                assert(s1.to_multiset().count(b[i]) > 0);
                assert(b.to_multiset().count(b[i]) >= 2);
                assert(a.to_multiset().contains(b[i]));
                assert(a.to_multiset().count(b[i]) == 1);
            } else {
                // two distinct values sharing a path would both stand in a
                assert(b.contains(b[i]));
                assert(b.contains(b[j]));
                assert(a.to_multiset().count(b[i]) > 0);
                assert(a.to_multiset().count(b[j]) > 0);
                assert(a.contains(b[i]));
                assert(a.contains(b[j]));
                let i2 = choose|k: int| 0 <= k < a.len() && a[k] == b[i];
                let j2 = choose|k: int| 0 <= k < a.len() && a[k] == b[j];
                assert(i2 != j2);
                assert(a[i2].path != a[j2].path);
            }
        }
    }
}

/// A sorted sequence whose paths are pairwise distinct is strictly ascending
/// by path.
pub proof fn lemma_paths_strictly_ascending(s: Seq<FileView>)
    requires
        sorted_by(s, file_order()),
        distinct_paths(s),
    ensures
        forall|i: int, j: int|
            0 <= i < j < s.len() ==> lex_lt(#[trigger] s[i].path, #[trigger] s[j].path),
{
    assert forall|i: int, j: int| 0 <= i < j < s.len() implies lex_lt(
        #[trigger] s[i].path,
        #[trigger] s[j].path,
    ) by {
        let fo = file_order();
        assert(fo(s[i], s[j]));
        assert(file_le(s[i], s[j]));
        assert(s[i].path != s[j].path);
    }
}

} // verus!
