use vstd::prelude::*;
use vstd::relations::sorted_by;
use crate::sort::{FileView, LoadedFile, distinct_paths, file_order, lemma_distinct_paths_multiset,
    lemma_paths_strictly_ascending, sort_files, truncate_sorted, views};

verus! {

/// The outcome of one read attempt: the path, and the content when the read
/// succeeded.  A failed read is reported by the caller and carries `None`.
pub struct LoadResult {
    pub path: Vec<u8>,
    pub content: Option<Vec<u8>>,
}

/// What keeping only the successful reads yields, in arrival order: a subset
/// of the attempted paths, each with its content.
pub open spec fn kept_spec(s: Seq<LoadResult>) -> Seq<FileView>
    decreases s.len(),
{
    if s.len() == 0 {
        Seq::empty()
    } else {
        (match s.first().content {
            Some(c) => seq![FileView { path: s.first().path@, content: c@ }],
            None => Seq::empty(),
        }) + kept_spec(s.drop_first())
    }
}

/// Keeps the reads that succeeded, dropping failed ones; failure of one read
/// never discards the batch.
pub fn keep_loaded(results: Vec<LoadResult>) -> (r: Vec<LoadedFile>)
    ensures
        views(r@) == kept_spec(results@),
{
    let ghost orig = results@;
    let mut results = results;
    let mut r: Vec<LoadedFile> = Vec::new();
    proof {
        assert(views(r@) + kept_spec(results@) =~= kept_spec(orig));
    }
    while results.len() > 0
        invariant
            views(r@) + kept_spec(results@) =~= kept_spec(orig),
        decreases results@.len(),
    {
        let ghost rs = results@;
        let x = results.remove(0);
        proof {
            assert(rs.remove(0) =~= rs.drop_first());
            assert(x == rs.first());
        }
        match x.content {
            Some(c) => {
                let ghost rv = r@;
                r.push(LoadedFile { path: x.path, content: c });
                proof {
                    let fv = FileView { path: rs.first().path@, content: rs.first().content->0@ };
                    assert(views(r@) =~= views(rv).push(fv));
                    assert(kept_spec(rs) =~= seq![fv] + kept_spec(rs.drop_first()));
                    assert(views(r@) + kept_spec(results@) =~= views(rv) + kept_spec(rs));
                }
            },
            None => {
                proof {
                    assert(kept_spec(rs) =~= kept_spec(rs.drop_first()));
                }
            },
        }
    }
    proof {
        assert(kept_spec(results@) =~= Seq::<FileView>::empty());
        assert(views(r@) =~= views(r@) + kept_spec(results@));
    }
    r
}

/// The paths among `paths` whose flag is clear: those that denote plain
/// files.
pub open spec fn files_part(paths: Seq<Vec<u8>>, flags: Seq<bool>) -> Seq<Vec<u8>>
    decreases paths.len(),
{
    if paths.len() == 0 {
        Seq::empty()
    } else {
        (if flags.first() {
            Seq::empty()
        } else {
            seq![paths.first()]
        }) + files_part(paths.drop_first(), flags.drop_first())
    }
}

/// The paths among `paths` whose flag is set: those that denote directories.
pub open spec fn dirs_part(paths: Seq<Vec<u8>>, flags: Seq<bool>) -> Seq<Vec<u8>>
    decreases paths.len(),
{
    if paths.len() == 0 {
        Seq::empty()
    } else {
        (if flags.first() {
            seq![paths.first()]
        } else {
            Seq::empty()
        }) + dirs_part(paths.drop_first(), flags.drop_first())
    }
}

/// Splits a path list into its file and directory parts in one pass.  Only
/// explicitly included paths can still denote directories at this stage;
/// the caller walks the returned directories and appends every file that
/// walk finds back onto the file list.
pub fn reduce_dir_list(paths: Vec<Vec<u8>>, is_dir: &Vec<bool>) -> (r: (Vec<Vec<u8>>, Vec<
    Vec<u8>,
>))
    requires
        paths@.len() == is_dir@.len(),
    ensures
        r.0@ == files_part(paths@, is_dir@),
        r.1@ == dirs_part(paths@, is_dir@),
{
    let ghost op = paths@;
    let ghost of = is_dir@;
    let mut paths = paths;
    let n: usize = is_dir.len();
    let mut flags_done: usize = 0;
    let mut files: Vec<Vec<u8>> = Vec::new();
    let mut dirs: Vec<Vec<u8>> = Vec::new();
    proof {
        assert(of.skip(0) =~= of);
        assert(files@ + files_part(paths@, of.skip(0)) =~= files_part(op, of));
        assert(dirs@ + dirs_part(paths@, of.skip(0)) =~= dirs_part(op, of));
    }
    while paths.len() > 0
        invariant
            of == is_dir@,
            n == of.len(),
            flags_done + paths@.len() == of.len(),
            files@ + files_part(paths@, of.skip(flags_done as int)) =~= files_part(op, of),
            dirs@ + dirs_part(paths@, of.skip(flags_done as int)) =~= dirs_part(op, of),
        decreases paths@.len(),
    {
        let ghost ps = paths@;
        let ghost fs = of.skip(flags_done as int);
        let x = paths.remove(0);
        let d = is_dir[flags_done];
        proof {
            assert(ps.remove(0) =~= ps.drop_first());
            assert(fs.first() == of[flags_done as int]);
            assert(fs.drop_first() =~= of.skip(flags_done + 1));
        }
        if d {
            let ghost dv = dirs@;
            dirs.push(x);
            proof {
                assert(dirs@ =~= dv + seq![x]);
                assert(dirs_part(ps, fs) =~= seq![x] + dirs_part(ps.drop_first(), fs.drop_first()));
                assert(dirs@ + dirs_part(paths@, of.skip(flags_done + 1)) =~= dv + dirs_part(
                    ps,
                    fs,
                ));
                assert(files_part(ps, fs) =~= files_part(ps.drop_first(), fs.drop_first()));
            }
        } else {
            let ghost fv = files@;
            files.push(x);
            proof {
                assert(files@ =~= fv + seq![x]);
                assert(files_part(ps, fs) =~= seq![x] + files_part(
                    ps.drop_first(),
                    fs.drop_first(),
                ));
                assert(files@ + files_part(paths@, of.skip(flags_done + 1)) =~= fv + files_part(
                    ps,
                    fs,
                ));
                assert(dirs_part(ps, fs) =~= dirs_part(ps.drop_first(), fs.drop_first()));
            }
        }
        flags_done = flags_done + 1;
    }
    proof {
        assert(files_part(paths@, of.skip(flags_done as int)) =~= Seq::<Vec<u8>>::empty());
        assert(dirs_part(paths@, of.skip(flags_done as int)) =~= Seq::<Vec<u8>>::empty());
        assert(files@ =~= files@ + files_part(paths@, of.skip(flags_done as int)));
        assert(dirs@ =~= dirs@ + dirs_part(paths@, of.skip(flags_done as int)));
    }
    (files, dirs)
}

/// Collection found no file to include; the run aborts.
#[derive(Clone, Copy, Debug, PartialEq, Eq, Structural)]
pub enum CollectError {
    NoFiles,
}

/// What the ordered result of collection is: the successfully loaded files,
/// sorted by path (ties by content), cut to the first `max_files` entries
/// after sorting.
pub open spec fn collected_spec(results: Seq<LoadResult>, max_files: Option<usize>) -> Seq<
    FileView,
> {
    let sorted = kept_spec(results).sort_by(file_order());
    match max_files {
        Some(m) => if m <= sorted.len() {
            sorted.take(m as int)
        } else {
            sorted
        },
        None => sorted,
    }
}

/// The computational tail of source collection: keeps the reads that
/// succeeded, sorts deterministically, and only then applies the file-count
/// limit, so the selection is the lexicographically first paths.  Finding no
/// file at all is a fatal error.
pub fn collect_sources(results: Vec<LoadResult>, max_files: Option<usize>) -> (r: Result<
    Vec<LoadedFile>,
    CollectError,
>)
    ensures
        match r {
            Ok(v) => {
                &&& kept_spec(results@).len() > 0
                &&& views(v@) == collected_spec(results@, max_files)
                &&& sorted_by(views(v@), file_order())
            },
            Err(e) => {
                &&& kept_spec(results@).len() == 0
                &&& e == CollectError::NoFiles
            },
        },
{
    let ghost rs = results@;
    let mut files = keep_loaded(results);
    if files.len() == 0 {
        proof {
            assert(views(files@).len() == 0);
        }
        return Err(CollectError::NoFiles);
    }
    proof {
        assert(views(files@).len() == files@.len());
    }
    sort_files(&mut files);
    proof {
        crate::sort::lemma_file_order_total();
        kept_spec(rs).lemma_sort_by_ensures(file_order());
        crate::sort::lemma_order_deterministic(
            views(files@),
            kept_spec(rs).sort_by(file_order()),
        );
    }
    let ghost sorted_files = files@;
    truncate_sorted(&mut files, max_files);
    proof {
        if max_files is Some && max_files->0 <= sorted_files.len() {
            assert(views(files@) =~= views(sorted_files).take(max_files->0 as int));
        }
    }
    Ok(files)
}

/// How many lines a content has: its newline count, plus one for a final
/// line that lacks a terminating newline.
pub open spec fn line_count(s: Seq<u8>) -> nat {
    crate::bytes::nl_count(s) + if s.len() > 0 && s.last() != crate::bytes::NL {
        1nat
    } else {
        0nat
    }
}

/// The line counts of all the files, summed.
pub open spec fn total_lines(files: Seq<FileView>) -> nat
    decreases files.len(),
{
    if files.len() == 0 {
        0
    } else {
        total_lines(files.drop_last()) + line_count(files.last().content)
    }
}

proof fn lemma_total_lines_monotonic(files: Seq<FileView>, i: int, j: int)
    requires
        0 <= i <= j <= files.len(),
    ensures
        total_lines(files.take(i)) <= total_lines(files.take(j)),
    decreases j,
{
    if i < j {
        lemma_total_lines_monotonic(files, i, j - 1);
        assert(files.take(j).drop_last() =~= files.take(j - 1));
    }
}

/// Counts the lines of one content.
pub fn count_lines(content: &Vec<u8>) -> (r: usize)
    ensures
        r == line_count(content@),
{
    let c = crate::bytes::count_newlines(content);
    if content.len() > 0 && content[content.len() - 1] != crate::bytes::NL {
        proof {
            crate::bytes::lemma_nl_count_le_len(content@.drop_last());
            assert(crate::bytes::nl_count(content@) == crate::bytes::nl_count(
                content@.drop_last(),
            ));
        }
        c + 1
    } else {
        c
    }
}

/// The total line count over all loaded files, as the info summary reports
/// it; `None` when the sum does not fit the counter.
pub fn total_line_count(files: &Vec<LoadedFile>) -> (r: Option<u64>)
    ensures
        match r {
            Some(t) => t == total_lines(views(files@)),
            None => total_lines(views(files@)) > u64::MAX,
        },
{
    let ghost fv = views(files@);
    let mut acc: u64 = 0;
    let mut i: usize = 0;
    proof {
        assert(fv.take(0).len() == 0);
    }
    while i < files.len()
        invariant
            fv == views(files@),
            0 <= i <= files@.len(),
            acc == total_lines(fv.take(i as int)),
        decreases files@.len() - i,
    {
        let c = count_lines(&files[i].content);
        proof {
            assert(fv[i as int] == files@[i as int]@);
            assert(fv.take(i + 1).drop_last() =~= fv.take(i as int));
            assert(fv.take(i + 1).last() == fv[i as int]);
        }
        if c as u64 > u64::MAX - acc {
            proof {
                lemma_total_lines_monotonic(fv, i + 1, fv.len() as int);
                assert(fv.take(fv.len() as int) =~= fv);
            }
            return None;
        }
        acc = acc + c as u64;
        i = i + 1;
    }
    proof {
        assert(fv.take(fv.len() as int) =~= fv);
    }
    Some(acc)
}

/// The collection result is strictly ascending by path: with no two
/// successful reads sharing a path (the walker emits each discovered path
/// once), the sorted, truncated result is in strict byte-wise path order,
/// whatever order the reads arrived in.
pub proof fn lemma_collected_strictly_ascending(
    results: Seq<LoadResult>,
    max_files: Option<usize>,
)
    requires
        distinct_paths(kept_spec(results)),
    ensures
        forall|i: int, j: int|
            0 <= i < j < collected_spec(results, max_files).len() ==> crate::bytes::lex_lt(
                #[trigger] collected_spec(results, max_files)[i].path,
                #[trigger] collected_spec(results, max_files)[j].path,
            ),
{
    let k = kept_spec(results);
    let s = k.sort_by(file_order());
    crate::sort::lemma_file_order_total();
    k.lemma_sort_by_ensures(file_order());
    lemma_distinct_paths_multiset(k, s);
    lemma_paths_strictly_ascending(s);
    let c = collected_spec(results, max_files);
    assert forall|i: int, j: int| 0 <= i < j < c.len() implies crate::bytes::lex_lt(
        #[trigger] c[i].path,
        #[trigger] c[j].path,
    ) by {
        assert(c[i] == s[i]);
        assert(c[j] == s[j]);
        assert(crate::bytes::lex_lt(s[i].path, s[j].path));
    }
}

} // verus!
