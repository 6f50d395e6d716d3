use vstd::prelude::*;
use crate::bytes::{NL, dec_str, nl_count};
use crate::sort::{FileView, LoadedFile, views};

verus! {

/// The table of contents' heading line, `// Table of Contents` with its
/// newline.
pub open spec fn toc_heading() -> Seq<u8> {
    seq![
        47u8, 47u8, 32u8, 84u8, 97u8, 98u8, 108u8, 101u8, 32u8, 111u8, 102u8, 32u8, 67u8,
        111u8, 110u8, 116u8, 101u8, 110u8, 116u8, 115u8, 10u8,
    ]
}

/// The rule line, `// ` and eighteen equals signs with its newline, used
/// under the heading and as the footer.
pub open spec fn toc_rule() -> Seq<u8> {
    seq![
        47u8, 47u8, 32u8, 61u8, 61u8, 61u8, 61u8, 61u8, 61u8, 61u8, 61u8, 61u8, 61u8, 61u8,
        61u8, 61u8, 61u8, 61u8, 61u8, 61u8, 61u8, 10u8,
    ]
}

/// The two lines that open the table of contents.
pub open spec fn toc_top() -> Seq<u8> {
    toc_heading() + toc_rule()
}

/// The one line that closes it.
pub open spec fn toc_bottom() -> Seq<u8> {
    toc_rule()
}

/// An entry's prefix, `// Ln`.
pub open spec fn entry_prefix() -> Seq<u8> {
    seq![47u8, 47u8, 32u8, 76u8, 110u8]
}

/// The text between an entry's number and its path, ` : `.
pub open spec fn entry_mid() -> Seq<u8> {
    seq![32u8, 58u8, 32u8]
}

/// One table-of-contents line: `// Ln<num> : <path>` and a newline.
pub open spec fn toc_entry(num: nat, path: Seq<u8>) -> Seq<u8> {
    entry_prefix() + dec_str(num) + entry_mid() + path + seq![NL]
}

/// The line number the first separator line will take: one line past the
/// preamble's newlines, the table's heading and footer decoration (three
/// lines) and its one entry line per file.
pub open spec fn toc_seed(pre_nl: nat, nfiles: nat) -> nat {
    pre_nl + nfiles + 4
}

/// The line number reported for file `i`: the seed advanced, per earlier
/// file, by its content's newline count plus two, one for the separator
/// line and one for the blank line that follows the content.
pub open spec fn toc_num(pre_nl: nat, files: Seq<FileView>, i: int) -> nat
    decreases i,
{
    if i <= 0 {
        toc_seed(pre_nl, files.len())
    } else {
        toc_num(pre_nl, files, i - 1) + nl_count(files[i - 1].content) + 2
    }
}

/// The first `i` entry lines, in file order: the table lists every emitted
/// file exactly once, in the order of the blocks that follow.
pub open spec fn toc_entries(pre_nl: nat, files: Seq<FileView>, i: int) -> Seq<u8>
    decreases i,
{
    if i <= 0 {
        Seq::empty()
    } else {
        toc_entries(pre_nl, files, i - 1) + toc_entry(
            toc_num(pre_nl, files, i - 1),
            files[i - 1].path,
        )
    }
}

/// The whole table-of-contents block.
pub open spec fn toc_block(pre_nl: nat, files: Seq<FileView>) -> Seq<u8> {
    toc_top() + toc_entries(pre_nl, files, files.len() as int) + toc_bottom()
}

/// Whether every reported line number fits the machine's word size.
pub open spec fn toc_fits(pre_nl: nat, files: Seq<FileView>) -> bool {
    toc_num(pre_nl, files, files.len() as int) <= usize::MAX
}

pub proof fn lemma_toc_num_monotonic(pre_nl: nat, files: Seq<FileView>, i: int, j: int)
    requires
        i <= j,
    ensures
        toc_num(pre_nl, files, i) <= toc_num(pre_nl, files, j),
    decreases j,
{
    if i < j && j > 0 {
        lemma_toc_num_monotonic(pre_nl, files, i, j - 1);
    }
}

/// Appends the rule line.
fn push_rule(out: &mut Vec<u8>)
    ensures
        final(out)@ == old(out)@ + toc_rule(),
{
    out.push(47);
    out.push(47);
    out.push(32);
    let mut k: usize = 0;
    while k < 18
        invariant
            0 <= k <= 18,
            out@ == old(out)@ + seq![47u8, 47u8, 32u8] + Seq::new(k as nat, |x: int| 61u8),
        decreases 18 - k,
    {
        out.push(61);
        proof {
            assert(Seq::new(k as nat, |x: int| 61u8).push(61u8) =~= Seq::new(
                (k + 1) as nat,
                |x: int| 61u8,
            ));
            assert(out@ =~= old(out)@ + seq![47u8, 47u8, 32u8] + Seq::new(
                (k + 1) as nat,
                |x: int| 61u8,
            ));
        }
        k = k + 1;
    }
    out.push(10);
    proof {
        assert(out@ =~= old(out)@ + toc_rule());
    }
}

/// Appends the heading line.
fn push_heading(out: &mut Vec<u8>)
    ensures
        final(out)@ == old(out)@ + toc_heading(),
{
    out.push(47);
    out.push(47);
    out.push(32);
    out.push(84);
    out.push(97);
    out.push(98);
    out.push(108);
    out.push(101);
    out.push(32);
    out.push(111);
    out.push(102);
    out.push(32);
    out.push(67);
    out.push(111);
    out.push(110);
    out.push(116);
    out.push(101);
    out.push(110);
    out.push(116);
    out.push(115);
    out.push(10);
    proof {
        assert(out@ =~= old(out)@ + toc_heading());
    }
}

/// Appends one entry line for `path` with the number `num`.
fn push_entry(out: &mut Vec<u8>, num: usize, path: &Vec<u8>)
    ensures
        final(out)@ == old(out)@ + toc_entry(num as nat, path@),
{
    out.push(47);
    out.push(47);
    out.push(32);
    out.push(76);
    out.push(110);
    proof {
        assert(out@ =~= old(out)@ + entry_prefix());
    }
    let digits = crate::bytes::fmt_usize(num);
    crate::bytes::push_bytes(out, digits.as_slice());
    out.push(32);
    out.push(58);
    out.push(32);
    proof {
        assert(out@ =~= old(out)@ + entry_prefix() + dec_str(num as nat) + entry_mid());
    }
    crate::bytes::push_bytes(out, path.as_slice());
    out.push(10);
    proof {
        assert(out@ =~= old(out)@ + toc_entry(num as nat, path@));
    }
}

/// Builds the table of contents for the given files, whose blocks will
/// follow a preamble holding `pre_nl` newlines.  The numbers are computed
/// before any output byte is written, by the advance rule of `toc_num`.
pub fn generate_table_of_contents(files: &Vec<LoadedFile>, pre_nl: usize) -> (out: Vec<u8>)
    requires
        files@.len() > 0,
        toc_fits(pre_nl as nat, views(files@)),
    ensures
        out@ == toc_block(pre_nl as nat, views(files@)),
{
    let ghost fv = views(files@);
    let ghost n = files@.len() as int;
    let mut out: Vec<u8> = Vec::new();
    push_heading(&mut out);
    push_rule(&mut out);
    proof {
        assert(out@ =~= toc_top());
        lemma_toc_num_monotonic(pre_nl as nat, fv, 0, n);
    }
    let mut curr: usize = pre_nl + files.len() + 4;
    let mut i: usize = 0;
    proof {
        assert(out@ =~= toc_top() + toc_entries(pre_nl as nat, fv, 0));
    }
    while i < files.len()
        invariant
            fv == views(files@),
            n == files@.len() as int,
            0 <= i <= files@.len(),
            toc_fits(pre_nl as nat, fv),
            curr == toc_num(pre_nl as nat, fv, i as int),
            out@ == toc_top() + toc_entries(pre_nl as nat, fv, i as int),
        decreases files@.len() - i,
    {
        let ghost before = out@;
        proof {
            assert(fv[i as int] == files@[i as int]@);
        }
        push_entry(&mut out, curr, &files[i].path);
        proof {
            assert(out@ =~= toc_top() + toc_entries(pre_nl as nat, fv, i + 1));
            lemma_toc_num_monotonic(pre_nl as nat, fv, i + 1, n);
        }
        let c = crate::bytes::count_newlines(&files[i].content);
        curr = curr + c + 2;
        i = i + 1;
    }
    push_rule(&mut out);
    proof {
        assert(out@ =~= toc_block(pre_nl as nat, fv));
    }
    out
}

} // verus!
