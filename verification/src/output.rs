use vstd::prelude::*;
use crate::bytes::{NL, dec_str, lemma_nl_count_concat, nl_count};
use crate::sort::{FileView, LoadedFile, views};
use crate::toc::{entry_mid, entry_prefix, toc_block, toc_bottom, toc_entries, toc_entry,
    toc_fits, toc_heading, toc_num, toc_rule, toc_seed, toc_top};

verus! {

/// An optional byte sequence, or nothing.
pub open spec fn opt_or_empty(o: Option<Seq<u8>>) -> Seq<u8> {
    match o {
        Some(s) => s,
        None => Seq::empty(),
    }
}

/// What stands before the table of contents: the header bytes, verbatim,
/// then the metadata block.
pub open spec fn preamble(head: Option<Seq<u8>>, meta: Option<Seq<u8>>) -> Seq<u8> {
    opt_or_empty(head) + opt_or_empty(meta)
}

/// A separator line: the configured separator, a space, the file's path and
/// a newline.
pub open spec fn sep_line(sep: Seq<u8>, path: Seq<u8>) -> Seq<u8> {
    sep + seq![32u8] + path + seq![NL]
}

/// One file's block: its separator line, its raw content and a trailing
/// newline.
pub open spec fn file_block(sep: Seq<u8>, f: FileView) -> Seq<u8> {
    sep_line(sep, f.path) + f.content + seq![NL]
}

/// The blocks of the first `i` files, in order.
pub open spec fn blocks_upto(sep: Seq<u8>, files: Seq<FileView>, i: int) -> Seq<u8>
    decreases i,
{
    if i <= 0 {
        Seq::empty()
    } else {
        blocks_upto(sep, files, i - 1) + file_block(sep, files[i - 1])
    }
}

/// The blocks of the files from `i` on, in order.
pub open spec fn blocks_from(sep: Seq<u8>, files: Seq<FileView>, i: int) -> Seq<u8>
    decreases files.len() - i,
{
    if i < 0 || i >= files.len() {
        Seq::empty()
    } else {
        file_block(sep, files[i]) + blocks_from(sep, files, i + 1)
    }
}

/// The whole output document: header bytes, metadata block, table of
/// contents when asked for, then one block per file in the given order.
pub open spec fn output_spec(
    head: Option<Seq<u8>>,
    meta: Option<Seq<u8>>,
    toc: bool,
    sep: Seq<u8>,
    files: Seq<FileView>,
) -> Seq<u8> {
    let pre = preamble(head, meta);
    let t = if toc {
        toc_block(nl_count(pre), files)
    } else {
        Seq::empty()
    };
    pre + t + blocks_upto(sep, files, files.len() as int)
}

/// The view of an optional borrowed byte vector.
pub open spec fn view_opt(o: Option<&Vec<u8>>) -> Option<Seq<u8>> {
    match o {
        Some(v) => Some(v@),
        None => None,
    }
}

/// Assembles the output document.  The table of contents, when asked for,
/// is computed before any file block is written, from the preamble's
/// newline count and the files' contents alone.
pub fn generate_output(
    head: Option<&Vec<u8>>,
    metadata: Option<&Vec<u8>>,
    table_of_contents: bool,
    separator: &Vec<u8>,
    files: &Vec<LoadedFile>,
) -> (out: Vec<u8>)
    requires
        table_of_contents ==> files@.len() > 0,
        table_of_contents ==> toc_fits(
            nl_count(preamble(view_opt(head), view_opt(metadata))),
            views(files@),
        ),
    ensures
        out@ == output_spec(
            view_opt(head),
            view_opt(metadata),
            table_of_contents,
            separator@,
            views(files@),
        ),
{
    let ghost fv = views(files@);
    let mut out: Vec<u8> = Vec::new();
    if let Some(h) = head {
        crate::bytes::push_bytes(&mut out, h.as_slice());
    }
    if let Some(m) = metadata {
        crate::bytes::push_bytes(&mut out, m.as_slice());
    }
    let ghost pre = out@;
    proof {
        assert(pre =~= preamble(view_opt(head), view_opt(metadata)));
    }
    if table_of_contents {
        let pre_nl = crate::bytes::count_newlines(&out);
        let toc = crate::toc::generate_table_of_contents(files, pre_nl);
        crate::bytes::push_bytes(&mut out, toc.as_slice());
    }
    let ghost toc_part = if table_of_contents {
        toc_block(nl_count(pre), fv)
    } else {
        Seq::<u8>::empty()
    };
    proof {
        assert(out@ =~= pre + toc_part);
        assert(out@ =~= pre + toc_part + blocks_upto(separator@, fv, 0));
    }
    let mut i: usize = 0;
    while i < files.len()
        invariant
            fv == views(files@),
            0 <= i <= files@.len(),
            out@ == pre + toc_part + blocks_upto(separator@, fv, i as int),
        decreases files@.len() - i,
    {
        proof {
            assert(fv[i as int] == files@[i as int]@);
        }
        let ghost before = out@;
        crate::bytes::push_bytes(&mut out, separator.as_slice());
        out.push(32);
        crate::bytes::push_bytes(&mut out, files[i].path.as_slice());
        out.push(NL);
        crate::bytes::push_bytes(&mut out, files[i].content.as_slice());
        out.push(NL);
        proof {
            assert(out@ =~= before + file_block(separator@, fv[i as int]));
            assert(out@ =~= pre + toc_part + blocks_upto(separator@, fv, i + 1));
        }
        i = i + 1;
    }
    proof {
        assert(out@ =~= output_spec(
            view_opt(head),
            view_opt(metadata),
            table_of_contents,
            separator@,
            fv,
        ));
    }
    out
}

/// A sequence without the newline byte has a zero newline count.
pub proof fn lemma_nl_count_zero(s: Seq<u8>)
    requires
        forall|i: int| 0 <= i < s.len() ==> s[i] != NL,
    ensures
        nl_count(s) == 0,
    decreases s.len(),
{
    if s.len() > 0 {
        assert(forall|i: int| 0 <= i < s.drop_last().len() ==> s.drop_last()[i] == s[i]);
        lemma_nl_count_zero(s.drop_last());
        assert(s.last() == s[s.len() - 1]);
    }
}

proof fn lemma_nl_literals()
    ensures
        nl_count(toc_heading()) == 1,
        nl_count(toc_rule()) == 1,
        nl_count(entry_prefix()) == 0,
        nl_count(entry_mid()) == 0,
        nl_count(seq![NL]) == 1,
{
    reveal_with_fuel(nl_count, 25);
}

proof fn lemma_dec_str_no_nl(n: nat)
    ensures
        nl_count(dec_str(n)) == 0,
    decreases n,
{
    reveal_with_fuel(nl_count, 3);
    if n < 10 {
        assert(((48 + n) as u8) != NL);
        assert(dec_str(n).last() == (48 + n) as u8);
        assert(dec_str(n).drop_last() =~= Seq::<u8>::empty());
    } else {
        lemma_dec_str_no_nl(n / 10);
        assert(((48 + n % 10) as u8) != NL);
        assert(dec_str(n).drop_last() =~= dec_str(n / 10));
        assert(dec_str(n).last() == (48 + n % 10) as u8);
    }
}

/// A table-of-contents entry holds exactly one newline when its path holds
/// none.
proof fn lemma_nl_toc_entry(num: nat, path: Seq<u8>)
    requires
        nl_count(path) == 0,
    ensures
        nl_count(toc_entry(num, path)) == 1,
{
    lemma_nl_literals();
    lemma_dec_str_no_nl(num);
    lemma_nl_count_concat(entry_prefix(), dec_str(num));
    lemma_nl_count_concat(entry_prefix() + dec_str(num), entry_mid());
    lemma_nl_count_concat(entry_prefix() + dec_str(num) + entry_mid(), path);
    lemma_nl_count_concat(entry_prefix() + dec_str(num) + entry_mid() + path, seq![NL]);
}

proof fn lemma_nl_toc_entries(pre_nl: nat, files: Seq<FileView>, i: int)
    requires
        0 <= i <= files.len(),
        forall|j: int| 0 <= j < files.len() ==> nl_count(#[trigger] files[j].path) == 0,
    ensures
        nl_count(toc_entries(pre_nl, files, i)) == i,
    decreases i,
{
    reveal_with_fuel(nl_count, 2);
    if i > 0 {
        lemma_nl_toc_entries(pre_nl, files, i - 1);
        lemma_nl_toc_entry(toc_num(pre_nl, files, i - 1), files[i - 1].path);
        lemma_nl_count_concat(
            toc_entries(pre_nl, files, i - 1),
            toc_entry(toc_num(pre_nl, files, i - 1), files[i - 1].path),
        );
    }
}

/// The table of contents holds one line per file plus its three decoration
/// lines.
pub proof fn lemma_nl_toc_block(pre_nl: nat, files: Seq<FileView>)
    requires
        forall|j: int| 0 <= j < files.len() ==> nl_count(#[trigger] files[j].path) == 0,
    ensures
        nl_count(toc_block(pre_nl, files)) == files.len() + 3,
{
    lemma_nl_literals();
    lemma_nl_toc_entries(pre_nl, files, files.len() as int);
    lemma_nl_count_concat(toc_heading(), toc_rule());
    lemma_nl_count_concat(toc_top(), toc_entries(pre_nl, files, files.len() as int));
    lemma_nl_count_concat(
        toc_top() + toc_entries(pre_nl, files, files.len() as int),
        toc_bottom(),
    );
}

/// A file's block holds its content's newlines plus two: the separator line
/// and the blank line after the content.
proof fn lemma_nl_file_block(sep: Seq<u8>, f: FileView)
    requires
        nl_count(sep) == 0,
        nl_count(f.path) == 0,
    ensures
        nl_count(file_block(sep, f)) == nl_count(f.content) + 2,
{
    lemma_nl_literals();
    lemma_nl_count_concat(sep, seq![32u8]);
    lemma_nl_count_concat(sep + seq![32u8], f.path);
    lemma_nl_count_concat(sep + seq![32u8] + f.path, seq![NL]);
    lemma_nl_count_concat(sep_line(sep, f.path), f.content);
    lemma_nl_count_concat(sep_line(sep, f.path) + f.content, seq![NL]);
    assert(nl_count(seq![32u8]) == 0) by {
        reveal_with_fuel(nl_count, 2);
    }
}

/// The advance rule of the predicted numbers mirrors the newline count of
/// the blocks written so far.
proof fn lemma_toc_num_blocks(pre_nl: nat, sep: Seq<u8>, files: Seq<FileView>, i: int)
    requires
        0 <= i <= files.len(),
        nl_count(sep) == 0,
        forall|j: int| 0 <= j < files.len() ==> nl_count(#[trigger] files[j].path) == 0,
    ensures
        toc_num(pre_nl, files, i) == toc_seed(pre_nl, files.len()) + nl_count(
            blocks_upto(sep, files, i),
        ),
    decreases i,
{
    reveal_with_fuel(nl_count, 2);
    if i > 0 {
        lemma_toc_num_blocks(pre_nl, sep, files, i - 1);
        lemma_nl_file_block(sep, files[i - 1]);
        lemma_nl_count_concat(blocks_upto(sep, files, i - 1), file_block(sep, files[i - 1]));
    }
}

/// The blocks split at any index into those before it and those from it on.
proof fn lemma_blocks_join(sep: Seq<u8>, files: Seq<FileView>, i: int)
    requires
        0 <= i <= files.len(),
    ensures
        blocks_upto(sep, files, files.len() as int) == blocks_upto(sep, files, i) + blocks_from(
            sep,
            files,
            i,
        ),
    decreases files.len() - i,
{
    if i == files.len() {
        assert(blocks_upto(sep, files, i) + blocks_from(sep, files, i) =~= blocks_upto(
            sep,
            files,
            i,
        ));
    } else {
        lemma_blocks_join(sep, files, i + 1);
        assert(blocks_upto(sep, files, i + 1) =~= blocks_upto(sep, files, i) + file_block(
            sep,
            files[i],
        ));
        assert(blocks_upto(sep, files, i) + file_block(sep, files[i]) + blocks_from(
            sep,
            files,
            i + 1,
        ) =~= blocks_upto(sep, files, i) + (file_block(sep, files[i]) + blocks_from(
            sep,
            files,
            i + 1,
        )));
    }
}

/// The table of contents is exact: in an output with a table of contents,
/// file `i`'s block stands immediately after the preamble, the table and
/// the blocks of the earlier files, and the number the table reports for
/// file `i` is exactly one more than the newlines before its separator
/// line, that is, the separator line's 1-based line number in the final
/// byte stream.  The table lists every emitted file exactly once, in block
/// order, by construction of its entries.
pub proof fn lemma_toc_line_numbers(
    head: Option<Seq<u8>>,
    meta: Option<Seq<u8>>,
    sep: Seq<u8>,
    files: Seq<FileView>,
    i: int,
)
    requires
        0 <= i < files.len(),
        nl_count(sep) == 0,
        forall|j: int| 0 <= j < files.len() ==> nl_count(#[trigger] files[j].path) == 0,
    ensures
        output_spec(head, meta, true, sep, files) == (preamble(head, meta) + toc_block(
            nl_count(preamble(head, meta)),
            files,
        ) + blocks_upto(sep, files, i)) + file_block(sep, files[i]) + blocks_from(
            sep,
            files,
            i + 1,
        ),
        toc_num(nl_count(preamble(head, meta)), files, i) == 1 + nl_count(
            preamble(head, meta) + toc_block(nl_count(preamble(head, meta)), files)
                + blocks_upto(sep, files, i),
        ),
{
    let pre = preamble(head, meta);
    let pre_nl = nl_count(pre);
    let tb = toc_block(pre_nl, files);
    // the output splits around file i's block
    lemma_blocks_join(sep, files, i);
    assert(blocks_from(sep, files, i) == file_block(sep, files[i]) + blocks_from(
        sep,
        files,
        i + 1,
    ));
    assert(output_spec(head, meta, true, sep, files) =~= (pre + tb + blocks_upto(sep, files, i))
        + file_block(sep, files[i]) + blocks_from(sep, files, i + 1));
    // the predicted number counts the newlines before that block
    lemma_nl_toc_block(pre_nl, files);
    lemma_toc_num_blocks(pre_nl, sep, files, i);
    lemma_nl_count_concat(pre, tb);
    lemma_nl_count_concat(pre + tb, blocks_upto(sep, files, i));
}

/// Re-running on an unchanged file set yields byte-identical output: the
/// document is a function of the configuration and the ordered files, and
/// two sorted sequences over the same multiset of files are the same
/// sequence.
pub proof fn lemma_output_deterministic(
    head: Option<Seq<u8>>,
    meta: Option<Seq<u8>>,
    toc: bool,
    sep: Seq<u8>,
    a: Seq<FileView>,
    b: Seq<FileView>,
)
    requires
        vstd::relations::sorted_by(a, crate::sort::file_order()),
        vstd::relations::sorted_by(b, crate::sort::file_order()),
        a.to_multiset() == b.to_multiset(),
    ensures
        output_spec(head, meta, toc, sep, a) == output_spec(head, meta, toc, sep, b),
{
    crate::sort::lemma_order_deterministic(a, b);
}

} // verus!
