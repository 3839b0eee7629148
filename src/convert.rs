//! The whole conversion: passthrough lines are kept, each vault block is
//! replaced by its decrypted value.

use vstd::prelude::*;
use crate::render::{render_block, rendered, spaces};
use crate::scan::{body_end, body_text, header_pre_text, lemma_body_end_bounds, scan_block};
use crate::text::{is_blank, leading_ws, lines_of};
use crate::vault::{decrypt_data, decrypted_text, DecryptError};

verus! {

/// `head` before the lines of `r`, or the error of `r`.
pub open spec fn prepend(head: Seq<Seq<char>>, r: Result<Seq<Seq<char>>, DecryptError>) -> Result<
    Seq<Seq<char>>,
    DecryptError,
> {
    match r {
        Ok(rest) => Ok(head + rest),
        Err(e) => Err(e),
    }
}

/// The output for the document lines from index `i` on, decrypting with
/// `creds`; the first block that cannot be decrypted fails the whole.
pub open spec fn converted_from(lines: Seq<Seq<char>>, creds: Seq<Seq<char>>, i: int) -> Result<
    Seq<Seq<char>>,
    DecryptError,
>
    decreases lines.len() - i,
    via converted_from_decreases
{
    if i < 0 || i >= lines.len() {
        Ok(seq![])
    } else {
        match header_pre_text(lines[i]) {
            None => prepend(seq![lines[i]], converted_from(lines, creds, i + 1)),
            Some(pre) => {
                let base = leading_ws(lines[i]);
                let end = body_end(lines, i + 1, base);
                match decrypted_text(body_text(lines, i + 1, end), creds) {
                    Err(e) => Err(e),
                    Ok(plain) => prepend(
                        rendered(pre, base as nat, lines_of(plain)),
                        converted_from(lines, creds, end),
                    ),
                }
            },
        }
    }
}

#[via_fn]
proof fn converted_from_decreases(lines: Seq<Seq<char>>, creds: Seq<Seq<char>>, i: int) {
    if 0 <= i < lines.len() {
        lemma_body_end_bounds(lines, i + 1, leading_ws(lines[i]));
    }
}

/// The output for a whole document.
pub open spec fn converted(lines: Seq<Seq<char>>, creds: Seq<Seq<char>>) -> Result<
    Seq<Seq<char>>,
    DecryptError,
> {
    converted_from(lines, creds, 0)
}

/// Converts a document: lines that open no vault block are kept as they are,
/// and each block is replaced by its plaintext, in order.
pub fn convert_lines(lines: &Vec<String>, credentials: &Vec<String>) -> (r: Result<
    Vec<String>,
    DecryptError,
>)
    ensures
        r matches Ok(out) ==> converted(lines.deep_view(), credentials.deep_view()) == Ok::<
            Seq<Seq<char>>,
            DecryptError,
        >(out.deep_view()),
        r matches Err(e) ==> converted(lines.deep_view(), credentials.deep_view()) == Err::<
            Seq<Seq<char>>,
            DecryptError,
        >(e),
{
    let ghost ls = lines.deep_view();
    let ghost cs = credentials.deep_view();
    let n = lines.len();
    let mut out: Vec<String> = Vec::new();
    let mut i: usize = 0;
    while i < n
        invariant
            n == lines.len() == ls.len(),
            ls == lines.deep_view(),
            cs == credentials.deep_view(),
            i <= n,
            converted(ls, cs) == prepend(out.deep_view(), converted_from(ls, cs, i as int)),
        decreases n - i,
    {
        let ghost before = out.deep_view();
        match scan_block(lines, i) {
            None => {
                let line = lines[i].clone();
                assert(ls[i as int] == line@);
                out.push(line);
                assert(out.deep_view() =~= before + seq![ls[i as int]]);
                assert(converted(ls, cs) == prepend(out.deep_view(), converted_from(ls, cs, i + 1)))
                    by {
                    assert(before + (seq![ls[i as int]] + converted_from(ls, cs, i + 1)->Ok_0) =~= (
                    before + seq![ls[i as int]]) + converted_from(ls, cs, i + 1)->Ok_0);
                }
                i = i + 1;
            },
            Some(block) => {
                proof {
                    lemma_body_end_bounds(ls, i + 1, block.base_indent as int);
                }
                match decrypt_data(block.ciphertext.as_str(), credentials) {
                    Err(e) => {
                        return Err(e);
                    },
                    Ok(plain) => {
                        let mut rep = render_block(
                            block.pre_text.as_str(),
                            block.base_indent,
                            plain.as_str(),
                        );
                        let ghost added = rep.deep_view();
                        out.append(&mut rep);
                        assert(out.deep_view() =~= before + added);
                        assert(converted(ls, cs) == prepend(
                            out.deep_view(),
                            converted_from(ls, cs, block.end as int),
                        )) by {
                            assert(before + (added + converted_from(
                                ls,
                                cs,
                                block.end as int,
                            )->Ok_0) =~= (before + added) + converted_from(
                                ls,
                                cs,
                                block.end as int,
                            )->Ok_0);
                        }
                        i = block.end;
                    },
                }
            },
        }
    }
    assert(out.deep_view() + seq![] =~= out.deep_view());
    Ok(out)
}

/// A document with no vault block comes out unchanged.
pub proof fn lemma_no_blocks_unchanged(lines: Seq<Seq<char>>, creds: Seq<Seq<char>>)
    requires
        forall|k: int| 0 <= k < lines.len() ==> header_pre_text(#[trigger] lines[k]) is None,
    ensures
        converted(lines, creds) == Ok::<Seq<Seq<char>>, DecryptError>(lines),
{
    lemma_no_blocks_from(lines, creds, 0);
    assert(lines.subrange(0, lines.len() as int) =~= lines);
}

proof fn lemma_no_blocks_from(lines: Seq<Seq<char>>, creds: Seq<Seq<char>>, i: int)
    requires
        0 <= i <= lines.len(),
        forall|k: int| 0 <= k < lines.len() ==> header_pre_text(#[trigger] lines[k]) is None,
    ensures
        converted_from(lines, creds, i) == Ok::<Seq<Seq<char>>, DecryptError>(
            lines.subrange(i, lines.len() as int),
        ),
    decreases lines.len() - i,
{
    if i < lines.len() {
        lemma_no_blocks_from(lines, creds, i + 1);
        assert(seq![lines[i]] + lines.subrange(i + 1, lines.len() as int) =~= lines.subrange(
            i,
            lines.len() as int,
        ));
    } else {
        assert(lines.subrange(i, lines.len() as int) =~= Seq::<Seq<char>>::empty());
    }
}

proof fn lemma_body_end_all_deeper(lines: Seq<Seq<char>>, i: int, base: int)
    requires
        0 <= i <= lines.len(),
        forall|k: int|
            i <= k < lines.len() ==> !is_blank(#[trigger] lines[k]) && leading_ws(lines[k])
                > base,
    ensures
        body_end(lines, i, base) == lines.len(),
    decreases lines.len() - i,
{
    if i < lines.len() {
        lemma_body_end_all_deeper(lines, i + 1, base);
    }
}

/// A document made of one vault block, a header line and a body of non-blank
/// lines indented deeper than it, comes out as the lines that render the
/// block's plaintext.
pub proof fn lemma_single_block(
    header: Seq<char>,
    body: Seq<Seq<char>>,
    creds: Seq<Seq<char>>,
    plain: Seq<char>,
)
    requires
        header_pre_text(header) is Some,
        forall|k: int|
            0 <= k < body.len() ==> !is_blank(#[trigger] body[k]) && leading_ws(body[k])
                > leading_ws(header),
        decrypted_text(body_text(seq![header] + body, 1, body.len() + 1 as int), creds) == Ok::<
            Seq<char>,
            DecryptError,
        >(plain),
    ensures
        converted(seq![header] + body, creds) == Ok::<Seq<Seq<char>>, DecryptError>(
            rendered(header_pre_text(header)->Some_0, leading_ws(header) as nat, lines_of(plain)),
        ),
{
    let doc = seq![header] + body;
    assert(doc[0] == header);
    assert forall|k: int| 1 <= k < doc.len() implies !is_blank(#[trigger] doc[k]) && leading_ws(
        doc[k],
    ) > leading_ws(header) by {
        assert(doc[k] == body[k - 1]);
    }
    lemma_body_end_all_deeper(doc, 1, leading_ws(header));
    assert(doc.len() == body.len() + 1);
    assert(body_end(doc, 1, leading_ws(doc[0])) == doc.len());
    assert(converted_from(doc, creds, doc.len() as int) == Ok::<Seq<Seq<char>>, DecryptError>(
        seq![],
    ));
    let out = rendered(header_pre_text(header)->Some_0, leading_ws(header) as nat, lines_of(plain));
    assert(out + seq![] =~= out);
    assert(converted_from(doc, creds, 0) == prepend(
        out,
        converted_from(doc, creds, doc.len() as int),
    ));
}

/// A block whose plaintext has no line becomes `pre_text ''`.
pub proof fn lemma_no_line_empty_scalar(
    header: Seq<char>,
    body: Seq<Seq<char>>,
    creds: Seq<Seq<char>>,
    plain: Seq<char>,
)
    requires
        header_pre_text(header) is Some,
        forall|k: int|
            0 <= k < body.len() ==> !is_blank(#[trigger] body[k]) && leading_ws(body[k])
                > leading_ws(header),
        decrypted_text(body_text(seq![header] + body, 1, body.len() + 1 as int), creds) == Ok::<
            Seq<char>,
            DecryptError,
        >(plain),
        lines_of(plain).len() == 0,
    ensures
        converted(seq![header] + body, creds) == Ok::<Seq<Seq<char>>, DecryptError>(
            seq![header_pre_text(header)->Some_0 + seq![' ', '\'', '\'']],
        ),
{
    lemma_single_block(header, body, creds, plain);
}

/// A block whose plaintext has exactly one line becomes `pre_text line`.
pub proof fn lemma_one_line_inline(
    header: Seq<char>,
    body: Seq<Seq<char>>,
    creds: Seq<Seq<char>>,
    plain: Seq<char>,
)
    requires
        header_pre_text(header) is Some,
        forall|k: int|
            0 <= k < body.len() ==> !is_blank(#[trigger] body[k]) && leading_ws(body[k])
                > leading_ws(header),
        decrypted_text(body_text(seq![header] + body, 1, body.len() + 1 as int), creds) == Ok::<
            Seq<char>,
            DecryptError,
        >(plain),
        lines_of(plain).len() == 1,
    ensures
        converted(seq![header] + body, creds) == Ok::<Seq<Seq<char>>, DecryptError>(
            seq![header_pre_text(header)->Some_0 + seq![' '] + lines_of(plain)[0]],
        ),
{
    lemma_single_block(header, body, creds, plain);
}

/// A block whose plaintext has two lines or more becomes `pre_text |` followed
/// by each line, in order, indented by two more spaces than the header.
pub proof fn lemma_many_lines_block(
    header: Seq<char>,
    body: Seq<Seq<char>>,
    creds: Seq<Seq<char>>,
    plain: Seq<char>,
)
    requires
        header_pre_text(header) is Some,
        forall|k: int|
            0 <= k < body.len() ==> !is_blank(#[trigger] body[k]) && leading_ws(body[k])
                > leading_ws(header),
        decrypted_text(body_text(seq![header] + body, 1, body.len() + 1 as int), creds) == Ok::<
            Seq<char>,
            DecryptError,
        >(plain),
        lines_of(plain).len() >= 2,
    ensures
        ({
            let out = converted(seq![header] + body, creds)->Ok_0;
            let pl = lines_of(plain);
            &&& converted(seq![header] + body, creds) is Ok
            &&& out.len() == pl.len() + 1
            &&& out[0] == header_pre_text(header)->Some_0 + seq![' ', '|']
            &&& forall|k: int|
                0 <= k < pl.len() ==> #[trigger] out[k + 1] == spaces(leading_ws(header) as nat + 2) + pl[
                    k]
        }),
{
    lemma_single_block(header, body, creds, plain);
    let pl = lines_of(plain);
    let out = converted(seq![header] + body, creds)->Ok_0;
    let base = leading_ws(header) as nat;
    let tail = pl.map_values(|l: Seq<char>| spaces(base + 2) + l);
    assert(out == seq![header_pre_text(header)->Some_0 + seq![' ', '|']] + tail);
    assert forall|k: int| 0 <= k < pl.len() implies #[trigger] out[k + 1] == spaces(
        base + 2,
    ) + pl[k] by {
        assert(out[k + 1] == tail[k]);
    }
}

} // verus!
