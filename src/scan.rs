//! Finds vault blocks in a document: header lines and the deeper-indented
//! lines of ciphertext that follow them.

use vstd::prelude::*;
use crate::text::{
    is_blank, is_ws, leading_ws, leading_whitespace, lemma_skip_ws_bounds, lemma_trim_end_bounds,
    trim_end_at, trim_end_from,
};

verus! {

/// The tag that marks an encrypted scalar.
pub open spec fn sentinel() -> Seq<char> {
    seq!['!', 'v', 'a', 'u', 'l', 't']
}

/// The text before the tag of a header line, or `None` when `s` is no header.
///
/// A header line ends, trailing whitespace aside, with the tag, optional
/// whitespace and the literal block indicator `|`. What stands before the tag
/// (indentation, a list marker, a key) is kept, without trailing whitespace.
pub open spec fn header_pre_text(s: Seq<char>) -> Option<Seq<char>> {
    let a = trim_end_from(s, s.len() as int);
    if a > 0 && s[a - 1] == '|' {
        let b = trim_end_from(s, a - 1);
        if b >= 6 && s.subrange(b - 6, b) == sentinel() {
            Some(s.subrange(0, trim_end_from(s, b - 6)))
        } else {
            None
        }
    } else {
        None
    }
}

/// Index just past the body of a block whose body starts at line `i`.
///
/// A non-blank line belongs to the body when it is indented deeper than
/// `base`; a blank line belongs to it only when the body goes on after it.
/// Indentation is counted in characters, so a tab counts as one column.
pub open spec fn body_end(lines: Seq<Seq<char>>, i: int, base: int) -> int
    decreases lines.len() - i,
{
    if i < 0 || i >= lines.len() {
        i
    } else if is_blank(lines[i]) {
        let k = body_end(lines, i + 1, base);
        if k > i + 1 {
            k
        } else {
            i
        }
    } else if leading_ws(lines[i]) > base {
        body_end(lines, i + 1, base)
    } else {
        i
    }
}

/// A body line with its indentation removed, and a line ending.
pub open spec fn body_line(l: Seq<char>) -> Seq<char> {
    l.subrange(leading_ws(l), l.len() as int) + seq!['\n']
}

/// The ciphertext held by the lines `start .. end`.
pub open spec fn body_text(lines: Seq<Seq<char>>, start: int, end: int) -> Seq<char>
    decreases end - start,
{
    if end <= start {
        seq![]
    } else {
        body_text(lines, start, end - 1) + body_line(lines[end - 1])
    }
}

pub proof fn lemma_body_end_bounds(lines: Seq<Seq<char>>, i: int, base: int)
    requires
        0 <= i <= lines.len(),
    ensures
        i <= body_end(lines, i, base) <= lines.len(),
    decreases lines.len() - i,
{
    if i < lines.len() {
        lemma_body_end_bounds(lines, i + 1, base);
    }
}

/// The header line of a vault block.
pub struct Header {
    /// What stands before the tag, without trailing whitespace.
    pub pre_text: String,
    /// Number of leading whitespace characters of the header line.
    pub base_indent: usize,
}

/// Reads a header line; `None` when the line is no header.
pub fn parse_header(line: &str) -> (r: Option<Header>)
    ensures
        r is Some <==> header_pre_text(line@) is Some,
        r matches Some(h) ==> h.pre_text@ == header_pre_text(line@)->Some_0 && h.base_indent
            == leading_ws(line@),
{
    let ghost s = line@;
    let n = line.unicode_len();
    let a = trim_end_at(line, n);
    proof {
        lemma_trim_end_bounds(s, n as int);
    }
    if a == 0 || line.get_char(a - 1) != '|' {
        return None;
    }
    let b = trim_end_at(line, a - 1);
    proof {
        lemma_trim_end_bounds(s, a - 1);
    }
    if b < 6 {
        return None;
    }
    let tag = line.get_char(b - 6) == '!' && line.get_char(b - 5) == 'v' && line.get_char(b - 4)
        == 'a' && line.get_char(b - 3) == 'u' && line.get_char(b - 2) == 'l' && line.get_char(
        b - 1,
    ) == 't';
    if tag {
        assert(s.subrange(b - 6, b as int) =~= sentinel());
    } else {
        assert(s.subrange(b - 6, b as int) != sentinel() ) by {
            if s.subrange(b - 6, b as int) == sentinel() {
                assert(s.subrange(b - 6, b as int)[0] == '!');
                assert(s.subrange(b - 6, b as int)[1] == 'v');
                assert(s.subrange(b - 6, b as int)[2] == 'a');
                assert(s.subrange(b - 6, b as int)[3] == 'u');
                assert(s.subrange(b - 6, b as int)[4] == 'l');
                assert(s.subrange(b - 6, b as int)[5] == 't');
            }
        }
        return None;
    }
    let c = trim_end_at(line, b - 6);
    proof {
        lemma_trim_end_bounds(s, b - 6);
    }
    let pre_text = String::from_str(line.substring_char(0, c));
    let base_indent = leading_whitespace(line);
    Some(Header { pre_text, base_indent })
}

/// True when `s` holds whitespace only.
pub fn line_is_blank(s: &str) -> (r: bool)
    ensures
        r == is_blank(s@),
{
    let w = leading_whitespace(s);
    proof {
        lemma_skip_ws_bounds(s@, 0);
        if w < s@.len() {
            assert(!is_ws(s@[w as int]));
        }
    }
    w == s.unicode_len()
}

/// Index just past the body of a block whose header sits at `start - 1` and
/// is indented by `base`.
pub fn block_end(lines: &Vec<String>, start: usize, base: usize) -> (r: usize)
    requires
        start <= lines.len(),
    ensures
        r == body_end(lines.deep_view(), start as int, base as int),
{
    let ghost ls = lines.deep_view();
    let n = lines.len();
    let mut j = start;
    let mut end = start;
    proof {
        lemma_body_end_bounds(ls, start as int, base as int);
    }
    loop
        invariant
            n == lines.len() == ls.len(),
            ls == lines.deep_view(),
            start <= end <= j <= n,
            body_end(ls, start as int, base as int) == (if body_end(ls, j as int, base as int)
                > j {
                body_end(ls, j as int, base as int)
            } else {
                end as int
            }),
        ensures
            body_end(ls, start as int, base as int) == end,
        decreases n - j,
    {
        if j >= n {
            assert(body_end(ls, j as int, base as int) == j);
            break;
        }
        proof {
            lemma_body_end_bounds(ls, j + 1, base as int);
        }
        assert(ls[j as int] == lines[j as int]@);
        if line_is_blank(lines[j].as_str()) {
        } else if leading_whitespace(lines[j].as_str()) > base {
            end = j + 1;
        } else {
            assert(body_end(ls, j as int, base as int) == j);
            break;
        }
        j = j + 1;
    }
    end
}

/// The ciphertext held by the lines `start .. end`: each with its leading
/// whitespace removed and followed by a line ending.
pub fn body_ciphertext(lines: &Vec<String>, start: usize, end: usize) -> (r: String)
    requires
        start <= end <= lines.len(),
    ensures
        r@ == body_text(lines.deep_view(), start as int, end as int),
{
    let ghost ls = lines.deep_view();
    let mut text = String::new();
    let mut k = start;
    while k < end
        invariant
            start <= k <= end <= lines.len(),
            ls == lines.deep_view(),
            text@ == body_text(ls, start as int, k as int),
        decreases end - k,
    {
        let line = lines[k].as_str();
        assert(ls[k as int] == line@);
        let w = leading_whitespace(line);
        proof {
            lemma_skip_ws_bounds(line@, 0);
        }
        let ghost before = text@;
        text.append(line.substring_char(w, line.unicode_len()));
        proof {
            reveal_strlit("\n");
        }
        text.append("\n");
        assert("\n"@ =~= seq!['\n']);
        assert(text@ =~= before + body_line(ls[k as int]));
        assert(text@ =~= body_text(ls, start as int, k + 1));
        k = k + 1;
    }
    text
}

/// One vault block found by the scanner.
pub struct VaultBlock {
    /// What stands before the tag on the header line.
    pub pre_text: String,
    /// Indentation of the header line, in characters.
    pub base_indent: usize,
    /// The de-indented body, one line ending after each line.
    pub ciphertext: String,
    /// Index of the first line after the block.
    pub end: usize,
}

/// Reads the vault block whose header is line `i`; `None` when line `i` is no
/// header.
pub fn scan_block(lines: &Vec<String>, i: usize) -> (r: Option<VaultBlock>)
    requires
        i < lines.len(),
    ensures
        r is Some <==> header_pre_text(lines.deep_view()[i as int]) is Some,
        r matches Some(b) ==> {
            let ls = lines.deep_view();
            &&& b.pre_text@ == header_pre_text(ls[i as int])->Some_0
            &&& b.base_indent == leading_ws(ls[i as int])
            &&& b.end == body_end(ls, i + 1, b.base_indent as int)
            &&& b.ciphertext@ == body_text(ls, i + 1, b.end as int)
        },
{
    let ghost ls = lines.deep_view();
    assert(ls[i as int] == lines[i as int]@);
    match parse_header(lines[i].as_str()) {
        None => None,
        Some(h) => {
            let end = block_end(lines, i + 1, h.base_indent);
            proof {
                lemma_body_end_bounds(ls, i + 1, h.base_indent as int);
            }
            let ciphertext = body_ciphertext(lines, i + 1, end);
            Some(VaultBlock { pre_text: h.pre_text, base_indent: h.base_indent, ciphertext, end })
        },
    }
}

} // verus!
