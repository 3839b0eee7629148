//! Writes a decrypted value back into the document, styled by its number of
//! lines.

use vstd::prelude::*;
use crate::text::{lines_of, split_lines};

verus! {

/// `n` spaces.
pub open spec fn spaces(n: nat) -> Seq<char> {
    Seq::new(n, |_i: int| ' ')
}

/// The lines that replace a vault block whose header held `pre` before the tag
/// and was indented by `base`, once its plaintext reads as `plain`:
/// an empty quoted scalar for no line, the value inline for one line, and a
/// literal block indented by `base + 2` spaces for more.
pub open spec fn rendered(pre: Seq<char>, base: nat, plain: Seq<Seq<char>>) -> Seq<Seq<char>> {
    if plain.len() == 0 {
        seq![pre + seq![' ', '\'', '\'']]
    } else if plain.len() == 1 {
        seq![pre + seq![' '] + plain[0]]
    } else {
        seq![pre + seq![' ', '|']] + plain.map_values(|l: Seq<char>| spaces(base + 2) + l)
    }
}

/// `n` spaces.
fn indentation(n: usize) -> (r: String)
    ensures
        r@ == spaces(n as nat),
{
    let mut s = String::new();
    let mut k: usize = 0;
    while k < n
        invariant
            k <= n,
            s@ == spaces(k as nat),
        decreases n - k,
    {
        proof {
            reveal_strlit(" ");
        }
        s.append(" ");
        assert(s@ =~= spaces((k + 1) as nat));
        k = k + 1;
    }
    s
}

/// The replacement lines for a vault block: `pre_text` is what stood before the
/// tag, `base_indent` the header's indentation, `plaintext` the decrypted value.
pub fn render_block(pre_text: &str, base_indent: usize, plaintext: &str) -> (r: Vec<String>)
    ensures
        r.deep_view() == rendered(pre_text@, base_indent as nat, lines_of(plaintext@)),
{
    let plain = split_lines(plaintext);
    let ghost pl = plain.deep_view();
    let mut out: Vec<String> = Vec::new();
    let mut head = String::from_str(pre_text);
    if plain.len() == 0 {
        proof {
            reveal_strlit(" ''");
        }
        head.append(" ''");
        assert(" ''"@ =~= seq![' ', '\'', '\'']);
        assert(head@ =~= pre_text@ + seq![' ', '\'', '\'']);
        out.push(head);
        assert(out.deep_view() =~= seq![head@]);
        assert(out.deep_view() =~= rendered(pre_text@, base_indent as nat, pl));
    } else if plain.len() == 1 {
        proof {
            reveal_strlit(" ");
        }
        head.append(" ");
        assert(" "@ =~= seq![' ']);
        head.append(plain[0].as_str());
        assert(head@ =~= pre_text@ + seq![' '] + plain[0]@);
        out.push(head);
        assert(out.deep_view() =~= seq![head@]);
        assert(pl[0] == plain[0]@);
        assert(out.deep_view() =~= rendered(pre_text@, base_indent as nat, pl));
    } else {
        proof {
            reveal_strlit(" |");
            reveal_strlit("  ");
        }
        head.append(" |");
        assert(" |"@ =~= seq![' ', '|']);
        assert(head@ =~= pre_text@ + seq![' ', '|']);
        out.push(head);
        assert(out.deep_view() =~= seq![head@]);
        let mut indent = indentation(base_indent);
        indent.append("  ");
        assert("  "@ =~= seq![' ', ' ']);
        assert(indent@ =~= spaces(base_indent as nat + 2));
        let ghost tail = pl.map_values(|l: Seq<char>| spaces(base_indent as nat + 2) + l);
        let mut k: usize = 0;
        assert(tail.subrange(0, 0) =~= Seq::<Seq<char>>::empty());
        assert(out.deep_view() =~= seq![pre_text@ + seq![' ', '|']] + tail.subrange(0, 0));
        while k < plain.len()
            invariant
                k <= plain.len(),
                pl == plain.deep_view(),
                indent@ == spaces(base_indent as nat + 2),
                tail == pl.map_values(|l: Seq<char>| spaces(base_indent as nat + 2) + l),
                out.deep_view() == seq![pre_text@ + seq![' ', '|']] + tail.subrange(0, k as int),
            decreases plain.len() - k,
        {
            let line = indent.clone().concat(plain[k].as_str());
            let ghost before = out.deep_view();
            out.push(line);
            assert(pl[k as int] == plain[k as int]@);
            assert(out.deep_view() =~= before + seq![line@]);
            assert(tail.subrange(0, k + 1) =~= tail.subrange(0, k as int) + seq![tail[k as int]]);
            assert(out.deep_view() =~= seq![pre_text@ + seq![' ', '|']] + tail.subrange(
                0,
                k + 1,
            ));
            k = k + 1;
        }
        assert(tail.subrange(0, plain.len() as int) =~= tail);
    }
    out
}

} // verus!
