//! Properties of every scan, proved over the model.
use vstd::prelude::*;
use crate::model::{
    eof_view, lemma_lex_step_progress, lex_step, newlines, operator_types, scan_from, Lexed,
};
use crate::token::TokenView;
use crate::ttypes::TokenType;

verus! {

/// Counting newlines over two adjacent stretches of text.
pub proof fn lemma_newlines_split(src: Seq<char>, a: int, b: int, c: int)
    requires
        0 <= a <= b <= c <= src.len(),
    ensures
        newlines(src.subrange(a, c)) == newlines(src.subrange(a, b)) + newlines(src.subrange(b, c)),
    decreases c - b,
{
    if c == b {
        assert(src.subrange(b, c).len() == 0);
        assert(src.subrange(a, c) =~= src.subrange(a, b));
    } else {
        lemma_newlines_split(src, a, b, c - 1);
        assert(src.subrange(a, c).drop_last() =~= src.subrange(a, c - 1));
        assert(src.subrange(b, c).drop_last() =~= src.subrange(b, c - 1));
    }
}

/// A scan that finds no open string literal ends with exactly one
/// end-of-input token, with empty lexeme and literal, on the line where the
/// source ends; no token before it is an end-of-input token.
pub proof fn lemma_scan_ends_with_eof(src: Seq<char>, i: int, line: nat)
    requires
        0 <= i <= src.len(),
        scan_from(src, i, line).unclosed is None,
    ensures
        ({
            let toks = scan_from(src, i, line).tokens;
            &&& toks.len() >= 1
            &&& toks.last() == eof_view(line + newlines(src.subrange(i, src.len() as int)))
            &&& forall|k: int| 0 <= k < toks.len() - 1 ==> toks[k].ttype != TokenType::EOF
        }),
    decreases src.len() - i,
{
    if i < src.len() {
        lemma_lex_step_progress(src, i);
        match lex_step(src, i) {
            Lexed::Emit { ttype, end, literal } => {
                let l2 = line + newlines(src.subrange(i, end));
                lemma_scan_ends_with_eof(src, end, l2);
                lemma_newlines_split(src, i, end, src.len() as int);
                let rest = scan_from(src, end, l2).tokens;
                let toks = scan_from(src, i, line).tokens;
                assert(toks == seq![TokenView { ttype, lexeme: src.subrange(i, end), literal, line }] + rest);
                assert(ttype != TokenType::EOF);
                assert(toks.len() == rest.len() + 1);
                assert(toks.last() == rest.last());
                assert forall|k: int| 0 <= k < toks.len() - 1 implies toks[k].ttype != TokenType::EOF by {
                    if k > 0 {
                        assert(toks[k] == rest[k - 1]);
                    }
                }
            },
            Lexed::Skip { end } => {
                let l2 = line + newlines(src.subrange(i, end));
                lemma_scan_ends_with_eof(src, end, l2);
                lemma_newlines_split(src, i, end, src.len() as int);
            },
            Lexed::Unexpected => {
                lemma_scan_ends_with_eof(src, i + 1, line);
                lemma_newlines_split(src, i, i + 1, src.len() as int);
                assert(src.subrange(i, i + 1).drop_last() =~= src.subrange(i, i));
                let rest = scan_from(src, i + 1, line).tokens;
                assert(scan_from(src, i, line).tokens == rest);
                assert(src[i] != '\n');
                assert(newlines(src.subrange(i, i)) == 0);
                assert(newlines(src.subrange(i, i + 1)) == 0);
            },
            Lexed::Unclosed => {},
        }
    } else {
        assert(src.subrange(i, src.len() as int).len() == 0);
        assert(newlines(src.subrange(i, src.len() as int)) == 0);
    }
}

/// A one-character operator followed by `=` is always taken together with
/// it as one two-character token: the two are never split.
pub proof fn lemma_maximal_munch(src: Seq<char>, i: int, line: nat)
    requires
        0 <= i,
        i + 1 < src.len(),
        operator_types(src[i]) is Some,
        src[i + 1] == '=',
    ensures
        scan_from(src, i, line).tokens.len() >= 1,
        scan_from(src, i, line).tokens[0] == (TokenView {
            ttype: (operator_types(src[i])->0).1,
            lexeme: src.subrange(i, i + 2),
            literal: Seq::empty(),
            line,
        }),
{
    let rest = scan_from(src, i + 2, line + newlines(src.subrange(i, i + 2)));
    assert(scan_from(src, i, line).tokens == seq![
        TokenView {
            ttype: (operator_types(src[i])->0).1,
            lexeme: src.subrange(i, i + 2),
            literal: Seq::empty(),
            line,
        },
    ] + rest.tokens);
}

} // verus!
