//! What holds of every scan, whatever the source.
use vstd::prelude::*;

use crate::grammar::{
    count_newlines, diagnostics, diagnostics_from, eof_span, lemma_step_advances, lexeme_end,
    newlines_before, scanned, spans_from, step_diagnostics, step_spans, token_matches, token_spans,
};
use crate::token::{Literal, Token, TokenType};

verus! {

/// The shape of what scanning from index `i` emits: the end-of-input token
/// comes last and only there, every other token covers a nonempty stretch at
/// or after `i`, the tokens follow one another without overlap, and the tokens
/// and diagnostics together are no more than the characters scanned.
pub proof fn lemma_spans_from_shape(src: Seq<char>, i: int)
    requires
        0 <= i <= src.len(),
    ensures
        spans_from(src, i).len() >= 1,
        spans_from(src, i).last() == eof_span(src),
        forall|k: int|
            0 <= k < spans_from(src, i).len() - 1 ==> {
                let s = #[trigger] spans_from(src, i)[k];
                &&& i <= s.start < s.end <= src.len()
                &&& s.kind != TokenType::EOF
            },
        forall|k: int|
            0 <= k < spans_from(src, i).len() - 1 ==> #[trigger] spans_from(src, i)[k].end
                <= spans_from(src, i)[k + 1].start,
        spans_from(src, i).len() - 1 + diagnostics_from(src, i).len() <= src.len() - i,
    decreases src.len() - i,
{
    if i < src.len() {
        lemma_step_advances(src, i);
        let next = lexeme_end(src, i);
        lemma_spans_from_shape(src, next);
        let rest = spans_from(src, next);
        let step = step_spans(src, i);
        assert(spans_from(src, i) == step + rest);
        assert(step.len() + step_diagnostics(src, i).len() <= 1);
        if step.len() == 1 {
            assert(step[0].kind != TokenType::EOF);
            assert(rest[0].start >= next) by {
                if rest.len() == 1 {
                    assert(rest[0] == eof_span(src));
                }
            }
            assert forall|k: int|
                0 <= k < spans_from(src, i).len() - 1 implies #[trigger] spans_from(src, i)[k].end
                <= spans_from(src, i)[k + 1].start by {
                if k > 0 {
                    assert(spans_from(src, i)[k] == rest[k - 1]);
                    assert(spans_from(src, i)[k + 1] == rest[k]);
                }
            }
        } else {
            assert(spans_from(src, i) =~= rest);
        }
    }
}

/// Scanning always ends with exactly one end-of-input token, whose lexeme is
/// empty and which carries no literal.
pub proof fn lemma_ends_with_eof(src: Seq<char>, tokens: Seq<Token>)
    requires
        scanned(src, tokens),
    ensures
        tokens.len() >= 1,
        tokens.last().token_type == TokenType::EOF,
        tokens.last().lexeme@.len() == 0,
        tokens.last().literal == Literal::Empty,
        forall|k: int| 0 <= k < tokens.len() - 1 ==> #[trigger] tokens[k].token_type != TokenType::EOF,
{
    lemma_spans_from_shape(src, 0);
    let k = tokens.len() - 1;
    assert(token_matches(src, tokens[k], token_spans(src)[k]));
    assert forall|j: int| 0 <= j < tokens.len() - 1 implies #[trigger] tokens[j].token_type
        != TokenType::EOF by {
        assert(token_matches(src, tokens[j], token_spans(src)[j]));
    }
}

/// Every step moves the cursor forward, so the tokens other than the
/// end-of-input token and the diagnostics together never outnumber the
/// characters of the source.
pub proof fn lemma_output_bounded(src: Seq<char>)
    ensures
        token_spans(src).len() - 1 + diagnostics(src).len() <= src.len(),
        forall|i: int| 0 <= i < src.len() ==> i < #[trigger] lexeme_end(src, i) <= src.len(),
{
    lemma_spans_from_shape(src, 0);
    assert forall|i: int| 0 <= i < src.len() implies i < #[trigger] lexeme_end(src, i) <= src.len() by {
        lemma_step_advances(src, i);
    }
}

/// Each token but the last is the exact source text between its start and its
/// end offset, and the tokens stand in the source in order, without overlap.
pub proof fn lemma_lexemes_are_source_text(src: Seq<char>, tokens: Seq<Token>)
    requires
        scanned(src, tokens),
    ensures
        forall|k: int|
            0 <= k < tokens.len() - 1 ==> {
                let s = #[trigger] token_spans(src)[k];
                &&& 0 <= s.start < s.end <= src.len()
                &&& tokens[k].lexeme@ == src.subrange(s.start, s.end)
            },
        forall|k: int|
            0 <= k < tokens.len() - 1 ==> #[trigger] token_spans(src)[k].end <= token_spans(
                src,
            )[k + 1].start,
{
    lemma_spans_from_shape(src, 0);
    assert forall|k: int| 0 <= k < tokens.len() - 1 implies {
        let s = #[trigger] token_spans(src)[k];
        &&& 0 <= s.start < s.end <= src.len()
        &&& tokens[k].lexeme@ == src.subrange(s.start, s.end)
    } by {
        assert(token_matches(src, tokens[k], token_spans(src)[k]));
    }
}

/// The line breaks in `src[a..b]` are those before `b` less those before `a`.
pub proof fn lemma_count_newlines_range(src: Seq<char>, a: int, b: int)
    requires
        0 <= a <= b <= src.len(),
    ensures
        count_newlines(src.subrange(a, b)) == newlines_before(src, b) - newlines_before(src, a),
    decreases b - a,
{
    if a < b {
        lemma_count_newlines_range(src, a, b - 1);
        assert(src.subrange(a, b).drop_last() =~= src.subrange(a, b - 1));
    } else {
        assert(src.subrange(a, b).len() == 0);
    }
}

/// Each token's line is the line of the token before it plus the line breaks
/// inside that token's lexeme (as in a string literal that spans lines) and
/// in the text skipped between the two.
pub proof fn lemma_lines_follow_breaks(src: Seq<char>, tokens: Seq<Token>)
    requires
        scanned(src, tokens),
    ensures
        forall|k: int|
            0 <= k < tokens.len() - 1 ==> #[trigger] tokens[k + 1].line == tokens[k].line
                + count_newlines(tokens[k].lexeme@) + count_newlines(
                src.subrange(token_spans(src)[k].end, token_spans(src)[k + 1].start),
            ),
{
    lemma_spans_from_shape(src, 0);
    assert forall|k: int| 0 <= k < tokens.len() - 1 implies #[trigger] tokens[k + 1].line
        == tokens[k].line + count_newlines(tokens[k].lexeme@) + count_newlines(
        src.subrange(token_spans(src)[k].end, token_spans(src)[k + 1].start),
    ) by {
        let s = token_spans(src)[k];
        let t = token_spans(src)[k + 1];
        assert(token_matches(src, tokens[k], s));
        assert(token_matches(src, tokens[k + 1], t));
        assert(t.start <= src.len()) by {
            if k + 1 == tokens.len() - 1 {
                assert(t == eof_span(src));
            }
        }
        lemma_count_newlines_range(src, s.start, s.end);
        lemma_count_newlines_range(src, s.end, t.start);
    }
}

} // verus!
