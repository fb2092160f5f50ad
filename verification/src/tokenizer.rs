//! The driver loop: it peeks one character, dispatches to the matching
//! recognizer (or falls through to plain text), and accumulates the
//! resulting tokens until the input is exhausted.

use vstd::prelude::*;
use crate::cursor::Cursor;
use crate::strings::text_to_chars;
use crate::token::{
    Token, SpecToken, spec_text, spec_sharp, spec_back_quote, spec_greater,
    lemma_spec_text_bounds, lemma_spec_sharp_bounds, lemma_spec_back_quote_bounds,
    lemma_spec_greater_bounds,
};

verus! {

/// The tokens emitted from position `i` to the end of the input.
///
/// `line_start` is true at the start of the input and right after each
/// `Break`; a `#` dispatches the heading recognizer only there.  A newline
/// always emits `Break`; a backtick or `>` dispatches its recognizer at any
/// position; every other character starts plain paragraph text.
pub open spec fn spec_tokenize_from(s: Seq<char>, i: int, line_start: bool) -> Seq<SpecToken>
    decreases s.len() - i
        when 0 <= i <= s.len()
        via spec_tokenize_from_decreases
{
    if i >= s.len() {
        Seq::empty()
    } else if s[i] == '\n' {
        seq![SpecToken::Break] + spec_tokenize_from(s, i + 1, true)
    } else if s[i] == '#' && line_start {
        seq![spec_sharp(s, i).0] + spec_tokenize_from(s, spec_sharp(s, i).1, false)
    } else if s[i] == '`' {
        seq![spec_back_quote(s, i).0] + spec_tokenize_from(s, spec_back_quote(s, i).1, false)
    } else if s[i] == '>' {
        seq![spec_greater(s, i).0] + spec_tokenize_from(s, spec_greater(s, i).1, false)
    } else {
        seq![spec_text(s, i).0] + spec_tokenize_from(s, spec_text(s, i).1, false)
    }
}

#[via_fn]
proof fn spec_tokenize_from_decreases(s: Seq<char>, i: int, line_start: bool) {
    if 0 <= i < s.len() {
        lemma_spec_sharp_bounds(s, i);
        lemma_spec_back_quote_bounds(s, i);
        lemma_spec_greater_bounds(s, i);
        lemma_spec_text_bounds(s, i);
    }
}

/// The token sequence of a whole input: tokenization starts at the
/// beginning of the text, at a line start.
pub open spec fn spec_tokenize(s: Seq<char>) -> Seq<SpecToken> {
    spec_tokenize_from(s, 0, true)
}

/// Appending one token and then the rest is the same as appending the
/// token's singleton sequence followed by the rest.
proof fn lemma_push_then_rest(pre: Seq<SpecToken>, t: SpecToken, rest: Seq<SpecToken>)
    ensures
        pre.push(t) + rest == pre + (seq![t] + rest),
{
    assert(pre.push(t) + rest =~= pre + (seq![t] + rest));
}

/// Converts Markdown source text into its ordered sequence of tokens.
///
/// Empty input gives an empty sequence; tokenization never fails, because
/// every recognizer either produces its token or falls back to plain
/// paragraph text.
pub fn tokenize(source: &str) -> (tokens: Vec<Token>)
    ensures
        tokens.deep_view() == spec_tokenize(source@),
{
    let ghost s = source@;
    let chars = text_to_chars(source);
    let mut cursor = Cursor::new(&chars);
    let mut tokens: Vec<Token> = Vec::new();
    let mut is_line_start = true;
    loop
        invariant
            cursor.wf(),
            cursor.src() == s,
            tokens.deep_view() + spec_tokenize_from(s, cursor.at(), is_line_start)
                == spec_tokenize_from(s, 0, true),
        ensures
            tokens.deep_view() == spec_tokenize_from(s, 0, true),
        decreases s.len() - cursor.at(),
    {
        let ghost i = cursor.at();
        let ghost was_line_start = is_line_start;
        let ghost pre = tokens.deep_view();
        match cursor.peek() {
            None => {
                proof {
                    assert(spec_tokenize_from(s, i, is_line_start) =~= Seq::<SpecToken>::empty());
                    assert(tokens.deep_view() + spec_tokenize_from(s, i, is_line_start)
                        =~= tokens.deep_view());
                }
                break ;
            },
            Some(c) => {
                if c == '\n' {
                    cursor.advance();
                    tokens.push(Token::Break);
                    is_line_start = true;
                    proof {
                        assert(tokens.deep_view() =~= pre.push(SpecToken::Break));
                        lemma_push_then_rest(
                            pre,
                            SpecToken::Break,
                            spec_tokenize_from(s, cursor.at(), true),
                        );
                    }
                } else if c == '#' && is_line_start {
                    proof {
                        lemma_spec_sharp_bounds(s, i);
                    }
                    let t = Token::handle_sharp(&mut cursor);
                    tokens.push(t);
                    is_line_start = false;
                    proof {
                        assert(tokens.deep_view() =~= pre.push(t@));
                        lemma_push_then_rest(pre, t@, spec_tokenize_from(s, cursor.at(), false));
                    }
                } else if c == '`' {
                    proof {
                        lemma_spec_back_quote_bounds(s, i);
                    }
                    let t = Token::handle_back_quote(&mut cursor);
                    tokens.push(t);
                    is_line_start = false;
                    proof {
                        assert(tokens.deep_view() =~= pre.push(t@));
                        lemma_push_then_rest(pre, t@, spec_tokenize_from(s, cursor.at(), false));
                    }
                } else if c == '>' {
                    proof {
                        lemma_spec_greater_bounds(s, i);
                    }
                    let t = Token::handle_greater(&mut cursor);
                    tokens.push(t);
                    is_line_start = false;
                    proof {
                        assert(tokens.deep_view() =~= pre.push(t@));
                        lemma_push_then_rest(pre, t@, spec_tokenize_from(s, cursor.at(), false));
                    }
                } else {
                    proof {
                        lemma_spec_text_bounds(s, i);
                    }
                    let t = Token::handle_text(&mut cursor);
                    tokens.push(t);
                    is_line_start = false;
                    proof {
                        assert(tokens.deep_view() =~= pre.push(t@));
                        lemma_push_then_rest(pre, t@, spec_tokenize_from(s, cursor.at(), false));
                    }
                }
            },
        }
    }
    tokens
}

} // verus!
