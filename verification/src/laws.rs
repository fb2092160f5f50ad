//! The tokenizer's general properties, stated and proved over the
//! specification model: losslessness of rewind, and round trips that
//! re-render a construct and tokenize it back.

use vstd::prelude::*;
use crate::scan::{
    line_end, lemma_line_end_at, sharp_run, lemma_sharp_run, lemma_sharp_run_at,
    lemma_inline_end_at, fence_close_at, lemma_fence_end_at, blank_close_at, lemma_blank_end_at,
    label_close, href_close, lemma_label_close_flat, lemma_href_close_flat,
};
use crate::token::{
    SpecToken, spec_text, spec_sharp, spec_back_quote, spec_inline_code, spec_code, spec_greater,
    spec_left_brace, lemma_spec_text_bounds, lemma_spec_sharp_bounds,
    lemma_spec_back_quote_bounds, lemma_spec_greater_bounds,
};
use crate::tokenizer::{spec_tokenize, spec_tokenize_from};

verus! {

/// Empty input tokenizes to the empty token sequence.
pub proof fn lemma_empty_input()
    ensures
        spec_tokenize(Seq::<char>::empty()) == Seq::<SpecToken>::empty(),
{
}

/// True when a run of `#` is not a valid heading: the run ends at a
/// character other than a space, or the run is longer than six.
pub open spec fn sharp_falls_back(s: Seq<char>, i: int) -> bool {
    let j = sharp_run(s, i);
    (j < s.len() && s[j] != ' ') || j - i > 6
}

/// Rewind is lossless at the heading recognizer: whenever it rejects its
/// input, it emits exactly the untouched text from the point where it
/// started up to the next line boundary, as a paragraph, and stops at that
/// boundary -- no character lost or duplicated.
pub proof fn lemma_sharp_rewind_is_plain_text(s: Seq<char>, i: int)
    requires
        0 <= i <= s.len(),
        sharp_falls_back(s, i),
    ensures
        spec_sharp(s, i) == spec_text(s, i),
        spec_sharp(s, i).0 == SpecToken::Paragraph(s.subrange(i, line_end(s, i))),
        spec_sharp(s, i).1 == line_end(s, i),
{
}

/// True when a `[` opens neither a link nor a link reference: the label
/// does not close on this line, or what follows it is neither `(` nor `[`,
/// or the href or reference identifier does not close.
pub open spec fn left_brace_falls_back(s: Seq<char>, i: int) -> bool {
    let b = if i < s.len() {
        i + 1
    } else {
        i
    };
    match label_close(s, b, 0) {
        None => true,
        Some(e) => {
            let j = e + 1;
            if j < s.len() && s[j] == '(' {
                href_close(s, j + 1, 0) is None
            } else if j < s.len() && s[j] == '[' {
                label_close(s, j + 1, 0) is None
            } else {
                true
            }
        },
    }
}

/// Rewind is lossless at the link recognizer: whenever it rejects its
/// input, it emits exactly the untouched text from the point where it
/// started up to the next line boundary, as a paragraph, and stops at that
/// boundary -- no character lost or duplicated.
pub proof fn lemma_left_brace_rewind_is_plain_text(s: Seq<char>, i: int)
    requires
        0 <= i <= s.len(),
        left_brace_falls_back(s, i),
    ensures
        spec_left_brace(s, i) == spec_text(s, i),
        spec_left_brace(s, i).0 == SpecToken::Paragraph(s.subrange(i, line_end(s, i))),
        spec_left_brace(s, i).1 == line_end(s, i),
{
}

/// A run of `n` `#` characters.
pub open spec fn sharps(n: int) -> Seq<char> {
    Seq::new(n as nat, |k: int| '#')
}

/// A heading line as an author writes it: the `#` run, one space, the text.
pub open spec fn heading_line(n: int, text: Seq<char>) -> Seq<char> {
    sharps(n) + seq![' '] + text
}

/// Headings round-trip at every level one to six: rendering the `#` run, a
/// space and newline-free text, then tokenizing, gives exactly the one
/// heading token with that level and text.
pub proof fn lemma_heading_round_trip(n: int, text: Seq<char>)
    requires
        1 <= n <= 6,
        forall|k: int| 0 <= k < text.len() ==> text[k] != '\n',
    ensures
        spec_tokenize(heading_line(n, text)) == seq![SpecToken::Heading(n as u8, text)],
{
    let s = heading_line(n, text);
    assert(s.len() == n + 1 + text.len());
    assert(forall|k: int| 0 <= k < n ==> s[k] == '#');
    assert(s[n as int] == ' ');
    assert(forall|k: int| n + 1 <= k < s.len() ==> s[k] == text[k - n - 1]);
    lemma_sharp_run_at(s, 0, n);
    lemma_line_end_at(s, n + 1, s.len() as int);
    assert(s.subrange(n + 1, s.len() as int) =~= text);
    assert(spec_sharp(s, 0) == (SpecToken::Heading(n as u8, text), s.len() as int));
    assert(spec_tokenize_from(s, s.len() as int, false) == Seq::<SpecToken>::empty());
    assert(spec_tokenize(s) =~= seq![SpecToken::Heading(n as u8, text)]);
}

/// A run of seven `#` is no heading: the same line, with a space and
/// newline-free text, tokenizes to one paragraph holding it unchanged --
/// not even partially consumed.
pub proof fn lemma_seven_sharps_round_trip(text: Seq<char>)
    requires
        forall|k: int| 0 <= k < text.len() ==> text[k] != '\n',
    ensures
        spec_tokenize(heading_line(7, text)) == seq![SpecToken::Paragraph(heading_line(7, text))],
{
    let s = heading_line(7, text);
    assert(s.len() == 8 + text.len());
    assert(forall|k: int| 0 <= k < 7 ==> s[k] == '#');
    assert(s[7] == ' ');
    assert(forall|k: int| 8 <= k < s.len() ==> s[k] == text[k - 8]);
    lemma_sharp_run_at(s, 0, 7);
    lemma_line_end_at(s, 0, s.len() as int);
    lemma_sharp_rewind_is_plain_text(s, 0);
    assert(s.subrange(0, s.len() as int) =~= s);
    assert(spec_tokenize_from(s, s.len() as int, false) == Seq::<SpecToken>::empty());
    assert(spec_tokenize(s) =~= seq![SpecToken::Paragraph(s)]);
}

/// A line of ordinary text -- no newline inside, and no heading, backtick
/// or blockquote lead character -- tokenizes to one paragraph holding it
/// unchanged.
pub proof fn lemma_plain_line_round_trip(text: Seq<char>)
    requires
        text.len() > 0,
        text[0] != '#' && text[0] != '`' && text[0] != '>',
        forall|k: int| 0 <= k < text.len() ==> text[k] != '\n',
    ensures
        spec_tokenize(text) == seq![SpecToken::Paragraph(text)],
{
    lemma_line_end_at(text, 0, text.len() as int);
    assert(text.subrange(0, text.len() as int) =~= text);
    assert(spec_tokenize_from(text, text.len() as int, false) == Seq::<SpecToken>::empty());
    assert(spec_tokenize(text) =~= seq![SpecToken::Paragraph(text)]);
}

/// An inline code span as an author writes it: the body between backticks.
pub open spec fn inline_code_span(body: Seq<char>) -> Seq<char> {
    seq!['`'] + body + seq!['`']
}

/// Inline code round-trips: a backtick-free, newline-free body between two
/// backticks tokenizes back to exactly the one inline code token.  The
/// empty body is the `` `` case.
pub proof fn lemma_inline_code_round_trip(body: Seq<char>)
    requires
        forall|k: int| 0 <= k < body.len() ==> body[k] != '`' && body[k] != '\n',
    ensures
        spec_tokenize(inline_code_span(body)) == seq![SpecToken::InlineCode(body)],
{
    let s = inline_code_span(body);
    assert(s.len() == body.len() + 2);
    assert(s[0] == '`');
    assert(forall|k: int| 1 <= k < s.len() - 1 ==> s[k] == body[k - 1]);
    assert(s[s.len() - 1] == '`');
    if body.len() == 0 {
        assert(spec_back_quote(s, 0) == (SpecToken::InlineCode(Seq::<char>::empty()), 2int));
        assert(body =~= Seq::<char>::empty());
    } else {
        lemma_inline_end_at(s, 1, s.len() - 1);
        assert(s.subrange(1, s.len() - 1) =~= body);
        assert(spec_back_quote(s, 0) == spec_inline_code(s, 1));
    }
    assert(spec_tokenize_from(s, s.len() as int, false) == Seq::<SpecToken>::empty());
    assert(spec_tokenize(s) =~= seq![SpecToken::InlineCode(body)]);
}

/// A blockquote as an author writes it: the marker, the body, and the
/// blank line that ends it.
pub open spec fn blockquote_block(text: Seq<char>) -> Seq<char> {
    seq!['>'] + text + seq!['\n', '\n']
}

/// Blockquotes round-trip: a body with no blank line inside and no
/// trailing newline, between the `>` marker and a closing blank line,
/// tokenizes back to exactly the one blockquote token; the blank line is
/// consumed as a terminator and is not part of the body.
pub proof fn lemma_blockquote_round_trip(text: Seq<char>)
    requires
        forall|e: int| 0 < e <= text.len() ==> !blank_close_at(text, 0, e),
        text.len() > 0 ==> text[text.len() - 1] != '\n',
    ensures
        spec_tokenize(blockquote_block(text)) == seq![SpecToken::Blockquote(text)],
{
    let s = blockquote_block(text);
    let b = 1int;
    let close = s.len() as int;
    assert(s.len() == text.len() + 3);
    assert(s[0] == '>');
    assert(forall|k: int| 1 <= k < s.len() - 2 ==> s[k] == text[k - 1]);
    assert(s[s.len() - 2] == '\n' && s[s.len() - 1] == '\n');
    assert(blank_close_at(s, b, close));
    assert forall|e2: int| b < e2 < close implies !blank_close_at(s, b, e2) by {
        if e2 - b >= 2 {
            if e2 <= b + text.len() {
                assert(s[e2 - 2] == text[e2 - 3] && s[e2 - 1] == text[e2 - 2]);
                assert(!blank_close_at(text, 0, e2 - b));
            } else {
                // the window ends on the first closing newline: the char
                // before it is the body's last, which is no newline
                assert(e2 == b + text.len() + 1);
                assert(s[e2 - 2] == text[text.len() - 1]);
            }
        }
    }
    lemma_blank_end_at(s, b, b, close);
    assert(s.subrange(b, close - 2) =~= text);
    assert(spec_greater(s, 0) == (SpecToken::Blockquote(text), close));
    assert(spec_tokenize_from(s, s.len() as int, false) == Seq::<SpecToken>::empty());
    assert(spec_tokenize(s) =~= seq![SpecToken::Blockquote(text)]);
}

/// An inline link as an author writes it: label in brackets, href in
/// parens.
pub open spec fn link_inline(label: Seq<char>, href: Seq<char>) -> Seq<char> {
    seq!['['] + label + seq![']', '('] + href + seq![')']
}

/// A link reference as an author writes it: label, then identifier, each
/// in brackets.
pub open spec fn link_reference(label: Seq<char>, identifier: Seq<char>) -> Seq<char> {
    seq!['['] + label + seq![']', '['] + identifier + seq![']']
}

/// Links round-trip at the recognizer: a bracket-free label and a
/// paren-free href, rendered as an inline link, are recognized as exactly
/// that link, with the whole construct consumed.
pub proof fn lemma_link_round_trip(label: Seq<char>, href: Seq<char>)
    requires
        forall|k: int| 0 <= k < label.len() ==> label[k] != '[' && label[k] != ']' && label[k]
            != '\n',
        forall|k: int| 0 <= k < href.len() ==> href[k] != '(' && href[k] != ')' && href[k]
            != '\n',
    ensures
        spec_left_brace(link_inline(label, href), 0) == (
            SpecToken::Link(label, href),
            link_inline(label, href).len() as int,
        ),
{
    let s = link_inline(label, href);
    let lc = 1 + label.len() as int;
    let hc = s.len() - 1;
    assert(s.len() == label.len() + href.len() + 4);
    assert(s[0] == '[');
    assert(forall|k: int| 1 <= k < lc ==> s[k] == label[k - 1]);
    assert(s[lc] == ']' && s[lc + 1] == '(');
    assert(forall|k: int| lc + 2 <= k < hc ==> s[k] == href[k - lc - 2]);
    assert(s[hc] == ')');
    lemma_label_close_flat(s, 1, lc);
    assert(s.subrange(1, lc) =~= label);
    lemma_href_close_flat(s, lc + 2, hc);
    assert(s.subrange(lc + 2, hc) =~= href);
}

/// Link references round-trip at the recognizer: a bracket-free label and
/// identifier, rendered as a reference, are recognized as exactly that
/// link reference, with the whole construct consumed.
pub proof fn lemma_link_reference_round_trip(label: Seq<char>, identifier: Seq<char>)
    requires
        forall|k: int| 0 <= k < label.len() ==> label[k] != '[' && label[k] != ']' && label[k]
            != '\n',
        forall|k: int| 0 <= k < identifier.len() ==> identifier[k] != '[' && identifier[k] != ']'
            && identifier[k] != '\n',
    ensures
        spec_left_brace(link_reference(label, identifier), 0) == (
            SpecToken::LinkReference(label, identifier),
            link_reference(label, identifier).len() as int,
        ),
{
    let s = link_reference(label, identifier);
    let lc = 1 + label.len() as int;
    let ic = s.len() - 1;
    assert(s.len() == label.len() + identifier.len() + 4);
    assert(s[0] == '[');
    assert(forall|k: int| 1 <= k < lc ==> s[k] == label[k - 1]);
    assert(s[lc] == ']' && s[lc + 1] == '[');
    assert(forall|k: int| lc + 2 <= k < ic ==> s[k] == identifier[k - lc - 2]);
    assert(s[ic] == ']');
    lemma_label_close_flat(s, 1, lc);
    assert(s.subrange(1, lc) =~= label);
    lemma_label_close_flat(s, lc + 2, ic);
    assert(s.subrange(lc + 2, ic) =~= identifier);
}

/// A fenced code block as an author writes it: the opening fence and
/// language on one line, the body, and the closing fence on its own line.
pub open spec fn fenced_block(lang: Seq<char>, body: Seq<char>) -> Seq<char> {
    seq!['`', '`', '`'] + lang + seq!['\n'] + body + seq!['\n', '`', '`', '`']
}

/// Fenced code round-trips: a newline-free language tag and a body that
/// nowhere ends with a newline and a closing fence tokenize back to
/// exactly the one code token, the body exact, with no fence markers.
pub proof fn lemma_fenced_code_round_trip(lang: Seq<char>, body: Seq<char>)
    requires
        forall|k: int| 0 <= k < lang.len() ==> lang[k] != '\n',
        forall|e: int| 0 < e <= body.len() ==> !fence_close_at(body, 0, e),
    ensures
        spec_tokenize(fenced_block(lang, body)) == seq![SpecToken::Code(lang, body)],
{
    let s = fenced_block(lang, body);
    let b = 4 + lang.len() as int;
    let close = s.len() as int;
    assert(s.len() == lang.len() + body.len() + 8);
    assert(s[0] == '`' && s[1] == '`' && s[2] == '`');
    assert(forall|k: int| 3 <= k < b - 1 ==> s[k] == lang[k - 3]);
    assert(s[b - 1] == '\n');
    assert(forall|k: int| b <= k < b + body.len() ==> s[k] == body[k - b]);
    assert(s[close - 4] == '\n' && s[close - 3] == '`' && s[close - 2] == '`' && s[close - 1]
        == '`');
    lemma_line_end_at(s, 3, b - 1);
    assert(s.subrange(3, b - 1) =~= lang);
    assert(fence_close_at(s, b, close));
    assert forall|e2: int| b < e2 < close implies !fence_close_at(s, b, e2) by {
        if e2 - b >= 4 {
            if e2 <= b + body.len() {
                assert(s[e2 - 4] == body[e2 - b - 4]);
                assert(s[e2 - 3] == body[e2 - b - 3]);
                assert(s[e2 - 2] == body[e2 - b - 2]);
                assert(s[e2 - 1] == body[e2 - b - 1]);
                assert(!fence_close_at(body, 0, e2 - b));
            } else {
                // the window overlaps the closing fence but stops short of
                // it, so it holds the body's final newline where the fence
                // window holds a backtick
                assert(b + body.len() < e2 < b + body.len() + 4);
                if e2 == b + body.len() + 1 {
                    assert(s[e2 - 1] == '\n');
                } else if e2 == b + body.len() + 2 {
                    assert(s[e2 - 2] == '\n');
                } else {
                    assert(s[e2 - 3] == '\n');
                }
            }
        }
    }
    lemma_fence_end_at(s, b, b, close);
    assert(s.subrange(b, close - 4) =~= body);
    assert(spec_back_quote(s, 0) == spec_code(s, 3));
    assert(spec_code(s, 3) == (SpecToken::Code(lang, body), close));
    assert(spec_tokenize_from(s, s.len() as int, false) == Seq::<SpecToken>::empty());
    assert(spec_tokenize(s) =~= seq![SpecToken::Code(lang, body)]);
}

/// True when every heading token in the sequence carries a level between
/// one and six.
pub open spec fn heading_levels_valid(tokens: Seq<SpecToken>) -> bool {
    forall|k: int|
        0 <= k < tokens.len() ==> match #[trigger] tokens[k] {
            SpecToken::Heading(n, _) => 1 <= n <= 6,
            _ => true,
        }
}

proof fn lemma_valid_prepend(t: SpecToken, rest: Seq<SpecToken>)
    requires
        match t {
            SpecToken::Heading(n, _) => 1 <= n <= 6,
            _ => true,
        },
        heading_levels_valid(rest),
    ensures
        heading_levels_valid(seq![t] + rest),
{
    let whole = seq![t] + rest;
    assert forall|k: int| 0 <= k < whole.len() implies (match #[trigger] whole[k] {
        SpecToken::Heading(n, _) => 1 <= n <= 6,
        _ => true,
    }) by {
        if k > 0 {
            assert(whole[k] == rest[k - 1]);
        } else {
            assert(whole[0] == t);
        }
    }
}

/// Whatever the input, tokenization only emits headings of level one to
/// six: a longer run is rejected as plain text, never clamped.
pub proof fn lemma_heading_levels_valid(s: Seq<char>, i: int, line_start: bool)
    requires
        0 <= i <= s.len(),
    ensures
        heading_levels_valid(spec_tokenize_from(s, i, line_start)),
    decreases s.len() - i,
{
    if i >= s.len() {
    } else if s[i] == '\n' {
        lemma_heading_levels_valid(s, i + 1, true);
        lemma_valid_prepend(SpecToken::Break, spec_tokenize_from(s, i + 1, true));
    } else if s[i] == '#' && line_start {
        lemma_spec_sharp_bounds(s, i);
        lemma_sharp_run(s, i);
        lemma_heading_levels_valid(s, spec_sharp(s, i).1, false);
        lemma_valid_prepend(spec_sharp(s, i).0, spec_tokenize_from(s, spec_sharp(s, i).1, false));
    } else if s[i] == '`' {
        lemma_spec_back_quote_bounds(s, i);
        lemma_heading_levels_valid(s, spec_back_quote(s, i).1, false);
        lemma_valid_prepend(
            spec_back_quote(s, i).0,
            spec_tokenize_from(s, spec_back_quote(s, i).1, false),
        );
    } else if s[i] == '>' {
        lemma_spec_greater_bounds(s, i);
        lemma_heading_levels_valid(s, spec_greater(s, i).1, false);
        lemma_valid_prepend(
            spec_greater(s, i).0,
            spec_tokenize_from(s, spec_greater(s, i).1, false),
        );
    } else {
        lemma_spec_text_bounds(s, i);
        lemma_heading_levels_valid(s, spec_text(s, i).1, false);
        lemma_valid_prepend(spec_text(s, i).0, spec_tokenize_from(s, spec_text(s, i).1, false));
    }
}

} // verus!

