//! The token model: one variant per Markdown construct, and the recognizer
//! functions that each consume characters from a shared cursor and produce
//! one token.
//!
//! Every recognizer's behaviour is pinned by a specification function over
//! the input sequence and the cursor position: the function returns the
//! token the recognizer emits and the position where it leaves the cursor.
//! Recognizers that can fail mid-construct (headings, links) snapshot the
//! cursor first and, on failure, rewind to the snapshot and re-tokenize the
//! line as plain paragraph text, so no character is lost or duplicated.

use vstd::prelude::*;
use crate::cursor::Cursor;
use crate::scan::{
    line_end, lemma_line_end, sharp_run, lemma_sharp_run, inline_end, lemma_inline_end,
    fence_close_at, fence_end, lemma_fence_end, lemma_fence_end_at, lemma_fence_end_none,
    blank_close_at, blank_end, lemma_blank_end, lemma_blank_end_at, lemma_blank_end_none,
    label_close, lemma_label_close, href_close, lemma_href_close,
};
use crate::strings::chars_to_string;

verus! {

/// The mathematical value of a token: each payload text as a character
/// sequence, with the delimiters that identify the construct excluded.
#[verifier::ext_equal]
pub ghost enum SpecToken {
    Paragraph(Seq<char>),
    Heading(u8, Seq<char>),
    Html(Seq<char>),
    Code(Seq<char>, Seq<char>),
    Blockquote(Seq<char>),
    ThematicBreak,
    List(Seq<char>),
    ListItem(Seq<char>),
    Definition(Seq<char>, Seq<char>),
    Emphasis(Seq<char>),
    Strong(Seq<char>),
    InlineCode(Seq<char>),
    Break,
    Link(Seq<char>, Seq<char>),
    Image(Seq<char>, Seq<char>),
    LinkReference(Seq<char>, Seq<char>),
    ImageReference(Seq<char>, Seq<char>),
}

/// One classified unit of Markdown syntax with its normalized payload: the
/// payload text excludes the delimiters that identify the construct.
///
/// `Html`, `ThematicBreak`, `List`, `ListItem`, `Definition`, `Emphasis`,
/// `Strong`, `Image` and `ImageReference` are structurally declared for the
/// downstream tree builder but are recognized, not yet produced, by the
/// recognizers here.
#[derive(Debug, PartialEq)]
pub enum Token {
    Paragraph(String),
    Heading((u8, String)),
    Html(String),
    Code((String, String)),
    Blockquote(String),
    ThematicBreak,
    List(String),
    ListItem(String),
    Definition((String, String)),
    Emphasis(String),
    Strong(String),
    InlineCode(String),
    Break,
    Link((String, String)),
    Image((String, String)),
    LinkReference((String, String)),
    ImageReference((String, String)),
}

impl View for Token {
    type V = SpecToken;

    open spec fn view(&self) -> SpecToken {
        match self {
            Token::Paragraph(text) => SpecToken::Paragraph(text@),
            Token::Heading(h) => SpecToken::Heading(h.0, h.1@),
            Token::Html(text) => SpecToken::Html(text@),
            Token::Code(c) => SpecToken::Code(c.0@, c.1@),
            Token::Blockquote(text) => SpecToken::Blockquote(text@),
            Token::ThematicBreak => SpecToken::ThematicBreak,
            Token::List(text) => SpecToken::List(text@),
            Token::ListItem(text) => SpecToken::ListItem(text@),
            Token::Definition(d) => SpecToken::Definition(d.0@, d.1@),
            Token::Emphasis(text) => SpecToken::Emphasis(text@),
            Token::Strong(text) => SpecToken::Strong(text@),
            Token::InlineCode(text) => SpecToken::InlineCode(text@),
            Token::Break => SpecToken::Break,
            Token::Link(l) => SpecToken::Link(l.0@, l.1@),
            Token::Image(l) => SpecToken::Image(l.0@, l.1@),
            Token::LinkReference(l) => SpecToken::LinkReference(l.0@, l.1@),
            Token::ImageReference(l) => SpecToken::ImageReference(l.0@, l.1@),
        }
    }
}

impl DeepView for Token {
    type V = SpecToken;

    open spec fn deep_view(&self) -> SpecToken {
        self.view()
    }
}

/// The plain-text recognizer: the rest of the current line, as a paragraph.
/// It is both the default for unrecognized constructs and the target of
/// every rewind.
pub open spec fn spec_text(s: Seq<char>, i: int) -> (SpecToken, int) {
    (SpecToken::Paragraph(s.subrange(i, line_end(s, i))), line_end(s, i))
}

/// The heading recognizer at a run of `#`: a heading when a space follows a
/// run of one to six `#`, else the whole line rewound to plain text.  A run
/// that reaches the end of the input keeps the characters it consumed and
/// emits a heading with empty text.
pub open spec fn spec_sharp(s: Seq<char>, i: int) -> (SpecToken, int) {
    let j = sharp_run(s, i);
    let cnt = j - i;
    if j == s.len() {
        if cnt <= 6 {
            (SpecToken::Heading(cnt as u8, Seq::empty()), j)
        } else {
            spec_text(s, i)
        }
    } else if s[j] == ' ' && cnt <= 6 {
        (SpecToken::Heading(cnt as u8, s.subrange(j + 1, line_end(s, j + 1))), line_end(s, j + 1))
    } else {
        spec_text(s, i)
    }
}

/// The inline-code body starting after the opening backtick: everything up
/// to a closing backtick, a newline or the end of input; the terminator is
/// consumed but not part of the body.
pub open spec fn spec_inline_code(s: Seq<char>, i: int) -> (SpecToken, int) {
    let e = inline_end(s, i);
    (SpecToken::InlineCode(s.subrange(i, e)), if e < s.len() {
        e + 1
    } else {
        e
    })
}

/// The fenced-code recognizer after the opening triple backtick: an optional
/// language tag up to the newline (empty when the input ends first), then a
/// body up to a newline followed by a closing fence; an unterminated fence
/// keeps everything to the end of input.
pub open spec fn spec_code(s: Seq<char>, i: int) -> (SpecToken, int) {
    let le = line_end(s, i);
    let lang = if le < s.len() {
        s.subrange(i, le)
    } else {
        Seq::<char>::empty()
    };
    let b = if le < s.len() {
        le + 1
    } else {
        le
    };
    match fence_end(s, b, b) {
        Some(e) => (SpecToken::Code(lang, s.subrange(b, e - 4)), e),
        None => (SpecToken::Code(lang, s.subrange(b, s.len() as int)), s.len() as int),
    }
}

/// The backtick recognizer: one backtick opens an inline code span, two
/// resolve at once to an empty inline code span, three open a fenced code
/// block.
pub open spec fn spec_back_quote(s: Seq<char>, i: int) -> (SpecToken, int) {
    if i >= s.len() {
        (SpecToken::InlineCode(Seq::empty()), i)
    } else if i + 1 < s.len() && s[i + 1] == '`' {
        if i + 2 < s.len() && s[i + 2] == '`' {
            spec_code(s, i + 3)
        } else {
            (SpecToken::InlineCode(Seq::empty()), i + 2)
        }
    } else {
        spec_inline_code(s, i + 1)
    }
}

/// The blockquote recognizer at a `>`: everything after the marker up to a
/// blank line, which is consumed but not part of the body; unterminated
/// input keeps everything to the end.
pub open spec fn spec_greater(s: Seq<char>, i: int) -> (SpecToken, int) {
    let b = if i < s.len() {
        i + 1
    } else {
        i
    };
    match blank_end(s, b, b) {
        Some(e) => (SpecToken::Blockquote(s.subrange(b, e - 2)), e),
        None => (SpecToken::Blockquote(s.subrange(b, s.len() as int)), s.len() as int),
    }
}

/// The link recognizer at a `[`: a bracket-balanced label, then either a
/// paren-balanced href for a link or a second bracket-balanced label for a
/// link reference; any failure rewinds to the snapshot and re-tokenizes the
/// line as plain text.
pub open spec fn spec_left_brace(s: Seq<char>, i: int) -> (SpecToken, int) {
    let b = if i < s.len() {
        i + 1
    } else {
        i
    };
    match label_close(s, b, 0) {
        None => spec_text(s, i),
        Some(e) => {
            let label = s.subrange(b, e);
            let j = e + 1;
            if j < s.len() && s[j] == '(' {
                match href_close(s, j + 1, 0) {
                    None => spec_text(s, i),
                    Some(h) => (SpecToken::Link(label, s.subrange(j + 1, h)), h + 1),
                }
            } else if j < s.len() && s[j] == '[' {
                match label_close(s, j + 1, 0) {
                    None => spec_text(s, i),
                    Some(h) => (SpecToken::LinkReference(label, s.subrange(j + 1, h)), h + 1),
                }
            } else {
                spec_text(s, i)
            }
        },
    }
}

pub proof fn lemma_spec_text_bounds(s: Seq<char>, i: int)
    requires
        0 <= i <= s.len(),
    ensures
        i <= spec_text(s, i).1 <= s.len(),
        i < s.len() && s[i] != '\n' ==> i < spec_text(s, i).1,
{
    lemma_line_end(s, i);
}

pub proof fn lemma_spec_sharp_bounds(s: Seq<char>, i: int)
    requires
        0 <= i <= s.len(),
    ensures
        i <= spec_sharp(s, i).1 <= s.len(),
        i < s.len() && s[i] == '#' ==> i < spec_sharp(s, i).1,
{
    lemma_sharp_run(s, i);
    lemma_line_end(s, i);
    let j = sharp_run(s, i);
    if j < s.len() && s[j] == ' ' && j - i <= 6 {
        lemma_line_end(s, j + 1);
    }
}

pub proof fn lemma_spec_inline_code_bounds(s: Seq<char>, i: int)
    requires
        0 <= i <= s.len(),
    ensures
        i <= spec_inline_code(s, i).1 <= s.len(),
{
    lemma_inline_end(s, i);
}

pub proof fn lemma_spec_code_bounds(s: Seq<char>, i: int)
    requires
        0 <= i <= s.len(),
    ensures
        i <= spec_code(s, i).1 <= s.len(),
{
    lemma_line_end(s, i);
    let le = line_end(s, i);
    let b = if le < s.len() {
        le + 1
    } else {
        le
    };
    lemma_fence_end(s, b, b);
}

pub proof fn lemma_spec_back_quote_bounds(s: Seq<char>, i: int)
    requires
        0 <= i <= s.len(),
    ensures
        i <= spec_back_quote(s, i).1 <= s.len(),
        i < s.len() ==> i < spec_back_quote(s, i).1,
{
    if i < s.len() {
        if i + 1 < s.len() && s[i + 1] == '`' {
            if i + 2 < s.len() && s[i + 2] == '`' {
                lemma_spec_code_bounds(s, i + 3);
            }
        } else {
            lemma_inline_end(s, i + 1);
        }
    }
}

pub proof fn lemma_spec_greater_bounds(s: Seq<char>, i: int)
    requires
        0 <= i <= s.len(),
    ensures
        i <= spec_greater(s, i).1 <= s.len(),
        i < s.len() ==> i < spec_greater(s, i).1,
{
    let b = if i < s.len() {
        i + 1
    } else {
        i
    };
    lemma_blank_end(s, b, b);
}

pub proof fn lemma_spec_left_brace_bounds(s: Seq<char>, i: int)
    requires
        0 <= i <= s.len(),
    ensures
        i <= spec_left_brace(s, i).1 <= s.len(),
{
    let b = if i < s.len() {
        i + 1
    } else {
        i
    };
    lemma_line_end(s, i);
    lemma_label_close(s, b, 0);
    if let Some(e) = label_close(s, b, 0) {
        let j = e + 1;
        if j < s.len() && s[j] == '(' {
            lemma_href_close(s, j + 1, 0);
        } else if j < s.len() && s[j] == '[' {
            lemma_label_close(s, j + 1, 0);
        }
    }
}

impl Token {
    /// Consumes the rest of the current line (the newline itself stays) and
    /// returns it; shared by the plain-text and heading recognizers.
    fn handle_heading_text(source: &mut Cursor) -> (text: String)
        requires
            old(source).wf(),
        ensures
            final(source).wf(),
            final(source).src() == old(source).src(),
            final(source).at() == line_end(old(source).src(), old(source).at()),
            text@ == old(source).src().subrange(
                old(source).at(),
                line_end(old(source).src(), old(source).at()),
            ),
    {
        let ghost s = source.src();
        let ghost i0 = source.at();
        proof {
            lemma_line_end(s, i0);
        }
        let mut text: Vec<char> = Vec::new();
        loop
            invariant
                source.wf(),
                source.src() == s,
                0 <= i0 <= source.at() <= line_end(s, i0) <= s.len(),
                text@ == s.subrange(i0, source.at()),
            ensures
                source.wf(),
                source.src() == s,
                source.at() == line_end(s, i0),
                text@ == s.subrange(i0, line_end(s, i0)),
            decreases s.len() - source.at(),
        {
            proof {
                lemma_line_end(s, i0);
            }
            match source.peek() {
                None => {
                    break ;
                },
                Some(c) => {
                    if c == '\n' {
                        break ;
                    } else {
                        text.push(c);
                        source.advance();
                        assert(text@ =~= s.subrange(i0, source.at()));
                    }
                },
            }
        }
        chars_to_string(&text)
    }

    /// Recognizes the rest of the line as plain paragraph text.  This never
    /// fails; it is the fallback every other recognizer rewinds into.
    pub fn handle_text(source: &mut Cursor) -> (t: Token)
        requires
            old(source).wf(),
        ensures
            final(source).wf(),
            final(source).src() == old(source).src(),
            t@ == spec_text(old(source).src(), old(source).at()).0,
            final(source).at() == spec_text(old(source).src(), old(source).at()).1,
    {
        let text = Self::handle_heading_text(source);
        Token::Paragraph(text)
    }

    /// Recognizes a heading at a run of `#` characters.  The run is counted
    /// (capped once it is past the valid levels); a space must follow a run
    /// of one to six `#`, otherwise the recognizer rewinds to its snapshot
    /// and the whole line is re-tokenized as plain text.
    pub fn handle_sharp(source: &mut Cursor) -> (t: Token)
        requires
            old(source).wf(),
        ensures
            final(source).wf(),
            final(source).src() == old(source).src(),
            t@ == spec_sharp(old(source).src(), old(source).at()).0,
            final(source).at() == spec_sharp(old(source).src(), old(source).at()).1,
    {
        let ghost s = source.src();
        let ghost i0 = source.at();
        let rev_source = source.clone_position();
        let mut sharp_cnt: u8 = 0;
        proof {
            lemma_sharp_run(s, i0);
        }
        while source.peek_is('#')
            invariant
                source.wf(),
                source.src() == s,
                0 <= i0 <= source.at() <= sharp_run(s, i0) <= s.len(),
                sharp_run(s, source.at()) == sharp_run(s, i0),
                sharp_cnt as int == (if source.at() - i0 <= 7 {
                    source.at() - i0
                } else {
                    7
                }),
            decreases s.len() - source.at(),
        {
            proof {
                lemma_sharp_run(s, source.at());
            }
            if sharp_cnt < 7 {
                sharp_cnt = sharp_cnt + 1;
            }
            source.advance();
        }
        proof {
            lemma_sharp_run(s, source.at());
        }
        let ghost j = sharp_run(s, i0);
        assert(source.at() == j);
        if source.peek_is(' ') {
            source.advance();
        } else if !source.peek().is_none() {
            // the run was no heading: resume from the snapshot
            *source = rev_source;
            return Self::handle_text(source);
        }
        let ghost at1 = source.at();
        let heading_text = Self::handle_heading_text(source);
        if sharp_cnt <= 6 {
            proof {
                lemma_line_end(s, at1);
                if j == s.len() {
                    assert(heading_text@ =~= Seq::<char>::empty());
                }
            }
            Token::Heading((sharp_cnt, heading_text))
        } else {
            // a run past six `#` is never a heading: resume from the snapshot
            *source = rev_source;
            Self::handle_text(source)
        }
    }

    /// Consumes an inline code span's body after the opening backtick: up to
    /// a closing backtick or newline (consumed but excluded) or end of
    /// input.  An unterminated span still emits whatever was accumulated.
    fn handle_inline_code(source: &mut Cursor) -> (t: Token)
        requires
            old(source).wf(),
        ensures
            final(source).wf(),
            final(source).src() == old(source).src(),
            t@ == spec_inline_code(old(source).src(), old(source).at()).0,
            final(source).at() == spec_inline_code(old(source).src(), old(source).at()).1,
    {
        let ghost s = source.src();
        let ghost i0 = source.at();
        proof {
            lemma_inline_end(s, i0);
        }
        let mut inline_code: Vec<char> = Vec::new();
        loop
            invariant_except_break
                inline_code@ == s.subrange(i0, source.at()),
                source.at() <= inline_end(s, i0),
            invariant
                source.wf(),
                source.src() == s,
                0 <= i0 <= source.at() <= s.len(),
            ensures
                source.wf(),
                source.src() == s,
                inline_code@ == s.subrange(i0, inline_end(s, i0)),
                source.at() == spec_inline_code(s, i0).1,
            decreases s.len() - source.at(),
        {
            proof {
                lemma_inline_end(s, i0);
            }
            match source.peek() {
                None => {
                    break ;
                },
                Some(c) => {
                    if c == '\n' || c == '`' {
                        source.advance();
                        break ;
                    } else {
                        inline_code.push(c);
                        source.advance();
                        assert(inline_code@ =~= s.subrange(i0, source.at()));
                    }
                },
            }
        }
        Token::InlineCode(chars_to_string(&inline_code))
    }

    /// Consumes the fence's language tag up to the newline, which stays; a
    /// tag cut off by the end of input counts as no tag at all.
    fn handle_code_language(source: &mut Cursor) -> (language: String)
        requires
            old(source).wf(),
        ensures
            final(source).wf(),
            final(source).src() == old(source).src(),
            final(source).at() == line_end(old(source).src(), old(source).at()),
            language@ == (if line_end(old(source).src(), old(source).at()) < old(
                source,
            ).src().len() {
                old(source).src().subrange(
                    old(source).at(),
                    line_end(old(source).src(), old(source).at()),
                )
            } else {
                Seq::<char>::empty()
            }),
    {
        let text = Self::handle_heading_text(source);
        if source.peek().is_none() {
            String::new()
        } else {
            text
        }
    }

    /// Recognizes a fenced code block after the opening triple backtick: a
    /// language tag, then the body up to a newline followed by a closing
    /// fence; an unterminated fence keeps everything to the end of input.
    fn handle_code(source: &mut Cursor) -> (t: Token)
        requires
            old(source).wf(),
        ensures
            final(source).wf(),
            final(source).src() == old(source).src(),
            t@ == spec_code(old(source).src(), old(source).at()).0,
            final(source).at() == spec_code(old(source).src(), old(source).at()).1,
    {
        let ghost s = source.src();
        let ghost i0 = source.at();
        proof {
            lemma_line_end(s, i0);
        }
        let language = Self::handle_code_language(source);
        source.advance();
        let ghost b = source.at();
        let mut code: Vec<char> = Vec::new();
        loop
            invariant_except_break
                code@ == s.subrange(b, source.at()),
                forall|e2: int| b < e2 <= source.at() ==> !fence_close_at(s, b, e2),
            invariant
                source.wf(),
                source.src() == s,
                0 <= b <= source.at() <= s.len(),
            ensures
                source.wf(),
                source.src() == s,
                match fence_end(s, b, b) {
                    Some(e) => source.at() == e && code@ == s.subrange(b, e - 4),
                    None => source.at() == s.len() && code@ == s.subrange(b, s.len() as int),
                },
            decreases s.len() - source.at(),
        {
            match source.peek() {
                None => {
                    proof {
                        lemma_fence_end_none(s, b, b);
                    }
                    break ;
                },
                Some(c) => {
                    code.push(c);
                    source.advance();
                    assert(code@ =~= s.subrange(b, source.at()));
                    let n = code.len();
                    if n >= 4 && code[n - 4] == '\n' && code[n - 3] == '`' && code[n - 2] == '`'
                        && code[n - 1] == '`' {
                        proof {
                            assert(fence_close_at(s, b, source.at()));
                            lemma_fence_end_at(s, b, b, source.at());
                        }
                        code.pop();
                        code.pop();
                        code.pop();
                        code.pop();
                        assert(code@ =~= s.subrange(b, source.at() - 4));
                        break ;
                    }
                    assert(!fence_close_at(s, b, source.at()));
                },
            }
        }
        Token::Code((language, chars_to_string(&code)))
    }

    /// Recognizes a backtick-led construct: one backtick opens an inline
    /// code span, two resolve at once to an empty span, three open a fenced
    /// code block.
    pub fn handle_back_quote(source: &mut Cursor) -> (t: Token)
        requires
            old(source).wf(),
        ensures
            final(source).wf(),
            final(source).src() == old(source).src(),
            t@ == spec_back_quote(old(source).src(), old(source).at()).0,
            final(source).at() == spec_back_quote(old(source).src(), old(source).at()).1,
    {
        let ghost s = source.src();
        let ghost i0 = source.at();
        source.advance();
        if source.peek_is('`') {
            source.advance();
            if source.peek_is('`') {
                source.advance();
                Self::handle_code(source)
            } else {
                Token::InlineCode(String::new())
            }
        } else {
            proof {
                if i0 >= s.len() {
                    assert(s.subrange(i0, inline_end(s, i0)) =~= Seq::<char>::empty());
                }
            }
            Self::handle_inline_code(source)
        }
    }

    /// Recognizes a blockquote at a `>`: everything after the marker up to a
    /// blank line, which is consumed but excluded from the body; an
    /// unterminated blockquote keeps everything to the end of input.
    pub fn handle_greater(source: &mut Cursor) -> (t: Token)
        requires
            old(source).wf(),
        ensures
            final(source).wf(),
            final(source).src() == old(source).src(),
            t@ == spec_greater(old(source).src(), old(source).at()).0,
            final(source).at() == spec_greater(old(source).src(), old(source).at()).1,
    {
        let ghost s = source.src();
        let ghost i0 = source.at();
        source.advance();
        let ghost b = source.at();
        let mut quote_text: Vec<char> = Vec::new();
        loop
            invariant_except_break
                quote_text@ == s.subrange(b, source.at()),
                forall|e2: int| b < e2 <= source.at() ==> !blank_close_at(s, b, e2),
            invariant
                source.wf(),
                source.src() == s,
                0 <= b <= source.at() <= s.len(),
            ensures
                source.wf(),
                source.src() == s,
                match blank_end(s, b, b) {
                    Some(e) => source.at() == e && quote_text@ == s.subrange(b, e - 2),
                    None => source.at() == s.len() && quote_text@ == s.subrange(
                        b,
                        s.len() as int,
                    ),
                },
            decreases s.len() - source.at(),
        {
            match source.peek() {
                None => {
                    proof {
                        lemma_blank_end_none(s, b, b);
                    }
                    break ;
                },
                Some(c) => {
                    quote_text.push(c);
                    source.advance();
                    assert(quote_text@ =~= s.subrange(b, source.at()));
                    let n = quote_text.len();
                    if n >= 2 && quote_text[n - 2] == '\n' && quote_text[n - 1] == '\n' {
                        proof {
                            assert(blank_close_at(s, b, source.at()));
                            lemma_blank_end_at(s, b, b, source.at());
                        }
                        quote_text.pop();
                        quote_text.pop();
                        assert(quote_text@ =~= s.subrange(b, source.at() - 2));
                        break ;
                    }
                    assert(!blank_close_at(s, b, source.at()));
                },
            }
        }
        Token::Blockquote(chars_to_string(&quote_text))
    }

    /// Scans a bracket-balanced link label up to the `]` that closes it,
    /// which stays unconsumed; `None` when a newline or the end of input
    /// comes first.
    fn handle_link_label(source: &mut Cursor) -> (label: Option<String>)
        requires
            old(source).wf(),
        ensures
            final(source).wf(),
            final(source).src() == old(source).src(),
            match label_close(old(source).src(), old(source).at(), 0) {
                Some(e) => label is Some && label->0@ == old(source).src().subrange(
                    old(source).at(),
                    e,
                ) && final(source).at() == e,
                None => label is None,
            },
    {
        let ghost s = source.src();
        let ghost i0 = source.at();
        let mut label_text: Vec<char> = Vec::new();
        let mut brace_diff: usize = 0;
        let mut found = false;
        loop
            invariant
                source.wf(),
                source.src() == s,
                0 <= i0 <= source.at() <= s.len(),
                brace_diff as int <= source.at() - i0,
                label_text@ == s.subrange(i0, source.at()),
                label_close(s, i0, 0) == label_close(s, source.at(), brace_diff as int),
            ensures
                source.wf(),
                source.src() == s,
                match label_close(s, i0, 0) {
                    Some(e) => found && source.at() == e && label_text@ == s.subrange(i0, e),
                    None => !found,
                },
            decreases s.len() - source.at(),
        {
            match source.peek() {
                None => {
                    found = false;
                    break ;
                },
                Some(c) => {
                    if c == '\n' {
                        found = false;
                        break ;
                    } else if c == ']' && brace_diff == 0 {
                        found = true;
                        break ;
                    } else {
                        if c == '[' {
                            brace_diff = brace_diff + 1;
                        } else if c == ']' {
                            brace_diff = brace_diff - 1;
                        }
                        label_text.push(c);
                        source.advance();
                        assert(label_text@ =~= s.subrange(i0, source.at()));
                    }
                },
            }
        }
        if found {
            Some(chars_to_string(&label_text))
        } else {
            None
        }
    }

    /// Scans a paren-balanced link href up to the `)` that closes it, which
    /// stays unconsumed; `None` when a newline or the end of input comes
    /// first.
    fn handle_link_href(source: &mut Cursor) -> (href: Option<String>)
        requires
            old(source).wf(),
        ensures
            final(source).wf(),
            final(source).src() == old(source).src(),
            match href_close(old(source).src(), old(source).at(), 0) {
                Some(e) => href is Some && href->0@ == old(source).src().subrange(
                    old(source).at(),
                    e,
                ) && final(source).at() == e,
                None => href is None,
            },
    {
        let ghost s = source.src();
        let ghost i0 = source.at();
        let mut href_text: Vec<char> = Vec::new();
        let mut brace_diff: usize = 0;
        let mut found = false;
        loop
            invariant
                source.wf(),
                source.src() == s,
                0 <= i0 <= source.at() <= s.len(),
                brace_diff as int <= source.at() - i0,
                href_text@ == s.subrange(i0, source.at()),
                href_close(s, i0, 0) == href_close(s, source.at(), brace_diff as int),
            ensures
                source.wf(),
                source.src() == s,
                match href_close(s, i0, 0) {
                    Some(e) => found && source.at() == e && href_text@ == s.subrange(i0, e),
                    None => !found,
                },
            decreases s.len() - source.at(),
        {
            match source.peek() {
                None => {
                    found = false;
                    break ;
                },
                Some(c) => {
                    if c == '\n' {
                        found = false;
                        break ;
                    } else if c == ')' && brace_diff == 0 {
                        found = true;
                        break ;
                    } else {
                        if c == '(' {
                            brace_diff = brace_diff + 1;
                        } else if c == ')' {
                            brace_diff = brace_diff - 1;
                        }
                        href_text.push(c);
                        source.advance();
                        assert(href_text@ =~= s.subrange(i0, source.at()));
                    }
                },
            }
        }
        if found {
            Some(chars_to_string(&href_text))
        } else {
            None
        }
    }

    /// Recognizes a link or link reference at a `[`.  A bracket-balanced
    /// label must close, then `(` opens an href and `[` a reference
    /// identifier; on any failure the recognizer rewinds to its snapshot and
    /// the line is re-tokenized as plain text.
    pub fn handle_left_brace(source: &mut Cursor) -> (t: Token)
        requires
            old(source).wf(),
        ensures
            final(source).wf(),
            final(source).src() == old(source).src(),
            t@ == spec_left_brace(old(source).src(), old(source).at()).0,
            final(source).at() == spec_left_brace(old(source).src(), old(source).at()).1,
    {
        let ghost s = source.src();
        let ghost i0 = source.at();
        let rev_source = source.clone_position();
        source.advance();
        let ghost b = source.at();
        proof {
            lemma_label_close(s, b, 0);
        }
        match Self::handle_link_label(source) {
            None => {
                // no closing bracket on this line: resume from the snapshot
                *source = rev_source;
                Self::handle_text(source)
            },
            Some(label) => {
                source.advance();  // consume the closing `]`
                match source.peek() {
                    Some(c) => {
                        if c == '(' {
                            source.advance();
                            proof {
                                lemma_href_close(s, source.at(), 0);
                            }
                            match Self::handle_link_href(source) {
                                None => {
                                    *source = rev_source;
                                    Self::handle_text(source)
                                },
                                Some(href) => {
                                    source.advance();  // consume the closing `)`
                                    Token::Link((label, href))
                                },
                            }
                        } else if c == '[' {
                            source.advance();
                            proof {
                                lemma_label_close(s, source.at(), 0);
                            }
                            match Self::handle_link_label(source) {
                                None => {
                                    *source = rev_source;
                                    Self::handle_text(source)
                                },
                                Some(identifier) => {
                                    source.advance();  // consume the closing `]`
                                    Token::LinkReference((label, identifier))
                                },
                            }
                        } else {
                            *source = rev_source;
                            Self::handle_text(source)
                        }
                    },
                    None => {
                        *source = rev_source;
                        Self::handle_text(source)
                    },
                }
            },
        }
    }
}

} // verus!
