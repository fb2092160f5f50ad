//! Recognizer-level tests: each drives one recognizer over a cursor, the
//! way the driver would, and checks the exact token that comes out.

use md_tokenizer::cursor::Cursor;
use md_tokenizer::strings::text_to_chars;
use md_tokenizer::token::Token;

#[test]
fn handle_sharp_works_with_simple_headings() {
    let chars = text_to_chars("## hoge");
    let mut source = Cursor::new(&chars);
    let token = Token::handle_sharp(&mut source);
    assert_eq!(token, Token::Heading((2, "hoge".to_string())));

    let chars = text_to_chars("### bar");
    let mut source = Cursor::new(&chars);
    let token = Token::handle_sharp(&mut source);
    assert_eq!(token, Token::Heading((3, "bar".to_string())));

    let chars = text_to_chars("###### fuga");
    let mut source = Cursor::new(&chars);
    let token = Token::handle_sharp(&mut source);
    assert_eq!(token, Token::Heading((6, "fuga".to_string())));
}

#[test]
fn more_than_7_sharp_should_be_text() {
    let chars = text_to_chars("####### hoge\n## hoge");
    let mut source = Cursor::new(&chars);
    let token = Token::handle_sharp(&mut source);
    assert_eq!(token, Token::Paragraph("####### hoge".to_string()));
    source.advance();
    let token = Token::handle_sharp(&mut source);
    assert_eq!(token, Token::Heading((2, "hoge".to_string())))
}

#[test]
fn sharp_with_text_without_space_should_be_text() {
    let chars = text_to_chars("##hoge");
    let mut source = Cursor::new(&chars);
    let token = Token::handle_sharp(&mut source);
    assert_eq!(token, Token::Paragraph("##hoge".to_string()));
}

#[test]
fn handle_text_with_siple_text() {
    let chars = text_to_chars("asdf\nhoge");
    let mut source = Cursor::new(&chars);
    let token = Token::handle_text(&mut source);
    assert_eq!(token, Token::Paragraph("asdf".to_string()));
}

#[test]
fn handle_inline_code_with_simple_text() {
    let chars = text_to_chars("`hoge`");
    let mut source = Cursor::new(&chars);
    let token = Token::handle_back_quote(&mut source);
    assert_eq!(token, Token::InlineCode("hoge".to_string()))
}

#[test]
fn handle_inline_code_with_empty_text() {
    let chars = text_to_chars("``");
    let mut source = Cursor::new(&chars);
    let token = Token::handle_back_quote(&mut source);
    assert_eq!(token, Token::InlineCode("".to_string()))
}

#[test]
fn handle__code_with_simple_text() {
    let chars = text_to_chars("```javascript\nconst hoge = 1;\nconst bar = 2;\n```");
    let mut source = Cursor::new(&chars);
    let token = Token::handle_back_quote(&mut source);
    assert_eq!(
        token,
        Token::Code((
            "javascript".to_string(),
            "const hoge = 1;\nconst bar = 2;".to_string()
        ))
    )
}

#[test]
fn handle_greater_with_simple_text() {
    let chars = text_to_chars(">hoge");
    let mut source = Cursor::new(&chars);
    let token = Token::handle_greater(&mut source);
    assert_eq!(token, Token::Blockquote("hoge".to_string()))
}

#[test]
fn handle_greater_with_text_with_breakline() {
    let chars = text_to_chars(">hoge\nfuga\n\nbar");
    let mut source = Cursor::new(&chars);
    let token = Token::handle_greater(&mut source);
    assert_eq!(token, Token::Blockquote("hoge\nfuga".to_string()))
}

#[test]
fn parse_link_correctly() {
    let chars = text_to_chars("[hoge](fuga)");
    let mut source = Cursor::new(&chars);
    let token = Token::handle_left_brace(&mut source);
    assert_eq!(token, Token::Link(("hoge".to_string(), "fuga".to_string())))
}

#[test]
fn parse_link_reference_correctly() {
    let chars = text_to_chars("[hoge][fuga]");
    let mut source = Cursor::new(&chars);
    let token = Token::handle_left_brace(&mut source);
    assert_eq!(
        token,
        Token::LinkReference(("hoge".to_string(), "fuga".to_string()))
    )
}

#[test]
fn unterminated_link_label_falls_back_to_text() {
    let chars = text_to_chars("[hoge");
    let mut source = Cursor::new(&chars);
    let token = Token::handle_left_brace(&mut source);
    assert_eq!(token, Token::Paragraph("[hoge".to_string()))
}

#[test]
fn link_without_target_falls_back_to_text() {
    let chars = text_to_chars("[hoge]fuga");
    let mut source = Cursor::new(&chars);
    let token = Token::handle_left_brace(&mut source);
    assert_eq!(token, Token::Paragraph("[hoge]fuga".to_string()))
}

#[test]
fn unterminated_link_href_falls_back_to_text() {
    let chars = text_to_chars("[hoge](fuga");
    let mut source = Cursor::new(&chars);
    let token = Token::handle_left_brace(&mut source);
    assert_eq!(token, Token::Paragraph("[hoge](fuga".to_string()))
}

#[test]
fn link_label_keeps_nested_brackets() {
    let chars = text_to_chars("[a[b]c](d)");
    let mut source = Cursor::new(&chars);
    let token = Token::handle_left_brace(&mut source);
    assert_eq!(token, Token::Link(("a[b]c".to_string(), "d".to_string())))
}

#[test]
fn sharp_run_at_end_of_input_is_heading_with_empty_text() {
    let chars = text_to_chars("##");
    let mut source = Cursor::new(&chars);
    let token = Token::handle_sharp(&mut source);
    assert_eq!(token, Token::Heading((2, "".to_string())));
}

#[test]
fn heading_text_keeps_inner_sharps_and_spaces() {
    let chars = text_to_chars("# # x");
    let mut source = Cursor::new(&chars);
    let token = Token::handle_sharp(&mut source);
    assert_eq!(token, Token::Heading((1, "# x".to_string())));
}

#[test]
fn unterminated_inline_code_keeps_what_was_accumulated() {
    let chars = text_to_chars("`hoge");
    let mut source = Cursor::new(&chars);
    let token = Token::handle_back_quote(&mut source);
    assert_eq!(token, Token::InlineCode("hoge".to_string()));
}

#[test]
fn lone_backtick_is_empty_inline_code() {
    let chars = text_to_chars("`");
    let mut source = Cursor::new(&chars);
    let token = Token::handle_back_quote(&mut source);
    assert_eq!(token, Token::InlineCode("".to_string()));
}

#[test]
fn unterminated_fence_keeps_body_to_end_of_input() {
    let chars = text_to_chars("```js\nabc");
    let mut source = Cursor::new(&chars);
    let token = Token::handle_back_quote(&mut source);
    assert_eq!(token, Token::Code(("js".to_string(), "abc".to_string())));
}

#[test]
fn fence_without_language_has_empty_tag() {
    let chars = text_to_chars("```\nbody\n```");
    let mut source = Cursor::new(&chars);
    let token = Token::handle_back_quote(&mut source);
    assert_eq!(token, Token::Code(("".to_string(), "body".to_string())));
}
