//! Driver-level tests: whole inputs through `tokenize`, checking the full
//! ordered token sequence.

use md_tokenizer::token::Token;
use md_tokenizer::tokenizer::tokenize;

#[test]
fn tokenize_works_with_empty_source() {
    let tokens: Vec<Token> = vec![];
    assert_eq!(tokenize(""), tokens);
}

#[test]
fn tokenize_headings_of_every_level() {
    assert_eq!(tokenize("# a"), vec![Token::Heading((1, "a".to_string()))]);
    assert_eq!(tokenize("## a"), vec![Token::Heading((2, "a".to_string()))]);
    assert_eq!(tokenize("### a"), vec![Token::Heading((3, "a".to_string()))]);
    assert_eq!(tokenize("#### a"), vec![Token::Heading((4, "a".to_string()))]);
    assert_eq!(tokenize("##### a"), vec![Token::Heading((5, "a".to_string()))]);
    assert_eq!(tokenize("###### a"), vec![Token::Heading((6, "a".to_string()))]);
}

#[test]
fn tokenize_seven_sharps_gives_the_line_unchanged() {
    assert_eq!(
        tokenize("####### hoge"),
        vec![Token::Paragraph("####### hoge".to_string())]
    );
}

#[test]
fn tokenize_sharp_without_space_gives_the_line_unchanged() {
    assert_eq!(
        tokenize("##hoge"),
        vec![Token::Paragraph("##hoge".to_string())]
    );
}

#[test]
fn tokenize_plain_line_is_one_paragraph() {
    assert_eq!(
        tokenize("hello world"),
        vec![Token::Paragraph("hello world".to_string())]
    );
}

#[test]
fn tokenize_lone_newline_is_a_break() {
    assert_eq!(tokenize("\n"), vec![Token::Break]);
}

#[test]
fn tokenize_keeps_consecutive_breaks() {
    assert_eq!(
        tokenize("a\n\nb"),
        vec![
            Token::Paragraph("a".to_string()),
            Token::Break,
            Token::Break,
            Token::Paragraph("b".to_string()),
        ]
    );
}

#[test]
fn tokenize_heading_after_break() {
    assert_eq!(
        tokenize("text\n# h"),
        vec![
            Token::Paragraph("text".to_string()),
            Token::Break,
            Token::Heading((1, "h".to_string())),
        ]
    );
}

#[test]
fn tokenize_sharp_away_from_line_start_is_text() {
    assert_eq!(
        tokenize("`x`# y"),
        vec![
            Token::InlineCode("x".to_string()),
            Token::Paragraph("# y".to_string()),
        ]
    );
}

#[test]
fn tokenize_inline_code_round_trip() {
    assert_eq!(
        tokenize("`hoge`"),
        vec![Token::InlineCode("hoge".to_string())]
    );
    assert_eq!(tokenize("``"), vec![Token::InlineCode("".to_string())]);
}

#[test]
fn tokenize_fenced_code_round_trip() {
    assert_eq!(
        tokenize("```lang\nBODY\n```"),
        vec![Token::Code(("lang".to_string(), "BODY".to_string()))]
    );
}

#[test]
fn tokenize_blockquote_consumes_its_blank_line() {
    assert_eq!(
        tokenize(">hoge\nfuga\n\nbar"),
        vec![
            Token::Blockquote("hoge\nfuga".to_string()),
            Token::Paragraph("bar".to_string()),
        ]
    );
}

#[test]
fn tokenize_mixed_document() {
    assert_eq!(
        tokenize("# title\nbody\n```c\nx\n```"),
        vec![
            Token::Heading((1, "title".to_string())),
            Token::Break,
            Token::Paragraph("body".to_string()),
            Token::Break,
            Token::Code(("c".to_string(), "x".to_string())),
        ]
    );
}

#[test]
fn tokenize_unterminated_inline_code_consumes_its_newline() {
    assert_eq!(
        tokenize("`ab\ncd"),
        vec![
            Token::InlineCode("ab".to_string()),
            Token::Paragraph("cd".to_string()),
        ]
    );
}
