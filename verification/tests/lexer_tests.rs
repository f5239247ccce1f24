//! Tokens.
use verilog_core::lexer::{lex, TokenKind};
use verilog_core::SourceFile;

#[test]
fn logic_is_keyword() {
    let f = SourceFile::new("x.v", "logic");
    let t = lex(&f);
    assert_eq!(t[0].kind, TokenKind::Logic, "lexeme={}", t[0].lexeme);
}

#[test]
fn tokens_carry_their_byte_range() {
    let f = SourceFile::new("x.v", "// note\nmodule m; /* α */ assign y = 4'b1?0x; endmodule");
    let t = lex(&f);
    let kinds: Vec<TokenKind> = t.iter().map(|t| t.kind).collect();
    assert_eq!(
        kinds,
        vec![
            TokenKind::Module,
            TokenKind::Identifier,
            TokenKind::Semicolon,
            TokenKind::Assign,
            TokenKind::Identifier,
            TokenKind::Eq,
            TokenKind::Number,
            TokenKind::Semicolon,
            TokenKind::Endmodule,
            TokenKind::Eof,
        ]
    );
    for tok in &t {
        assert_eq!(&f.content[tok.offset..tok.end], tok.lexeme);
    }
    assert_eq!(t[6].lexeme, "4'b1?0x");
    assert_eq!(t.last().unwrap().span_range(), (56, 56));
}

#[test]
fn operators_take_the_longest_form() {
    let f = SourceFile::new("x.v", ">>> >> >= > <= << < == = != ! && & || |");
    let kinds: Vec<TokenKind> = lex(&f).iter().map(|t| t.kind).collect();
    assert_eq!(
        kinds,
        vec![
            TokenKind::Ashr,
            TokenKind::Shr,
            TokenKind::Ge,
            TokenKind::Gt,
            TokenKind::Le,
            TokenKind::Shl,
            TokenKind::Lt,
            TokenKind::EqEq,
            TokenKind::Eq,
            TokenKind::Ne,
            TokenKind::Bang,
            TokenKind::LogAnd,
            TokenKind::Amp,
            TokenKind::LogOr,
            TokenKind::Pipe,
            TokenKind::Eof,
        ]
    );
}

#[test]
fn an_empty_text_is_the_end_of_input() {
    let t = lex(&SourceFile::new("x.v", ""));
    assert_eq!(t.len(), 1);
    assert_eq!(t[0].kind, TokenKind::Eof);
    assert_eq!(t[0].span_range(), (0, 0));
}

#[test]
fn only_blanks_and_comments_are_left_out() {
    let text = "a /* b */ // c\n\t+ d[3:0] ;\n";
    let f = SourceFile::new("x.v", text);
    let t = lex(&f);
    let mut at = 0;
    let mut gaps = Vec::new();
    for tok in &t {
        assert!(at <= tok.offset);
        gaps.push(&text[at..tok.offset]);
        at = tok.end;
    }
    assert_eq!(at, text.len());
    assert_eq!(gaps[0], "");
    assert_eq!(gaps[1], " /* b */ // c\n\t");
    assert_eq!(gaps[2..], [" ", "", "", "", "", "", " ", "\n"]);
}
