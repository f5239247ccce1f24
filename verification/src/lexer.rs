//! Lexical analysis: source text into a flat list of tokens.
//!
//! Positions inside the lexer count characters; offsets in tokens count bytes.
use crate::text::{
    char_width, chars_of, is_ascii_alphabetic, is_ascii_alphanumeric, is_ascii_digit,
    is_ascii_hexdigit, is_whitespace, str_eq, string_from,
};
use crate::SourceFile;
use vstd::prelude::*;

verus! {

#[derive(Debug, Copy, Clone, PartialEq, Eq, Structural)]
pub enum TokenKind {
    Eof,
    Identifier,
    Number,
    Module,
    Endmodule,
    Input,
    Output,
    Inout,
    Parameter,
    Localparam,
    Wire,
    Reg,
    /// `logic` is accepted as a net type so that declarations are not taken for instances.
    Logic,
    Assign,
    Always,
    Initial,
    Posedge,
    Negedge,
    If,
    Else,
    Begin,
    End,
    Case,
    Endcase,
    Default,
    For,
    Integer,
    Signed,
    Generate,
    Endgenerate,
    Genvar,
    Function,
    Endfunction,
    Task,
    Endtask,
    Casez,
    Casex,
    NonBlockAssign,
    LParen,
    RParen,
    Comma,
    Semicolon,
    LBracket,
    RBracket,
    Colon,
    Hash,
    LBrace,
    RBrace,
    Question,
    Dot,
    Plus,
    Minus,
    Star,
    Slash,
    Percent,
    Amp,
    Pipe,
    Caret,
    Tilde,
    Lt,
    Gt,
    Le,
    Ge,
    EqEq,
    Ne,
    Shl,
    Shr,
    Ashr,
    LogAnd,
    LogOr,
    Bang,
    Eq,
    At,
    Other,
}

#[derive(Debug, Clone)]
pub struct Token {
    pub kind: TokenKind,
    pub lexeme: String,
    pub offset: usize,
    /// Exclusive end byte offset; equals `offset` for the end of input.
    pub end: usize,
}

/// Model of [`Token`].
pub ghost struct TokenM {
    pub kind: TokenKind,
    pub lexeme: Seq<char>,
    pub offset: nat,
    pub end: nat,
}

impl Token {
    pub open spec fn view(&self) -> TokenM {
        TokenM {
            kind: self.kind,
            lexeme: self.lexeme@,
            offset: self.offset as nat,
            end: self.end as nat,
        }
    }

    /// Byte range of the token.
    pub fn span_range(&self) -> (r: (u32, u32))
        ensures
            r == (self.offset as u32, self.end as u32),
    {
        (self.offset as u32, self.end as u32)
    }
}

/// Views of a list of tokens.
pub open spec fn tokens_view(s: Seq<Token>) -> Seq<TokenM> {
    Seq::new(s.len(), |i: int| s[i]@)
}

/// The kind of a word: a keyword, or an identifier.
pub open spec fn word_kind(text: Seq<char>) -> TokenKind {
    if text == "module"@ {
        TokenKind::Module
    } else if text == "endmodule"@ {
        TokenKind::Endmodule
    } else if text == "input"@ {
        TokenKind::Input
    } else if text == "output"@ {
        TokenKind::Output
    } else if text == "inout"@ {
        TokenKind::Inout
    } else if text == "parameter"@ {
        TokenKind::Parameter
    } else if text == "localparam"@ {
        TokenKind::Localparam
    } else if text == "wire"@ {
        TokenKind::Wire
    } else if text == "reg"@ {
        TokenKind::Reg
    } else if text == "logic"@ {
        TokenKind::Logic
    } else if text == "assign"@ {
        TokenKind::Assign
    } else if text == "always"@ {
        TokenKind::Always
    } else if text == "initial"@ {
        TokenKind::Initial
    } else if text == "posedge"@ {
        TokenKind::Posedge
    } else if text == "negedge"@ {
        TokenKind::Negedge
    } else if text == "if"@ {
        TokenKind::If
    } else if text == "else"@ {
        TokenKind::Else
    } else if text == "begin"@ {
        TokenKind::Begin
    } else if text == "end"@ {
        TokenKind::End
    } else if text == "case"@ {
        TokenKind::Case
    } else if text == "endcase"@ {
        TokenKind::Endcase
    } else if text == "default"@ {
        TokenKind::Default
    } else if text == "for"@ {
        TokenKind::For
    } else if text == "integer"@ {
        TokenKind::Integer
    } else if text == "signed"@ {
        TokenKind::Signed
    } else if text == "generate"@ {
        TokenKind::Generate
    } else if text == "endgenerate"@ {
        TokenKind::Endgenerate
    } else if text == "genvar"@ {
        TokenKind::Genvar
    } else if text == "function"@ {
        TokenKind::Function
    } else if text == "endfunction"@ {
        TokenKind::Endfunction
    } else if text == "task"@ {
        TokenKind::Task
    } else if text == "endtask"@ {
        TokenKind::Endtask
    } else if text == "casez"@ {
        TokenKind::Casez
    } else if text == "casex"@ {
        TokenKind::Casex
    } else {
        TokenKind::Identifier
    }
}

fn keyword_or_identifier(text: &str) -> (r: TokenKind)
    ensures
        r == word_kind(text@),
{
    if str_eq(text, "module") {
        TokenKind::Module
    } else if str_eq(text, "endmodule") {
        TokenKind::Endmodule
    } else if str_eq(text, "input") {
        TokenKind::Input
    } else if str_eq(text, "output") {
        TokenKind::Output
    } else if str_eq(text, "inout") {
        TokenKind::Inout
    } else if str_eq(text, "parameter") {
        TokenKind::Parameter
    } else if str_eq(text, "localparam") {
        TokenKind::Localparam
    } else if str_eq(text, "wire") {
        TokenKind::Wire
    } else if str_eq(text, "reg") {
        TokenKind::Reg
    } else if str_eq(text, "logic") {
        TokenKind::Logic
    } else if str_eq(text, "assign") {
        TokenKind::Assign
    } else if str_eq(text, "always") {
        TokenKind::Always
    } else if str_eq(text, "initial") {
        TokenKind::Initial
    } else if str_eq(text, "posedge") {
        TokenKind::Posedge
    } else if str_eq(text, "negedge") {
        TokenKind::Negedge
    } else if str_eq(text, "if") {
        TokenKind::If
    } else if str_eq(text, "else") {
        TokenKind::Else
    } else if str_eq(text, "begin") {
        TokenKind::Begin
    } else if str_eq(text, "end") {
        TokenKind::End
    } else if str_eq(text, "case") {
        TokenKind::Case
    } else if str_eq(text, "endcase") {
        TokenKind::Endcase
    } else if str_eq(text, "default") {
        TokenKind::Default
    } else if str_eq(text, "for") {
        TokenKind::For
    } else if str_eq(text, "integer") {
        TokenKind::Integer
    } else if str_eq(text, "signed") {
        TokenKind::Signed
    } else if str_eq(text, "generate") {
        TokenKind::Generate
    } else if str_eq(text, "endgenerate") {
        TokenKind::Endgenerate
    } else if str_eq(text, "genvar") {
        TokenKind::Genvar
    } else if str_eq(text, "function") {
        TokenKind::Function
    } else if str_eq(text, "endfunction") {
        TokenKind::Endfunction
    } else if str_eq(text, "task") {
        TokenKind::Task
    } else if str_eq(text, "endtask") {
        TokenKind::Endtask
    } else if str_eq(text, "casez") {
        TokenKind::Casez
    } else if str_eq(text, "casex") {
        TokenKind::Casex
    } else {
        TokenKind::Identifier
    }
}

/// Classes of characters that continue a token.
#[derive(Debug, Copy, Clone, PartialEq, Eq, Structural)]
pub enum Class {
    /// Identifiers and keywords.
    Word,
    /// Numbers that begin with a digit, such as `8'b1???_????`.
    Number,
    Binary,
    Decimal,
    Hex,
    Octal,
}

/// `c` is one of the digits x and z, which stand for an unknown and a floating bit, or
/// the wildcard.
pub open spec fn is_xz(c: char) -> bool {
    c == 'x' || c == 'X' || c == 'z' || c == 'Z' || c == '?'
}

pub open spec fn in_class(c: char, class: Class) -> bool {
    match class {
        Class::Word => crate::text::is_alnum(c) || c == '_' || c == '$',
        Class::Number => crate::text::is_alnum(c) || c == '\'' || c == '_' || c == '?',
        Class::Binary => c == '0' || c == '1' || c == '_' || is_xz(c),
        Class::Decimal => crate::text::is_digit(c) || c == '_',
        Class::Hex => crate::text::is_hex_digit(c) || c == '_' || is_xz(c),
        Class::Octal => '0' <= c <= '7' || c == '_',
    }
}

fn continues(c: char, class: Class) -> (r: bool)
    ensures
        r == in_class(c, class),
{
    match class {
        Class::Word => is_ascii_alphanumeric(c) || c == '_' || c == '$',
        Class::Number => is_ascii_alphanumeric(c) || c == '\'' || c == '_' || c == '?',
        Class::Binary => c == '0' || c == '1' || c == '_' || c == 'x' || c == 'X' || c == 'z' || c
            == 'Z' || c == '?',
        Class::Decimal => is_ascii_digit(c) || c == '_',
        Class::Hex => is_ascii_hexdigit(c) || c == '_' || c == 'x' || c == 'X' || c == 'z' || c
            == 'Z' || c == '?',
        Class::Octal => ('0' <= c && c <= '7') || c == '_',
    }
}

/// End of the longest run of characters of the class that starts at `i`.
pub open spec fn run_end(s: Seq<char>, i: int, class: Class) -> int
    decreases s.len() - i,
{
    if 0 <= i < s.len() && in_class(s[i], class) {
        run_end(s, i + 1, class)
    } else {
        i
    }
}

fn scan_run(chars: &Vec<char>, from: usize, class: Class) -> (end: usize)
    requires
        from <= chars@.len(),
    ensures
        end == run_end(chars@, from as int, class),
        from <= end <= chars@.len(),
{
    let mut i: usize = from;
    while i < chars.len() && continues(chars[i], class)
        invariant
            from <= i <= chars@.len(),
            run_end(chars@, i as int, class) == run_end(chars@, from as int, class),
        decreases chars@.len() - i,
    {
        i = i + 1;
    }
    i
}

/// End of a line comment whose text starts at `i`: past the next newline.
pub open spec fn line_comment_end(s: Seq<char>, i: int) -> int
    decreases s.len() - i,
{
    if 0 <= i < s.len() {
        if s[i] == '\n' {
            i + 1
        } else {
            line_comment_end(s, i + 1)
        }
    } else {
        i
    }
}

fn skip_line_comment(chars: &Vec<char>, from: usize) -> (end: usize)
    requires
        from <= chars@.len(),
    ensures
        end == line_comment_end(chars@, from as int),
        from <= end <= chars@.len(),
{
    let mut i: usize = from;
    while i < chars.len()
        invariant
            from <= i <= chars@.len(),
            line_comment_end(chars@, i as int) == line_comment_end(chars@, from as int),
        decreases chars@.len() - i,
    {
        if chars[i] == '\n' {
            return i + 1;
        }
        i = i + 1;
    }
    i
}

/// End of a block comment whose text starts at `i`: past the next `*/`, or the end of
/// the input.
pub open spec fn block_comment_end(s: Seq<char>, i: int) -> int
    decreases s.len() - i,
{
    if 0 <= i < s.len() {
        if s[i] == '*' && i + 1 < s.len() && s[i + 1] == '/' {
            i + 2
        } else {
            block_comment_end(s, i + 1)
        }
    } else {
        i
    }
}

fn skip_block_comment(chars: &Vec<char>, from: usize) -> (end: usize)
    requires
        from <= chars@.len(),
    ensures
        end == block_comment_end(chars@, from as int),
        from <= end <= chars@.len(),
{
    let mut i: usize = from;
    while i < chars.len()
        invariant
            from <= i <= chars@.len(),
            block_comment_end(chars@, i as int) == block_comment_end(chars@, from as int),
        decreases chars@.len() - i,
    {
        if chars[i] == '*' && at_char(chars, i, 1, '/') {
            return i + 2;
        }
        i = i + 1;
    }
    i
}

/// End of the white space or comment at `i`; `i` itself where there is none.
pub open spec fn blank_end(s: Seq<char>, i: int) -> int {
    if 0 <= i < s.len() {
        if crate::text::is_space(s[i]) {
            i + 1
        } else if s[i] == '/' && i + 1 < s.len() && s[i + 1] == '/' {
            line_comment_end(s, i + 2)
        } else if s[i] == '/' && i + 1 < s.len() && s[i + 1] == '*' {
            block_comment_end(s, i + 2)
        } else {
            i
        }
    } else {
        i
    }
}

fn skip_blank(chars: &Vec<char>, i: usize) -> (end: usize)
    requires
        i < chars@.len(),
    ensures
        end == blank_end(chars@, i as int),
        i <= end <= chars@.len(),
{
    assert(chars@.len() == chars.len());
    if is_whitespace(chars[i]) {
        i + 1
    } else if chars[i] == '/' && at_char(chars, i, 1, '/') {
        skip_line_comment(chars, i + 2)
    } else if chars[i] == '/' && at_char(chars, i, 1, '*') {
        skip_block_comment(chars, i + 2)
    } else {
        i
    }
}

/// The kind of a token of one character.
pub open spec fn symbol_kind(c: char) -> TokenKind {
    match c {
        '(' => TokenKind::LParen,
        ')' => TokenKind::RParen,
        ',' => TokenKind::Comma,
        ';' => TokenKind::Semicolon,
        '[' => TokenKind::LBracket,
        ']' => TokenKind::RBracket,
        ':' => TokenKind::Colon,
        '#' => TokenKind::Hash,
        '{' => TokenKind::LBrace,
        '}' => TokenKind::RBrace,
        '?' => TokenKind::Question,
        '.' => TokenKind::Dot,
        '@' => TokenKind::At,
        '+' => TokenKind::Plus,
        '-' => TokenKind::Minus,
        '*' => TokenKind::Star,
        '%' => TokenKind::Percent,
        '^' => TokenKind::Caret,
        '~' => TokenKind::Tilde,
        '/' => TokenKind::Slash,
        '=' => TokenKind::Eq,
        '!' => TokenKind::Bang,
        '<' => TokenKind::Lt,
        '>' => TokenKind::Gt,
        '&' => TokenKind::Amp,
        '|' => TokenKind::Pipe,
        _ => TokenKind::Other,
    }
}

fn single_symbol(c: char) -> (r: TokenKind)
    ensures
        r == symbol_kind(c),
{
    match c {
        '(' => TokenKind::LParen,
        ')' => TokenKind::RParen,
        ',' => TokenKind::Comma,
        ';' => TokenKind::Semicolon,
        '[' => TokenKind::LBracket,
        ']' => TokenKind::RBracket,
        ':' => TokenKind::Colon,
        '#' => TokenKind::Hash,
        '{' => TokenKind::LBrace,
        '}' => TokenKind::RBrace,
        '?' => TokenKind::Question,
        '.' => TokenKind::Dot,
        '@' => TokenKind::At,
        '+' => TokenKind::Plus,
        '-' => TokenKind::Minus,
        '*' => TokenKind::Star,
        '%' => TokenKind::Percent,
        '^' => TokenKind::Caret,
        '~' => TokenKind::Tilde,
        '/' => TokenKind::Slash,
        '=' => TokenKind::Eq,
        '!' => TokenKind::Bang,
        '<' => TokenKind::Lt,
        '>' => TokenKind::Gt,
        '&' => TokenKind::Amp,
        '|' => TokenKind::Pipe,
        _ => TokenKind::Other,
    }
}

/// The class of the digits after the base letter of an unsized literal.
pub open spec fn base_class(c: char) -> Option<Class> {
    if c == 'b' || c == 'B' {
        Some(Class::Binary)
    } else if c == 'd' || c == 'D' {
        Some(Class::Decimal)
    } else if c == 'h' || c == 'H' {
        Some(Class::Hex)
    } else if c == 'o' || c == 'O' {
        Some(Class::Octal)
    } else {
        None
    }
}

fn class_of_base(c: char) -> (r: Option<Class>)
    ensures
        r == base_class(c),
{
    if c == 'b' || c == 'B' {
        Some(Class::Binary)
    } else if c == 'd' || c == 'D' {
        Some(Class::Decimal)
    } else if c == 'h' || c == 'H' {
        Some(Class::Hex)
    } else if c == 'o' || c == 'O' {
        Some(Class::Octal)
    } else {
        None
    }
}

/// `s[i]` is the character `c`.
pub open spec fn char_is(s: Seq<char>, i: int, c: char) -> bool {
    0 <= i < s.len() && s[i] == c
}

/// Whether the character `d` places after `i` is `c`.
fn at_char(chars: &Vec<char>, i: usize, d: usize, c: char) -> (r: bool)
    requires
        i < chars@.len(),
    ensures
        r == char_is(chars@, i + d, c),
{
    d < chars.len() - i && chars[i + d] == c
}

/// Kind and end of the operator or punctuation at `i`; the longest match counts.
pub open spec fn symbol_at(s: Seq<char>, i: int) -> (TokenKind, int) {
    let c = s[i];
    if c == '=' && char_is(s, i + 1, '=') {
        (TokenKind::EqEq, i + 2)
    } else if c == '!' && char_is(s, i + 1, '=') {
        (TokenKind::Ne, i + 2)
    } else if c == '<' && char_is(s, i + 1, '<') {
        (TokenKind::Shl, i + 2)
    } else if c == '<' && char_is(s, i + 1, '=') {
        (TokenKind::Le, i + 2)
    } else if c == '>' && char_is(s, i + 1, '>') && char_is(s, i + 2, '>') {
        (TokenKind::Ashr, i + 3)
    } else if c == '>' && char_is(s, i + 1, '>') {
        (TokenKind::Shr, i + 2)
    } else if c == '>' && char_is(s, i + 1, '=') {
        (TokenKind::Ge, i + 2)
    } else if c == '&' && char_is(s, i + 1, '&') {
        (TokenKind::LogAnd, i + 2)
    } else if c == '|' && char_is(s, i + 1, '|') {
        (TokenKind::LogOr, i + 2)
    } else {
        (symbol_kind(c), i + 1)
    }
}

fn scan_symbol(chars: &Vec<char>, i: usize) -> (r: (TokenKind, usize))
    requires
        i < chars@.len(),
    ensures
        (r.0, r.1 as int) == symbol_at(chars@, i as int),
        i < r.1 <= chars@.len(),
{
    let c = chars[i];
    assert(chars@.len() == chars.len());
    if c == '=' && at_char(chars, i, 1, '=') {
        (TokenKind::EqEq, i + 2)
    } else if c == '!' && at_char(chars, i, 1, '=') {
        (TokenKind::Ne, i + 2)
    } else if c == '<' && at_char(chars, i, 1, '<') {
        (TokenKind::Shl, i + 2)
    } else if c == '<' && at_char(chars, i, 1, '=') {
        (TokenKind::Le, i + 2)
    } else if c == '>' && at_char(chars, i, 1, '>') {
        if at_char(chars, i, 2, '>') {
            (TokenKind::Ashr, i + 3)
        } else {
            (TokenKind::Shr, i + 2)
        }
    } else if c == '>' && at_char(chars, i, 1, '=') {
        (TokenKind::Ge, i + 2)
    } else if c == '&' && at_char(chars, i, 1, '&') {
        (TokenKind::LogAnd, i + 2)
    } else if c == '|' && at_char(chars, i, 1, '|') {
        (TokenKind::LogOr, i + 2)
    } else {
        (single_symbol(c), i + 1)
    }
}

/// Kind and end of the token at `i`, where neither white space nor a comment starts.
pub open spec fn token_at(s: Seq<char>, i: int) -> (TokenKind, int) {
    let c = s[i];
    if crate::text::is_alpha(c) || c == '_' || c == '$' {
        let end = run_end(s, i + 1, Class::Word);
        (word_kind(s.subrange(i, end)), end)
    } else if crate::text::is_digit(c) {
        (TokenKind::Number, run_end(s, i + 1, Class::Number))
    } else if c == '\'' {
        if i + 1 < s.len() && base_class(s[i + 1]) is Some {
            (TokenKind::Number, run_end(s, i + 2, base_class(s[i + 1])->0))
        } else {
            (TokenKind::Other, i + 1)
        }
    } else {
        symbol_at(s, i)
    }
}

fn scan_token(chars: &Vec<char>, i: usize) -> (r: (TokenKind, usize))
    requires
        i < chars@.len(),
    ensures
        (r.0, r.1 as int) == token_at(chars@, i as int),
        i < r.1 <= chars@.len(),
{
    let c = chars[i];
    assert(chars@.len() == chars.len());
    if is_ascii_alphabetic(c) || c == '_' || c == '$' {
        let end = scan_run(chars, i + 1, Class::Word);
        let text = string_from(chars, i, end);
        (keyword_or_identifier(text.as_str()), end)
    } else if is_ascii_digit(c) {
        (TokenKind::Number, scan_run(chars, i + 1, Class::Number))
    } else if c == '\'' {
        if chars.len() - i > 1 {
            if let Some(class) = class_of_base(chars[i + 1]) {
                return (TokenKind::Number, scan_run(chars, i + 2, class));
            }
        }
        (TokenKind::Other, i + 1)
    } else {
        scan_symbol(chars, i)
    }
}

/// The tokens of `s` from character `i` on, the end of input last.
pub open spec fn lex_from(s: Seq<char>, i: int) -> Seq<TokenM>
    decreases s.len() - i,
    when 0 <= i <= s.len()
    via lex_from_decreases
{
    if i >= s.len() {
        let n = crate::text::byte_len(s);
        seq![TokenM { kind: TokenKind::Eof, lexeme: Seq::empty(), offset: n, end: n }]
    } else if blank_end(s, i) > i {
        lex_from(s, blank_end(s, i))
    } else {
        let (kind, end) = token_at(s, i);
        seq![
            TokenM {
                kind,
                lexeme: s.subrange(i, end),
                offset: crate::text::byte_len(s.take(i)),
                end: crate::text::byte_len(s.take(end)),
            },
        ] + lex_from(s, end)
    }
}

#[via_fn]
pub proof fn lex_from_decreases(s: Seq<char>, i: int) {
    if i < s.len() {
        lemma_blank_end(s, i);
        if blank_end(s, i) <= i {
            lemma_token_at(s, i);
        }
    }
}

proof fn lemma_run_end(s: Seq<char>, i: int, class: Class)
    requires
        0 <= i <= s.len(),
    ensures
        i <= run_end(s, i, class) <= s.len(),
    decreases s.len() - i,
{
    if i < s.len() && in_class(s[i], class) {
        lemma_run_end(s, i + 1, class);
    }
}

proof fn lemma_line_comment_end(s: Seq<char>, i: int)
    requires
        0 <= i <= s.len(),
    ensures
        i <= line_comment_end(s, i) <= s.len(),
    decreases s.len() - i,
{
    if i < s.len() && s[i] != '\n' {
        lemma_line_comment_end(s, i + 1);
    }
}

proof fn lemma_block_comment_end(s: Seq<char>, i: int)
    requires
        0 <= i <= s.len(),
    ensures
        i <= block_comment_end(s, i) <= s.len(),
    decreases s.len() - i,
{
    if i < s.len() && !(s[i] == '*' && i + 1 < s.len() && s[i + 1] == '/') {
        lemma_block_comment_end(s, i + 1);
    }
}

pub proof fn lemma_blank_end(s: Seq<char>, i: int)
    requires
        0 <= i < s.len(),
    ensures
        i <= blank_end(s, i) <= s.len(),
{
    if i + 1 < s.len() {
        lemma_line_comment_end(s, i + 2);
        lemma_block_comment_end(s, i + 2);
    }
}

pub proof fn lemma_token_at(s: Seq<char>, i: int)
    requires
        0 <= i < s.len(),
    ensures
        i < token_at(s, i).1 <= s.len(),
{
    lemma_run_end(s, i + 1, Class::Word);
    lemma_run_end(s, i + 1, Class::Number);
    if i + 1 < s.len() && base_class(s[i + 1]) is Some {
        lemma_run_end(s, i + 2, base_class(s[i + 1])->0);
    }
}

/// The tokens of a text.
pub open spec fn lexed(s: Seq<char>) -> Seq<TokenM> {
    lex_from(s, 0)
}

/// Byte offset of character `to`, given that of character `from`.
fn advance(chars: &Vec<char>, from: usize, to: usize, offset: usize) -> (r: usize)
    requires
        from <= to <= chars@.len(),
        offset == crate::text::byte_len(chars@.take(from as int)),
        crate::text::byte_len(chars@) <= usize::MAX,
    ensures
        r == crate::text::byte_len(chars@.take(to as int)),
{
    let mut i: usize = from;
    let mut at: usize = offset;
    while i < to
        invariant
            from <= i <= to <= chars@.len(),
            at == crate::text::byte_len(chars@.take(i as int)),
            crate::text::byte_len(chars@) <= usize::MAX,
        decreases to - i,
    {
        proof {
            crate::text::lemma_byte_len_prefix(chars@, i as int);
        }
        at = at + char_width(chars[i]);
        i = i + 1;
    }
    at
}

/// Lexes the contents of a [`SourceFile`] into a flat list of tokens.
pub fn lex(file: &SourceFile) -> (tokens: Vec<Token>)
    ensures
        tokens_view(tokens@) == lexed(file.content@),
{
    let chars = chars_of(file.content.as_str());
    let bytes = file.content.as_str().as_bytes();
    let total: usize = bytes.len();
    proof {
        crate::text::lemma_byte_len(chars@);
    }
    let mut tokens: Vec<Token> = Vec::new();
    let mut i: usize = 0;
    let mut offset: usize = 0;
    assert(chars@.take(0) =~= Seq::empty());
    assert(tokens_view(tokens@) + lex_from(chars@, 0) =~= lex_from(chars@, 0));
    while i < chars.len()
        invariant
            i <= chars@.len(),
            offset == crate::text::byte_len(chars@.take(i as int)),
            total == crate::text::byte_len(chars@),
            tokens_view(tokens@) + lex_from(chars@, i as int) == lex_from(chars@, 0),
        decreases chars@.len() - i,
    {
        let after = skip_blank(&chars, i);
        if after > i {
            offset = advance(&chars, i, after, offset);
            i = after;
        } else {
            let (kind, end) = scan_token(&chars, i);
            let end_offset = advance(&chars, i, end, offset);
            let token = Token {
                kind,
                lexeme: string_from(&chars, i, end),
                offset,
                end: end_offset,
            };
            let ghost before = tokens_view(tokens@);
            tokens.push(token);
            proof {
                assert(tokens_view(tokens@) =~= before.push(token@));
                assert(before.push(token@) + lex_from(chars@, end as int) =~= before + (seq![
                    token@,
                ] + lex_from(chars@, end as int)));
            }
            i = end;
            offset = end_offset;
        }
    }
    let ghost before = tokens_view(tokens@);
    let eof = Token { kind: TokenKind::Eof, lexeme: String::new(), offset: total, end: total };
    tokens.push(eof);
    proof {
        assert(tokens_view(tokens@) =~= before.push(eof@));
        assert(before.push(eof@) =~= before + lex_from(chars@, i as int));
    }
    tokens
}

// ---------------------------------------------------------------------------------------
// Laws
// ---------------------------------------------------------------------------------------
/// Token `t` is a non-empty piece of `s` in place: its lexeme stands between its offsets.
pub open spec fn in_place(s: Seq<char>, t: TokenM) -> bool {
    exists|i: int, j: int|
        0 <= i < j <= s.len() && t.lexeme == #[trigger] s.subrange(i, j) && t.offset
            == crate::text::byte_len(s.take(i)) && t.end == crate::text::byte_len(s.take(j))
}

/// The characters `[a, b)` are white space and whole comments.
pub open spec fn only_blanks(s: Seq<char>, a: int, b: int) -> bool
    decreases s.len() - a,
{
    if a >= b || !(a < blank_end(s, a) <= s.len()) {
        a == b
    } else {
        only_blanks(s, blank_end(s, a), b)
    }
}

/// From character `a` to byte offset `to` there is nothing but white space and comments.
pub open spec fn blank_until(s: Seq<char>, a: int, to: nat) -> bool {
    exists|b: int|
        a <= b <= s.len() && #[trigger] only_blanks(s, a, b) && to == crate::text::byte_len(
            s.take(b),
        )
}

/// Between two byte offsets there is nothing but white space and comments.
pub open spec fn blank_between(s: Seq<char>, from: nat, to: nat) -> bool {
    exists|a: int|
        0 <= a <= s.len() && from == crate::text::byte_len(s.take(a)) && #[trigger] blank_until(
            s,
            a,
            to,
        )
}

/// Between token `k` of a text and the one before there is nothing but white space and
/// comments.
pub open spec fn gap_is_blank(s: Seq<char>, toks: Seq<TokenM>, k: int) -> bool {
    blank_between(s, toks[k - 1].end, toks[k].offset)
}

/// The list of tokens of a text ends with exactly one end-of-input token, at the end of
/// the text, and all others are non-empty pieces of the text in place and in order.
pub proof fn law_tokens_in_order(s: Seq<char>)
    ensures
        lexed(s).len() > 0,
        lexed(s).last() == (TokenM {
            kind: TokenKind::Eof,
            lexeme: Seq::<char>::empty(),
            offset: crate::text::byte_len(s),
            end: crate::text::byte_len(s),
        }),
        forall|k: int| 0 <= k < lexed(s).len() - 1 ==> in_place(s, #[trigger] lexed(s)[k]),
        forall|k: int|
            0 <= k < lexed(s).len() - 1 ==> (#[trigger] lexed(s)[k]).kind != TokenKind::Eof,
        forall|k: int, l: int|
            0 <= k < l < lexed(s).len() ==> (#[trigger] lexed(s)[k]).end <= (
            #[trigger] lexed(s)[l]).offset,
{
    lemma_tokens_from(s, 0);
}

/// What is no token of a text is white space or a comment: in front of the first token, and
/// between any token and the next.
pub proof fn law_only_blanks_between_tokens(s: Seq<char>)
    ensures
        lexed(s).len() > 0,
        blank_between(s, 0, lexed(s)[0].offset),
        forall|k: int| 0 < k < lexed(s).len() ==> #[trigger] gap_is_blank(s, lexed(s), k),
{
    lemma_gaps_from(s, 0);
    assert(s.take(0) =~= Seq::empty());
    assert(blank_until(s, 0, lexed(s)[0].offset));
}

proof fn lemma_gaps_from(s: Seq<char>, i: int)
    requires
        0 <= i <= s.len(),
    ensures
        lex_from(s, i).len() > 0,
        blank_until(s, i, lex_from(s, i)[0].offset),
        forall|k: int|
            0 < k < lex_from(s, i).len() ==> #[trigger] gap_is_blank(s, lex_from(s, i), k),
    decreases s.len() - i,
{
    if i >= s.len() {
        assert(s.take(i) =~= s);
        assert(only_blanks(s, i, i));
    } else {
        lemma_blank_end(s, i);
        if blank_end(s, i) > i {
            let j = blank_end(s, i);
            lemma_gaps_from(s, j);
            let to = lex_from(s, j)[0].offset;
            let b = choose|b: int|
                j <= b <= s.len() && #[trigger] only_blanks(s, j, b) && to
                    == crate::text::byte_len(s.take(b));
            assert(only_blanks(s, i, b));
        } else {
            lemma_token_at(s, i);
            let j = token_at(s, i).1;
            lemma_gaps_from(s, j);
            let rest = lex_from(s, j);
            let all = lex_from(s, i);
            assert(all =~= seq![all[0]] + rest);
            assert(only_blanks(s, i, i));
            assert(blank_until(s, i, all[0].offset));
            assert forall|k: int| 0 < k < all.len() implies #[trigger] gap_is_blank(s, all, k) by {
                assert(all[k] == rest[k - 1]);
                if k == 1 {
                    assert(blank_until(s, j, rest[0].offset));
                } else {
                    assert(gap_is_blank(s, rest, k - 1));
                    assert(all[k - 1] == rest[k - 2]);
                }
            }
        }
    }
}

proof fn lemma_tokens_from(s: Seq<char>, i: int)
    requires
        0 <= i <= s.len(),
    ensures
        lex_from(s, i).len() > 0,
        lex_from(s, i).last() == (TokenM {
            kind: TokenKind::Eof,
            lexeme: Seq::<char>::empty(),
            offset: crate::text::byte_len(s),
            end: crate::text::byte_len(s),
        }),
        forall|k: int| 0 <= k < lex_from(s, i).len() - 1 ==> in_place(s, #[trigger] lex_from(s, i)[k]),
        forall|k: int|
            0 <= k < lex_from(s, i).len() - 1 ==> (#[trigger] lex_from(s, i)[k]).kind
                != TokenKind::Eof,
        forall|k: int|
            0 <= k < lex_from(s, i).len() ==> (#[trigger] lex_from(s, i)[k]).offset
                >= crate::text::byte_len(s.take(i)),
        forall|k: int, l: int|
            0 <= k < l < lex_from(s, i).len() ==> (#[trigger] lex_from(s, i)[k]).end <= (
            #[trigger] lex_from(s, i)[l]).offset,
    decreases s.len() - i,
{
    crate::text::lemma_byte_len_prefix(s, i);
    if i < s.len() {
        lemma_blank_end(s, i);
        if blank_end(s, i) > i {
            let j = blank_end(s, i);
            lemma_tokens_from(s, j);
            lemma_byte_len_order(s, i, j);
        } else {
            lemma_token_at(s, i);
            let (kind, j) = token_at(s, i);
            lemma_tokens_from(s, j);
            lemma_byte_len_order(s, i, j);
            let t = lex_from(s, i)[0];
            let rest = lex_from(s, j);
            let all = lex_from(s, i);
            assert(all =~= seq![t] + rest);
            assert(t.lexeme == s.subrange(i, j));
            assert(in_place(s, t));
            assert(kind != TokenKind::Eof);
            assert forall|k: int| 1 <= k < all.len() implies #[trigger] all[k] == rest[k - 1] by {}
        }
    }
}

proof fn lemma_byte_len_order(s: Seq<char>, i: int, j: int)
    requires
        0 <= i <= j <= s.len(),
    ensures
        crate::text::byte_len(s.take(i)) <= crate::text::byte_len(s.take(j)),
{
    assert(s.take(j).take(i) == s.take(i));
    crate::text::lemma_byte_len_prefix(s.take(j), i);
}

} // verus!
