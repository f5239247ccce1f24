//! Laws: how a text falls into tokens.
use crate::lexer::{TokenKind, TokenM};
use vstd::prelude::*;

verus! {

/// How a keyword is spelled; nothing for every other kind of token.
pub open spec fn keyword(k: TokenKind) -> Seq<char> {
    match k {
        TokenKind::Module => "module"@,
        TokenKind::Endmodule => "endmodule"@,
        TokenKind::Input => "input"@,
        TokenKind::Output => "output"@,
        TokenKind::Inout => "inout"@,
        TokenKind::Parameter => "parameter"@,
        TokenKind::Localparam => "localparam"@,
        TokenKind::Wire => "wire"@,
        TokenKind::Reg => "reg"@,
        TokenKind::Logic => "logic"@,
        TokenKind::Assign => "assign"@,
        TokenKind::Always => "always"@,
        TokenKind::Initial => "initial"@,
        TokenKind::Posedge => "posedge"@,
        TokenKind::Negedge => "negedge"@,
        TokenKind::If => "if"@,
        TokenKind::Else => "else"@,
        TokenKind::Begin => "begin"@,
        TokenKind::End => "end"@,
        TokenKind::Case => "case"@,
        TokenKind::Endcase => "endcase"@,
        TokenKind::Default => "default"@,
        TokenKind::For => "for"@,
        TokenKind::Integer => "integer"@,
        TokenKind::Signed => "signed"@,
        TokenKind::Generate => "generate"@,
        TokenKind::Endgenerate => "endgenerate"@,
        TokenKind::Genvar => "genvar"@,
        TokenKind::Function => "function"@,
        TokenKind::Endfunction => "endfunction"@,
        TokenKind::Task => "task"@,
        TokenKind::Endtask => "endtask"@,
        TokenKind::Casez => "casez"@,
        TokenKind::Casex => "casex"@,
        _ => Seq::empty(),
    }
}

/// How an operator or a piece of punctuation is spelled; nothing for every other kind of
/// token.
pub open spec fn glyph(k: TokenKind) -> Seq<char> {
    match k {
        TokenKind::LParen => seq!['('],
        TokenKind::RParen => seq![')'],
        TokenKind::Comma => seq![','],
        TokenKind::Semicolon => seq![';'],
        TokenKind::LBracket => seq!['['],
        TokenKind::RBracket => seq![']'],
        TokenKind::Colon => seq![':'],
        TokenKind::Hash => seq!['#'],
        TokenKind::LBrace => seq!['{'],
        TokenKind::RBrace => seq!['}'],
        TokenKind::Question => seq!['?'],
        TokenKind::Dot => seq!['.'],
        TokenKind::At => seq!['@'],
        TokenKind::Plus => seq!['+'],
        TokenKind::Minus => seq!['-'],
        TokenKind::Star => seq!['*'],
        TokenKind::Percent => seq!['%'],
        TokenKind::Caret => seq!['^'],
        TokenKind::Tilde => seq!['~'],
        TokenKind::Slash => seq!['/'],
        TokenKind::Eq => seq!['='],
        TokenKind::Bang => seq!['!'],
        TokenKind::Lt => seq!['<'],
        TokenKind::Gt => seq!['>'],
        TokenKind::Amp => seq!['&'],
        TokenKind::Pipe => seq!['|'],
        TokenKind::EqEq => seq!['=', '='],
        TokenKind::Ne => seq!['!', '='],
        TokenKind::Shl => seq!['<', '<'],
        TokenKind::Le => seq!['<', '='],
        TokenKind::Shr => seq!['>', '>'],
        TokenKind::Ashr => seq!['>', '>', '>'],
        TokenKind::Ge => seq!['>', '='],
        TokenKind::LogAnd => seq!['&', '&'],
        TokenKind::LogOr => seq!['|', '|'],
        _ => Seq::empty(),
    }
}

pub open spec fn letter(c: char) -> bool {
    'A' <= c <= 'Z' || 'a' <= c <= 'z'
}

pub open spec fn digit(c: char) -> bool {
    '0' <= c <= '9'
}

/// A character that goes on with a word.
pub open spec fn in_word(c: char) -> bool {
    letter(c) || digit(c) || c == '_' || c == '$'
}

/// A character that goes on with a number.
pub open spec fn in_number(c: char) -> bool {
    letter(c) || digit(c) || c == '_' || c == '\'' || c == '?'
}

/// A digit of a based number without a size, or an underscore.
pub open spec fn in_based(c: char, base: char) -> bool {
    let unknown = c == 'x' || c == 'X' || c == 'z' || c == 'Z' || c == '?';
    ||| c == '_'
    ||| (base == 'b' || base == 'B') && (c == '0' || c == '1' || unknown)
    ||| (base == 'o' || base == 'O') && '0' <= c <= '7'
    ||| (base == 'd' || base == 'D') && digit(c)
    ||| (base == 'h' || base == 'H') && (digit(c) || 'A' <= c <= 'F' || 'a' <= c <= 'f'
        || unknown)
}

/// The text at `i` starts with these characters.
pub open spec fn starts(s: Seq<char>, i: int, w: Seq<char>) -> bool {
    &&& i + w.len() <= s.len()
    &&& forall|k: int| 0 <= k < w.len() ==> s[i + k] == #[trigger] w[k]
}

/// These two characters stand at `i`.
pub open spec fn pair(s: Seq<char>, i: int, a: char, b: char) -> bool {
    0 <= i && i + 1 < s.len() && s[i] == a && s[i + 1] == b
}

/// The token of the characters from `i` to `j`.
pub open spec fn piece(s: Seq<char>, i: int, j: int, kind: TokenKind) -> TokenM {
    TokenM {
        kind,
        lexeme: s.subrange(i, j),
        offset: vstd::utf8::encode_utf8(s.take(i)).len(),
        end: vstd::utf8::encode_utf8(s.take(j)).len(),
    }
}

/// The text from `i` on falls into one token up to `j`, and then into what the text from `j`
/// on falls into.
pub open spec fn takes(s: Seq<char>, i: int, j: int, kind: TokenKind) -> bool {
    crate::lexer::lex_from(s, i) == seq![piece(s, i, j, kind)] + crate::lexer::lex_from(s, j)
}

/// Lengths in bytes are those of the text's UTF-8 encoding.
pub proof fn law_byte_length(s: Seq<char>)
    ensures
        crate::text::byte_len(s) == vstd::utf8::encode_utf8(s).len(),
{
    crate::text::lemma_byte_len(s);
}

/// Keywords are told apart by their spelling.
pub proof fn law_keywords(text: Seq<char>, k: TokenKind)
    ensures
        keyword(k).len() > 0 ==> (crate::lexer::word_kind(text) == k <==> text == keyword(k)),
        (forall|l: TokenKind| keyword(l).len() > 0 ==> text != #[trigger] keyword(l)) ==> crate::lexer::word_kind(text) == TokenKind::Identifier,
{
    if crate::lexer::word_kind(text) != TokenKind::Identifier {
        assert(text == keyword(crate::lexer::word_kind(text)));
    }
    reveal_strlit("module");
    assert("module"@[0] == 'm' && "module"@[1] == 'o' && "module"@[2] == 'd' && "module"@[3] == 'u' && "module"@[4] == 'l');
    reveal_strlit("endmodule");
    assert("endmodule"@[0] == 'e' && "endmodule"@[1] == 'n' && "endmodule"@[2] == 'd' && "endmodule"@[3] == 'm' && "endmodule"@[4] == 'o');
    reveal_strlit("input");
    assert("input"@[0] == 'i' && "input"@[1] == 'n' && "input"@[2] == 'p' && "input"@[3] == 'u' && "input"@[4] == 't');
    reveal_strlit("output");
    assert("output"@[0] == 'o' && "output"@[1] == 'u' && "output"@[2] == 't' && "output"@[3] == 'p' && "output"@[4] == 'u');
    reveal_strlit("inout");
    assert("inout"@[0] == 'i' && "inout"@[1] == 'n' && "inout"@[2] == 'o' && "inout"@[3] == 'u' && "inout"@[4] == 't');
    reveal_strlit("parameter");
    assert("parameter"@[0] == 'p' && "parameter"@[1] == 'a' && "parameter"@[2] == 'r' && "parameter"@[3] == 'a' && "parameter"@[4] == 'm');
    reveal_strlit("localparam");
    assert("localparam"@[0] == 'l' && "localparam"@[1] == 'o' && "localparam"@[2] == 'c' && "localparam"@[3] == 'a' && "localparam"@[4] == 'l');
    reveal_strlit("wire");
    assert("wire"@[0] == 'w' && "wire"@[1] == 'i' && "wire"@[2] == 'r' && "wire"@[3] == 'e');
    reveal_strlit("reg");
    assert("reg"@[0] == 'r' && "reg"@[1] == 'e' && "reg"@[2] == 'g');
    reveal_strlit("logic");
    assert("logic"@[0] == 'l' && "logic"@[1] == 'o' && "logic"@[2] == 'g' && "logic"@[3] == 'i' && "logic"@[4] == 'c');
    reveal_strlit("assign");
    assert("assign"@[0] == 'a' && "assign"@[1] == 's' && "assign"@[2] == 's' && "assign"@[3] == 'i' && "assign"@[4] == 'g');
    reveal_strlit("always");
    assert("always"@[0] == 'a' && "always"@[1] == 'l' && "always"@[2] == 'w' && "always"@[3] == 'a' && "always"@[4] == 'y');
    reveal_strlit("initial");
    assert("initial"@[0] == 'i' && "initial"@[1] == 'n' && "initial"@[2] == 'i' && "initial"@[3] == 't' && "initial"@[4] == 'i');
    reveal_strlit("posedge");
    assert("posedge"@[0] == 'p' && "posedge"@[1] == 'o' && "posedge"@[2] == 's' && "posedge"@[3] == 'e' && "posedge"@[4] == 'd');
    reveal_strlit("negedge");
    assert("negedge"@[0] == 'n' && "negedge"@[1] == 'e' && "negedge"@[2] == 'g' && "negedge"@[3] == 'e' && "negedge"@[4] == 'd');
    reveal_strlit("if");
    assert("if"@[0] == 'i' && "if"@[1] == 'f');
    reveal_strlit("else");
    assert("else"@[0] == 'e' && "else"@[1] == 'l' && "else"@[2] == 's' && "else"@[3] == 'e');
    reveal_strlit("begin");
    assert("begin"@[0] == 'b' && "begin"@[1] == 'e' && "begin"@[2] == 'g' && "begin"@[3] == 'i' && "begin"@[4] == 'n');
    reveal_strlit("end");
    assert("end"@[0] == 'e' && "end"@[1] == 'n' && "end"@[2] == 'd');
    reveal_strlit("case");
    assert("case"@[0] == 'c' && "case"@[1] == 'a' && "case"@[2] == 's' && "case"@[3] == 'e');
    reveal_strlit("endcase");
    assert("endcase"@[0] == 'e' && "endcase"@[1] == 'n' && "endcase"@[2] == 'd' && "endcase"@[3] == 'c' && "endcase"@[4] == 'a');
    reveal_strlit("default");
    assert("default"@[0] == 'd' && "default"@[1] == 'e' && "default"@[2] == 'f' && "default"@[3] == 'a' && "default"@[4] == 'u');
    reveal_strlit("for");
    assert("for"@[0] == 'f' && "for"@[1] == 'o' && "for"@[2] == 'r');
    reveal_strlit("integer");
    assert("integer"@[0] == 'i' && "integer"@[1] == 'n' && "integer"@[2] == 't' && "integer"@[3] == 'e' && "integer"@[4] == 'g');
    reveal_strlit("signed");
    assert("signed"@[0] == 's' && "signed"@[1] == 'i' && "signed"@[2] == 'g' && "signed"@[3] == 'n' && "signed"@[4] == 'e');
    reveal_strlit("generate");
    assert("generate"@[0] == 'g' && "generate"@[1] == 'e' && "generate"@[2] == 'n' && "generate"@[3] == 'e' && "generate"@[4] == 'r');
    reveal_strlit("endgenerate");
    assert("endgenerate"@[0] == 'e' && "endgenerate"@[1] == 'n' && "endgenerate"@[2] == 'd' && "endgenerate"@[3] == 'g' && "endgenerate"@[4] == 'e');
    reveal_strlit("genvar");
    assert("genvar"@[0] == 'g' && "genvar"@[1] == 'e' && "genvar"@[2] == 'n' && "genvar"@[3] == 'v' && "genvar"@[4] == 'a');
    reveal_strlit("function");
    assert("function"@[0] == 'f' && "function"@[1] == 'u' && "function"@[2] == 'n' && "function"@[3] == 'c' && "function"@[4] == 't');
    reveal_strlit("endfunction");
    assert("endfunction"@[0] == 'e' && "endfunction"@[1] == 'n' && "endfunction"@[2] == 'd' && "endfunction"@[3] == 'f' && "endfunction"@[4] == 'u');
    reveal_strlit("task");
    assert("task"@[0] == 't' && "task"@[1] == 'a' && "task"@[2] == 's' && "task"@[3] == 'k');
    reveal_strlit("endtask");
    assert("endtask"@[0] == 'e' && "endtask"@[1] == 'n' && "endtask"@[2] == 'd' && "endtask"@[3] == 't' && "endtask"@[4] == 'a');
    reveal_strlit("casez");
    assert("casez"@[0] == 'c' && "casez"@[1] == 'a' && "casez"@[2] == 's' && "casez"@[3] == 'e' && "casez"@[4] == 'z');
    reveal_strlit("casex");
    assert("casex"@[0] == 'c' && "casex"@[1] == 'a' && "casex"@[2] == 's' && "casex"@[3] == 'e' && "casex"@[4] == 'x');
}

proof fn lemma_run(s: Seq<char>, i: int, j: int, class: crate::lexer::Class)
    requires
        0 <= i <= j <= s.len(),
        forall|k: int| i <= k < j ==> crate::lexer::in_class(#[trigger] s[k], class),
        j < s.len() ==> !crate::lexer::in_class(s[j], class),
    ensures
        crate::lexer::run_end(s, i, class) == j,
    decreases j - i,
{
    if i < j {
        assert(crate::lexer::in_class(s[i], class));
        lemma_run(s, i + 1, j, class);
    }
}

proof fn lemma_step(s: Seq<char>, i: int)
    requires
        0 <= i < s.len(),
        crate::lexer::blank_end(s, i) == i,
    ensures
        takes(s, i, crate::lexer::token_at(s, i).1, crate::lexer::token_at(s, i).0),
{
    crate::lexer::lemma_token_at(s, i);
    let j = crate::lexer::token_at(s, i).1;
    law_byte_length(s.take(i));
    law_byte_length(s.take(j));
}

/// A word: from a letter, an underscore or a dollar sign on, as far as it goes. It is a
/// keyword where it is spelled like one, and an identifier otherwise.
pub proof fn law_word(s: Seq<char>, i: int, j: int, k: TokenKind)
    requires
        0 <= i < j <= s.len(),
        letter(s[i]) || s[i] == '_' || s[i] == '$',
        forall|n: int| i < n < j ==> in_word(#[trigger] s[n]),
        j < s.len() ==> !in_word(s[j]),
    ensures
        keyword(k).len() > 0 && s.subrange(i, j) == keyword(k) ==> takes(s, i, j, k),
        (forall|l: TokenKind|
            keyword(l).len() > 0 ==> s.subrange(i, j) != #[trigger] keyword(l)) ==> takes(
            s,
            i,
            j,
            TokenKind::Identifier,
        ),
{
    lemma_run(s, i + 1, j, crate::lexer::Class::Word);
    lemma_step(s, i);
    law_keywords(s.subrange(i, j), k);
}

/// A number: from a digit on, with letters, underscores, ticks and question marks, as far as
/// it goes.
pub proof fn law_number(s: Seq<char>, i: int, j: int)
    requires
        0 <= i < j <= s.len(),
        digit(s[i]),
        forall|n: int| i < n < j ==> in_number(#[trigger] s[n]),
        j < s.len() ==> !in_number(s[j]),
    ensures
        takes(s, i, j, TokenKind::Number),
{
    lemma_run(s, i + 1, j, crate::lexer::Class::Number);
    lemma_step(s, i);
}

/// A number without a size: a tick, the letter of a base, and digits of that base.
pub proof fn law_unsized_number(s: Seq<char>, i: int, j: int)
    requires
        0 <= i,
        i + 2 <= j <= s.len(),
        s[i] == '\'',
        in_based('0', s[i + 1]),
        forall|n: int| i + 2 <= n < j ==> in_based(#[trigger] s[n], s[i + 1]),
        j < s.len() ==> !in_based(s[j], s[i + 1]),
    ensures
        takes(s, i, j, TokenKind::Number),
{
    lemma_run(s, i + 2, j, crate::lexer::base_class(s[i + 1])->0);
    lemma_step(s, i);
}

/// Anything else but white space and comments: the longest operator or punctuation that
/// stands there, or a single character that is none.
pub proof fn law_symbol(s: Seq<char>, i: int, k: TokenKind)
    requires
        0 <= i < s.len(),
        !in_word(s[i]),
        s[i] != '\'',
        !crate::text::is_space(s[i]),
        !pair(s, i, '/', '/') && !pair(s, i, '/', '*'),
    ensures
        ({
            let t = crate::lexer::lex_from(s, i)[0];
            let j = i + t.lexeme.len();
            &&& i < j <= s.len()
            &&& takes(s, i, j, t.kind)
            &&& t.kind != TokenKind::Other ==> t.lexeme == glyph(t.kind)
            &&& t.kind == TokenKind::Other ==> j == i + 1
            &&& glyph(k).len() > 0 && starts(s, i, glyph(k)) ==> glyph(k).len() <= t.lexeme.len()
            &&& glyph(k).len() > 0 && starts(s, i, glyph(k)) ==> t.kind != TokenKind::Other
        }),
{
    crate::lexer::lemma_token_at(s, i);
    lemma_step(s, i);
    let (kind, j) = crate::lexer::token_at(s, i);
    let t = crate::lexer::lex_from(s, i)[0];
    assert(t == piece(s, i, j, kind));
    if kind != TokenKind::Other {
        assert(s.subrange(i, j) =~= glyph(kind));
    }
    let g = glyph(k);
    if g.len() > 0 && starts(s, i, g) {
        assert(s[i + 0] == g[0]);
        if g.len() > 1 {
            assert(s[i + 1] == g[1]);
        }
        if g.len() > 2 {
            assert(s[i + 2] == g[2]);
        }
    }
}

/// White space, a comment up to the end of its line, and a comment up to its closing mark
/// stand for nothing.
pub proof fn law_blanks(s: Seq<char>, i: int, j: int)
    requires
        0 <= i < s.len(),
    ensures
        s[i] == ' ' || s[i] == '\n' || s[i] == '\t' || s[i] == '\r' ==> crate::lexer::lex_from(s, i)
            == crate::lexer::lex_from(s, i + 1),
        pair(s, i, '/', '/') && i + 2 <= j < s.len() && s[j] == '\n' && (forall|n: int|
            i + 2 <= n < j ==> s[n] != '\n') ==> crate::lexer::lex_from(s, i)
            == crate::lexer::lex_from(s, j + 1),
        pair(s, i, '/', '*') && i + 2 <= j && pair(s, j, '*', '/') && (forall|n: int|
            i + 2 <= n < j ==> !#[trigger] pair(s, n, '*', '/'))
            ==> crate::lexer::lex_from(s, i) == crate::lexer::lex_from(s, j + 2),
        pair(s, i, '/', '/') && (forall|n: int| i + 2 <= n < s.len() ==> s[n] != '\n')
            ==> crate::lexer::lex_from(s, i) == crate::lexer::lex_from(s, s.len() as int),
{
    crate::lexer::lemma_blank_end(s, i);
    if pair(s, i, '/', '/') {
        if i + 2 <= j < s.len() && s[j] == '\n' && (forall|n: int|
            i + 2 <= n < j ==> s[n] != '\n') {
            lemma_line(s, i + 2, j);
        }
        if forall|n: int| i + 2 <= n < s.len() ==> s[n] != '\n' {
            lemma_no_line(s, i + 2);
        }
    }
    if pair(s, i, '/', '*') {
        if i + 2 <= j && pair(s, j, '*', '/') && (forall|n: int|
            i + 2 <= n < j ==> !#[trigger] pair(s, n, '*', '/')) {
            lemma_block(s, i + 2, j);
        }
    }
}

proof fn lemma_line(s: Seq<char>, i: int, j: int)
    requires
        0 <= i <= j < s.len(),
        s[j] == '\n',
        forall|n: int| i <= n < j ==> s[n] != '\n',
    ensures
        crate::lexer::line_comment_end(s, i) == j + 1,
    decreases j - i,
{
    if i < j {
        lemma_line(s, i + 1, j);
    }
}

proof fn lemma_no_line(s: Seq<char>, i: int)
    requires
        0 <= i <= s.len(),
        forall|n: int| i <= n < s.len() ==> s[n] != '\n',
    ensures
        crate::lexer::line_comment_end(s, i) == s.len(),
    decreases s.len() - i,
{
    if i < s.len() {
        lemma_no_line(s, i + 1);
    }
}

proof fn lemma_block(s: Seq<char>, i: int, j: int)
    requires
        0 <= i <= j,
        pair(s, j, '*', '/'),
        forall|n: int| i <= n < j ==> !#[trigger] pair(s, n, '*', '/'),
    ensures
        crate::lexer::block_comment_end(s, i) == j + 2,
    decreases j - i,
{
    if i < j {
        assert(!pair(s, i, '*', '/'));
        lemma_block(s, i + 1, j);
    }
}

} // verus!
