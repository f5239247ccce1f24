//! Expressions.
//!
//! Each parsing step is stated as a function from a state to a syntax tree and the state
//! after it. A cursor never moves back, and moves on where a token was consumed, which is
//! why the mutual recursion ends.
use super::cst::{BinaryOp, Expr, SynExpr, UnaryOp};
use super::state::{Input, PState, Parser};
use super::subst::subst_expr_multi;
use crate::lexer::TokenKind;
use crate::number::parse_unsigned;
use crate::text::{concat_str, str_eq};
use crate::Severity;
use vstd::prelude::*;

verus! {

/// The binary operator that a token stands for, with its precedence.
pub open spec fn binary_of(k: TokenKind) -> Option<(BinaryOp, u8)> {
    match k {
        TokenKind::LogOr => Some((BinaryOp::LogOr, 1)),
        TokenKind::LogAnd => Some((BinaryOp::LogAnd, 2)),
        TokenKind::Pipe => Some((BinaryOp::Or, 3)),
        TokenKind::Caret => Some((BinaryOp::Xor, 4)),
        TokenKind::Amp => Some((BinaryOp::And, 5)),
        TokenKind::EqEq => Some((BinaryOp::Eq, 6)),
        TokenKind::Ne => Some((BinaryOp::Ne, 6)),
        TokenKind::Lt => Some((BinaryOp::Lt, 7)),
        TokenKind::Le => Some((BinaryOp::Le, 7)),
        TokenKind::Gt => Some((BinaryOp::Gt, 7)),
        TokenKind::Ge => Some((BinaryOp::Ge, 7)),
        TokenKind::Shl => Some((BinaryOp::Shl, 8)),
        TokenKind::Shr => Some((BinaryOp::Shr, 8)),
        TokenKind::Ashr => Some((BinaryOp::Ashr, 8)),
        TokenKind::Plus => Some((BinaryOp::Add, 9)),
        TokenKind::Minus => Some((BinaryOp::Sub, 9)),
        TokenKind::Star => Some((BinaryOp::Mul, 10)),
        TokenKind::Slash => Some((BinaryOp::Div, 10)),
        TokenKind::Percent => Some((BinaryOp::Mod, 10)),
        _ => None,
    }
}

fn binary_op(k: TokenKind) -> (r: Option<(BinaryOp, u8)>)
    ensures
        r == binary_of(k),
{
    match k {
        TokenKind::LogOr => Some((BinaryOp::LogOr, 1)),
        TokenKind::LogAnd => Some((BinaryOp::LogAnd, 2)),
        TokenKind::Pipe => Some((BinaryOp::Or, 3)),
        TokenKind::Caret => Some((BinaryOp::Xor, 4)),
        TokenKind::Amp => Some((BinaryOp::And, 5)),
        TokenKind::EqEq => Some((BinaryOp::Eq, 6)),
        TokenKind::Ne => Some((BinaryOp::Ne, 6)),
        TokenKind::Lt => Some((BinaryOp::Lt, 7)),
        TokenKind::Le => Some((BinaryOp::Le, 7)),
        TokenKind::Gt => Some((BinaryOp::Gt, 7)),
        TokenKind::Ge => Some((BinaryOp::Ge, 7)),
        TokenKind::Shl => Some((BinaryOp::Shl, 8)),
        TokenKind::Shr => Some((BinaryOp::Shr, 8)),
        TokenKind::Ashr => Some((BinaryOp::Ashr, 8)),
        TokenKind::Plus => Some((BinaryOp::Add, 9)),
        TokenKind::Minus => Some((BinaryOp::Sub, 9)),
        TokenKind::Star => Some((BinaryOp::Mul, 10)),
        TokenKind::Slash => Some((BinaryOp::Div, 10)),
        TokenKind::Percent => Some((BinaryOp::Mod, 10)),
        _ => None,
    }
}

/// The unary operator that a token stands for.
pub open spec fn unary_of(k: TokenKind) -> Option<UnaryOp> {
    match k {
        TokenKind::Tilde => Some(UnaryOp::Not),
        TokenKind::Bang => Some(UnaryOp::LogNot),
        TokenKind::Minus => Some(UnaryOp::Neg),
        _ => None,
    }
}

/// An expression whose operators bind at least as tightly as `min_prec`.
pub open spec fn p_expr(inp: Input, s: PState, min_prec: u8) -> (SynExpr, PState)
    decreases super::state::ahead(inp, s), 5int,
    when super::state::ok(inp, s)
{
    let (left, s1) = p_unary(inp, s);
    p_operators(inp, super::state::upto(inp, s, s1), left, min_prec)
}

/// Operators and right operands after `left`, as far as their precedence allows. A
/// conditional is taken only where no operator waits for its right operand.
pub open spec fn p_operators(inp: Input, s: PState, left: SynExpr, min_prec: u8) -> (
    SynExpr,
    PState,
)
    decreases super::state::ahead(inp, s), 4int,
    when super::state::ok(inp, s)
{
    match binary_of(super::state::kind(inp, s)) {
        Some((op, prec)) => if prec < min_prec {
            (left, s)
        } else {
            let s1 = super::state::bump(inp, s);
            let (right, s2) = p_expr(inp, s1, (prec + 1) as u8);
            p_operators(
                inp,
                super::state::upto(inp, s1, s2),
                SynExpr::Binary { op, left: Box::new(left), right: Box::new(right) },
                min_prec,
            )
        },
        None => if super::state::kind(inp, s) == TokenKind::Question && min_prec == 0 {
            let s1 = super::state::bump(inp, s);
            let (then_expr, s2) = p_expr(inp, s1, 0);
            let s3 = super::state::skip_if(
                inp,
                super::state::upto(inp, s1, s2),
                TokenKind::Colon,
            );
            let (else_expr, s4) = p_expr(inp, s3, 0);
            p_operators(
                inp,
                super::state::upto(inp, s3, s4),
                SynExpr::Ternary {
                    cond: Box::new(left),
                    then_expr: Box::new(then_expr),
                    else_expr: Box::new(else_expr),
                },
                min_prec,
            )
        } else {
            (left, s)
        },
    }
}

/// Prefix operators, then a primary.
pub open spec fn p_unary(inp: Input, s: PState) -> (SynExpr, PState)
    decreases super::state::ahead(inp, s), 3int,
    when super::state::ok(inp, s)
{
    match unary_of(super::state::kind(inp, s)) {
        Some(op) => {
            let (operand, s1) = p_unary(inp, super::state::bump(inp, s));
            (SynExpr::Unary { op, operand: Box::new(operand) }, s1)
        },
        None => p_primary(inp, s),
    }
}

/// A primary with its index suffixes.
pub open spec fn p_primary(inp: Input, s: PState) -> (SynExpr, PState)
    decreases super::state::ahead(inp, s), 2int,
    when super::state::ok(inp, s)
{
    let (e, s1) = p_operand(inp, s);
    p_suffixes(inp, super::state::upto(inp, s, s1), e)
}

/// A name, call, literal, parenthesised expression, concatenation or replication. Any
/// other token is passed and stands for an unsupported name.
pub open spec fn p_operand(inp: Input, s: PState) -> (SynExpr, PState)
    decreases super::state::ahead(inp, s), 1int,
    when super::state::ok(inp, s)
{
    let s1 = super::state::bump(inp, s);
    match super::state::kind(inp, s) {
        TokenKind::Identifier => p_name(inp, s1, super::state::lexeme(inp, s)),
        TokenKind::Number => (SynExpr::Number(super::state::lexeme(inp, s)), s1),
        TokenKind::LParen => {
            let (e, s2) = p_expr(inp, s1, 0);
            (e, super::state::skip_if(inp, s2, TokenKind::RParen))
        },
        TokenKind::LBrace => p_braces(inp, s1),
        _ => (SynExpr::Ident("<unsupported>"@), s1),
    }
}

/// Warning of a call with more or fewer arguments than the function has.
pub open spec fn arity_message(name: Seq<char>) -> Seq<char> {
    "function `"@ + name + "` is called with a wrong number of arguments"@
}

/// What follows a name: the argument of a system function, the arguments of a declared
/// function, whose value is then inlined, or nothing. Further arguments are ignored, and a
/// formal without one keeps its name; either is warned of.
pub open spec fn p_name(inp: Input, s: PState, name: Seq<char>) -> (SynExpr, PState)
    decreases super::state::ahead(inp, s), 6int,
    when super::state::ok(inp, s)
{
    if super::state::kind(inp, s) != TokenKind::LParen {
        (SynExpr::Ident(name), s)
    } else {
        let s1 = super::state::bump(inp, s);
        if name == "$signed"@ || name == "$clog2"@ {
            let (arg, s2) = p_expr(inp, s1, 0);
            let s3 = super::state::skip_if(inp, s2, TokenKind::RParen);
            if name == "$signed"@ {
                (SynExpr::Signed(Box::new(arg)), s3)
            } else {
                (SynExpr::Clog2(Box::new(arg)), s3)
            }
        } else {
            match super::state::find_func(s.funcs, name) {
                Some(f) => {
                    let (actuals, s2) = p_list(inp, s1, TokenKind::RParen);
                    let s3 = super::state::skip_if(inp, s2, TokenKind::RParen);
                    (
                        super::subst::subst_expr(
                            f.body,
                            super::state::zip_args(f.args, actuals),
                        ),
                        if actuals.len() == f.args.len() {
                            s3
                        } else {
                            super::state::diagnosed(
                                inp,
                                s3,
                                s.pos,
                                Severity::Warning,
                                arity_message(name),
                            )
                        },
                    )
                },
                None => (SynExpr::Ident(name), s),
            }
        }
    }
}

/// Number of copies that a replication count stands for; one where it is no plain number.
pub open spec fn copies_of(text: Seq<char>) -> usize {
    match crate::number::unsigned_value(text, usize::MAX as u64) {
        Some(n) => n as usize,
        None => 1,
    }
}

/// What follows an opening brace: a replication `N{e}}`, or the parts of a concatenation.
pub open spec fn p_braces(inp: Input, s: PState) -> (SynExpr, PState)
    decreases super::state::ahead(inp, s), 8int,
    when super::state::ok(inp, s)
{
    if super::state::kind(inp, s) == TokenKind::Number && s.pos + 1 < inp.toks.len()
        && inp.toks[s.pos + 1].kind == TokenKind::LBrace {
        let s1 = super::state::bump(inp, super::state::bump(inp, s));
        let (inner, s2) = p_expr(inp, s1, 0);
        let s3 = super::state::skip_if(inp, s2, TokenKind::RBrace);
        (
            SynExpr::Concat(
                Seq::new(copies_of(super::state::lexeme(inp, s)) as nat, |i: int| inner),
            ),
            super::state::skip_if(inp, s3, TokenKind::RBrace),
        )
    } else {
        let (parts, s1) = p_list(inp, s, TokenKind::RBrace);
        (SynExpr::Concat(parts), super::state::skip_if(inp, s1, TokenKind::RBrace))
    }
}

/// Expressions separated by commas; none where the closing token follows at once.
pub open spec fn p_list(inp: Input, s: PState, close: TokenKind) -> (Seq<SynExpr>, PState)
    decreases super::state::ahead(inp, s), 7int,
    when super::state::ok(inp, s)
{
    if super::state::kind(inp, s) == close {
        (Seq::empty(), s)
    } else {
        let (e, s1) = p_expr(inp, s, 0);
        p_more(inp, super::state::upto(inp, s, s1), seq![e])
    }
}

/// Further expressions, each after a comma.
pub open spec fn p_more(inp: Input, s: PState, so_far: Seq<SynExpr>) -> (Seq<SynExpr>, PState)
    decreases super::state::ahead(inp, s), 6int,
    when super::state::ok(inp, s)
{
    if super::state::kind(inp, s) == TokenKind::Comma {
        let s1 = super::state::bump(inp, s);
        let (e, s2) = p_expr(inp, s1, 0);
        p_more(inp, super::state::upto(inp, s1, s2), so_far.push(e))
    } else {
        (so_far, s)
    }
}

/// Index and part-select suffixes after `base`.
pub open spec fn p_suffixes(inp: Input, s: PState, base: SynExpr) -> (SynExpr, PState)
    decreases super::state::ahead(inp, s), 1int,
    when super::state::ok(inp, s)
{
    if super::state::kind(inp, s) == TokenKind::LBracket {
        let s1 = super::state::bump(inp, s);
        let (msb, lsb, s2) = p_index(inp, s1);
        p_suffixes(
            inp,
            super::state::upto(inp, s1, s2),
            SynExpr::Index { base: Box::new(base), msb: Box::new(msb), lsb },
        )
    } else {
        (base, s)
    }
}

/// `msb]` or `msb:lsb]`.
pub open spec fn p_index(inp: Input, s: PState) -> (SynExpr, Option<Box<SynExpr>>, PState)
    decreases super::state::ahead(inp, s), 6int,
    when super::state::ok(inp, s)
{
    let (msb, s1) = p_expr(inp, s, 0);
    let s1 = super::state::upto(inp, s, s1);
    if super::state::kind(inp, s1) == TokenKind::Colon {
        let (lsb, s2) = p_expr(inp, super::state::bump(inp, s1), 0);
        (msb, Some(Box::new(lsb)), super::state::skip_if(inp, s2, TokenKind::RBracket))
    } else {
        (msb, None, super::state::skip_if(inp, s1, TokenKind::RBracket))
    }
}

impl<'a> Parser<'a> {
    pub fn parse_expression(&mut self, min_prec: u8) -> (r: Expr)
        requires
            old(self).wf(),
        ensures
            final(self).after(*old(self)),
            (r@, final(self).st()) == p_expr(old(self).input(), old(self).st(), min_prec),
            super::state::kind(old(self).input(), old(self).st()) != TokenKind::Eof
                ==> final(self).pos > old(self).pos,
        decreases old(self).tokens@.len() - old(self).pos, 5int,
    {
        let ghost inp = self.input();
        let ghost s0 = self.st();
        let mut left = self.parse_unary();
        let ghost s1 = self.st();
        let ghost e1 = left@;
        let ghost pos1 = self.pos;
        loop
            invariant_except_break
                self.after(*old(self)),
                inp == old(self).input(),
                super::state::ok(inp, s1),
                self.pos >= pos1,
                s1.pos == pos1,
                old(self).wf(),
                old(self).pos <= pos1,
                p_operators(inp, self.st(), left@, min_prec) == p_operators(inp, s1, e1, min_prec),
            ensures
                self.after(*old(self)),
                self.pos >= pos1,
                (left@, self.st()) == p_operators(inp, s1, e1, min_prec),
            decreases super::state::ahead(inp, self.st()),
        {
            match binary_op(self.kind()) {
                Some((op, prec)) => {
                    if prec < min_prec {
                        break;
                    }
                    self.bump();
                    let right = self.parse_expression(prec + 1);
                    left = Expr::Binary { op, left: Box::new(left), right: Box::new(right) };
                },
                None => {
                    if !self.at(TokenKind::Question) || min_prec > 0 {
                        break;
                    }
                    self.bump();
                    let then_expr = self.parse_expression(0);
                    let _ = self.match_kind(TokenKind::Colon);
                    let else_expr = self.parse_expression(0);
                    left =
                    Expr::Ternary {
                        cond: Box::new(left),
                        then_expr: Box::new(then_expr),
                        else_expr: Box::new(else_expr),
                    };
                },
            }
        }
        left
    }

    fn parse_unary(&mut self) -> (r: Expr)
        requires
            old(self).wf(),
        ensures
            final(self).after(*old(self)),
            (r@, final(self).st()) == p_unary(old(self).input(), old(self).st()),
            super::state::kind(old(self).input(), old(self).st()) != TokenKind::Eof
                ==> final(self).pos > old(self).pos,
        decreases old(self).tokens@.len() - old(self).pos, 3int,
    {
        let op = match self.kind() {
            TokenKind::Tilde => UnaryOp::Not,
            TokenKind::Bang => UnaryOp::LogNot,
            TokenKind::Minus => UnaryOp::Neg,
            _ => {
                return self.parse_primary();
            },
        };
        self.bump();
        let operand = self.parse_unary();
        Expr::Unary { op, operand: Box::new(operand) }
    }

    fn parse_primary(&mut self) -> (r: Expr)
        requires
            old(self).wf(),
        ensures
            final(self).after(*old(self)),
            (r@, final(self).st()) == p_primary(old(self).input(), old(self).st()),
            super::state::kind(old(self).input(), old(self).st()) != TokenKind::Eof
                ==> final(self).pos > old(self).pos,
        decreases old(self).tokens@.len() - old(self).pos, 2int,
    {
        let e = self.parse_operand();
        self.parse_index_suffixes(e)
    }

    fn parse_operand(&mut self) -> (r: Expr)
        requires
            old(self).wf(),
        ensures
            final(self).after(*old(self)),
            (r@, final(self).st()) == p_operand(old(self).input(), old(self).st()),
            super::state::kind(old(self).input(), old(self).st()) != TokenKind::Eof
                ==> final(self).pos > old(self).pos,
        decreases old(self).tokens@.len() - old(self).pos, 1int,
    {
        match self.kind() {
            TokenKind::Identifier => {
                let name = self.lexeme();
                self.bump();
                self.parse_name(name)
            },
            TokenKind::Number => {
                let lit = self.lexeme();
                self.bump();
                Expr::Number(lit)
            },
            TokenKind::LParen => {
                self.bump();
                let e = self.parse_expression(0);
                let _ = self.match_kind(TokenKind::RParen);
                e
            },
            TokenKind::LBrace => {
                self.bump();
                self.parse_braces()
            },
            _ => {
                self.bump();
                Expr::Ident("<unsupported>".to_owned())
            },
        }
    }

    fn parse_name(&mut self, name: String) -> (r: Expr)
        requires
            old(self).wf(),
        ensures
            final(self).after(*old(self)),
            (r@, final(self).st()) == p_name(old(self).input(), old(self).st(), name@),
        decreases old(self).tokens@.len() - old(self).pos, 6int,
    {
        if !self.at(TokenKind::LParen) {
            return Expr::Ident(name);
        }
        if str_eq(name.as_str(), "$signed") {
            self.bump();
            let arg = self.parse_expression(0);
            let _ = self.match_kind(TokenKind::RParen);
            return Expr::Signed(Box::new(arg));
        }
        if str_eq(name.as_str(), "$clog2") {
            self.bump();
            let arg = self.parse_expression(0);
            let _ = self.match_kind(TokenKind::RParen);
            return Expr::Clog2(Box::new(arg));
        }
        match self.function_index(name.as_str()) {
            Some(i) => {
                let body = self.functions[i].body.clone();
                let args = super::cst::clone_names(&self.functions[i].args);
                let place = self.pos;
                self.bump();
                let actuals = self.parse_list(TokenKind::RParen);
                let _ = self.match_kind(TokenKind::RParen);
                if actuals.len() != args.len() {
                    let head = concat_str("function `", name.as_str());
                    let message = concat_str(
                        head.as_str(),
                        "` is called with a wrong number of arguments",
                    );
                    self.diagnose(place, Severity::Warning, message.as_str());
                }
                let subs = super::state::zip_actuals(&args, &actuals);
                subst_expr_multi(&body, subs.as_slice())
            },
            None => Expr::Ident(name),
        }
    }

    fn parse_braces(&mut self) -> (r: Expr)
        requires
            old(self).wf(),
        ensures
            final(self).after(*old(self)),
            (r@, final(self).st()) == p_braces(old(self).input(), old(self).st()),
        decreases old(self).tokens@.len() - old(self).pos, 8int,
    {
        assert(self.tokens@.len() == self.tokens.len());
        if self.at(TokenKind::Number) && self.pos + 1 < self.tokens.len() && self.tokens[self.pos
            + 1].kind == TokenKind::LBrace {
            let count_text = self.lexeme();
            let count: usize = match parse_unsigned(count_text.as_str(), usize::MAX as u64) {
                Some(n) => n as usize,
                None => 1,
            };
            self.bump();
            self.bump();
            let inner = self.parse_expression(0);
            let _ = self.match_kind(TokenKind::RBrace);
            let _ = self.match_kind(TokenKind::RBrace);
            let mut parts: Vec<Expr> = Vec::new();
            let mut i: usize = 0;
            while i < count
                invariant
                    i <= count,
                    parts@.len() == i,
                    forall|j: int| 0 <= j < i ==> (#[trigger] parts@[j])@ == inner@,
                decreases count - i,
            {
                parts.push(inner.clone());
                i = i + 1;
            }
            assert(super::cst::exprs_view(parts@) =~= Seq::new(count as nat, |i: int| inner@));
            Expr::Concat(parts)
        } else {
            let parts = self.parse_list(TokenKind::RBrace);
            let _ = self.match_kind(TokenKind::RBrace);
            Expr::Concat(parts)
        }
    }

    /// Expressions separated by commas, up to a closing token.
    pub fn parse_list(&mut self, close: TokenKind) -> (r: Vec<Expr>)
        requires
            old(self).wf(),
        ensures
            final(self).after(*old(self)),
            (super::cst::exprs_view(r@), final(self).st()) == p_list(
                old(self).input(),
                old(self).st(),
                close,
            ),
        decreases old(self).tokens@.len() - old(self).pos, 7int,
    {
        let ghost inp = self.input();
        let mut out: Vec<Expr> = Vec::new();
        if self.at(close) {
            assert(super::cst::exprs_view(out@) =~= Seq::empty());
            return out;
        }
        out.push(self.parse_expression(0));
        let ghost s1 = self.st();
        let ghost first = super::cst::exprs_view(out@);
        assert(first =~= seq![out@[0]@]);
        while self.at(TokenKind::Comma)
            invariant
                self.after(*old(self)),
                inp == old(self).input(),
                old(self).wf(),
                old(self).pos <= s1.pos <= self.pos,
                p_more(inp, self.st(), super::cst::exprs_view(out@)) == p_more(inp, s1, first),
            decreases super::state::ahead(inp, self.st()),
        {
            let ghost before = super::cst::exprs_view(out@);
            self.bump();
            let e = self.parse_expression(0);
            out.push(e);
            assert(super::cst::exprs_view(out@) =~= before.push(e@));
        }
        out
    }

    fn parse_index_suffixes(&mut self, base: Expr) -> (r: Expr)
        requires
            old(self).wf(),
        ensures
            final(self).after(*old(self)),
            (r@, final(self).st()) == p_suffixes(old(self).input(), old(self).st(), base@),
        decreases old(self).tokens@.len() - old(self).pos, 1int,
    {
        let ghost inp = self.input();
        let ghost s0 = self.st();
        let ghost base0 = base@;
        let mut e = base;
        while self.at(TokenKind::LBracket)
            invariant
                self.after(*old(self)),
                inp == old(self).input(),
                old(self).wf(),
                p_suffixes(inp, self.st(), e@) == p_suffixes(inp, s0, base0),
            decreases super::state::ahead(inp, self.st()),
        {
            self.bump();
            let (msb, lsb) = self.parse_index();
            e = Expr::Index {
                base: Box::new(e),
                msb: Box::new(msb),
                lsb: match lsb {
                    Some(x) => Some(Box::new(x)),
                    None => None,
                },
            };
        }
        e
    }

    /// What stands between brackets, with the closing one.
    pub fn parse_index(&mut self) -> (r: (Expr, Option<Expr>))
        requires
            old(self).wf(),
        ensures
            final(self).after(*old(self)),
            (r.0@, match r.1 {
                Some(x) => Some(Box::new(x@)),
                None => None,
            }, final(self).st()) == p_index(old(self).input(), old(self).st()),
        decreases old(self).tokens@.len() - old(self).pos, 6int,
    {
        let msb = self.parse_expression(0);
        if self.match_kind(TokenKind::Colon) {
            let lsb = self.parse_expression(0);
            let _ = self.match_kind(TokenKind::RBracket);
            (msb, Some(lsb))
        } else {
            let _ = self.match_kind(TokenKind::RBracket);
            (msb, None)
        }
    }
}

} // verus!
