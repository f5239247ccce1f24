//! Laws: what is reported of a text that is no module, and where.
use super::cst::SynExpr;
use super::state::{FuncM, Input, PState};
use crate::lexer::TokenKind;
use crate::{DiagM, Severity};
use vstd::prelude::*;

verus! {

/// The diagnostic stands at token `i`: at the line and column behind the text before it.
pub open spec fn stands_at(inp: Input, d: DiagM, i: int) -> bool {
    &&& d.path == inp.path
    &&& forall|a: Seq<char>, rest: Seq<char>|
        inp.content == #[trigger] (a + rest) && inp.toks[i].offset
            == vstd::utf8::encode_utf8(a).len() ==> (d.line, d.column)
            == super::state::line_col(inp.content, a.len())
}

/// One diagnostic more, and otherwise only the cursor has moved.
pub open spec fn reports(
    inp: Input,
    before: PState,
    after: PState,
    i: int,
    severity: Severity,
    message: Seq<char>,
) -> bool {
    &&& after.diags.len() == before.diags.len() + 1
    &&& after.diags.drop_last() == before.diags
    &&& after.diags.last().severity == severity
    &&& after.diags.last().message == message
    &&& stands_at(inp, after.diags.last(), i)
    &&& after.funcs == before.funcs
    &&& after.tasks == before.tasks
}

proof fn lemma_diagnosed(
    inp: Input,
    s: PState,
    i: int,
    severity: Severity,
    message: Seq<char>,
)
    ensures
        reports(
            inp,
            s,
            super::state::diagnosed(inp, s, i, severity, message),
            i,
            severity,
            message,
        ),
{
    let after = super::state::diagnosed(inp, s, i, severity, message);
    let d = after.diags.last();
    assert(after.diags.drop_last() =~= s.diags);
    assert forall|a: Seq<char>, rest: Seq<char>|
        inp.content == #[trigger] (a + rest) && inp.toks[i].offset
            == vstd::utf8::encode_utf8(a).len() implies (d.line, d.column)
        == super::state::line_col(inp.content, a.len()) by {
        crate::text::lemma_byte_len(a);
        crate::text::lemma_byte_len_concat(a, rest);
        lemma_before(a, rest);
    }
}

proof fn lemma_before(p: Seq<char>, rest: Seq<char>)
    ensures
        crate::text::chars_before(p + rest, crate::text::byte_len(p)) == p.len(),
    decreases rest.len(),
{
    if rest.len() == 0 {
        assert(p + rest =~= p);
    } else {
        assert((p + rest).drop_last() =~= p + rest.drop_last());
        crate::text::lemma_byte_len_concat(p, rest);
        lemma_before(p, rest.drop_last());
    }
}

/// Where a name is expected and another token stands, that token is reported and passed; a
/// name is taken without a report.
pub proof fn law_expected_name(inp: Input, s: PState, message: Seq<char>)
    requires
        super::state::ok(inp, s),
    ensures
        ({
            let (name, t) = super::state::identifier(inp, s, message);
            let k = inp.toks[s.pos].kind;
            &&& k == TokenKind::Identifier ==> name == Some(inp.toks[s.pos].lexeme) && t
                == super::expr_laws::moved(s, 1)
            &&& k != TokenKind::Identifier ==> name is None && reports(
                inp,
                s,
                t,
                s.pos,
                Severity::Error,
                message,
            ) && t.pos == if s.pos + 1 < inp.toks.len() {
                s.pos + 1
            } else {
                s.pos
            }
        }),
{
    lemma_diagnosed(inp, s, s.pos, Severity::Error, message);
}

/// A module without a name is reported, and is no module.
pub proof fn law_module_without_name(inp: Input, s: PState)
    requires
        super::state::ok(inp, s),
        inp.toks[s.pos].kind == TokenKind::Module,
        inp.toks[s.pos + 1].kind != TokenKind::Identifier,
    ensures
        ({
            let (m, t) = super::module::p_module(inp, s);
            m is None && reports(
                inp,
                super::item_laws::forgetful(s),
                t,
                s.pos + 1,
                Severity::Error,
                "expected module name"@,
            )
        }),
{
    let f = super::expr_laws::moved(super::item_laws::forgetful(s), 1);
    assert(super::state::bump(inp, super::module::fresh(s)) == f);
    lemma_diagnosed(inp, f, s.pos + 1, Severity::Error, "expected module name"@);
}

/// A header that runs into a declaration, an assignment or another module is reported there;
/// one that ends in a semicolon is not.
pub proof fn law_header_without_semicolon(inp: Input, s: PState)
    requires
        super::state::ok(inp, s),
    ensures
        ({
            let k = inp.toks[s.pos].kind;
            let t = super::module::p_header_end(inp, s);
            &&& k == TokenKind::Assign || k == TokenKind::Wire || k == TokenKind::Reg || k
                == TokenKind::Logic || k == TokenKind::Module || k == TokenKind::Endmodule
                ==> reports(
                inp,
                s,
                t,
                s.pos,
                Severity::Error,
                "expected ';' after module header"@,
            )
            &&& k == TokenKind::Semicolon || k == TokenKind::Eof ==> t == s
        }),
{
    lemma_diagnosed(inp, s, s.pos, Severity::Error, "expected ';' after module header"@);
}

proof fn lemma_warned(inp: Input, s: PState, f: FuncM)
    requires
        super::state::ok(inp, s),
        inp.toks[s.pos].kind == TokenKind::LParen,
        f.name != "$signed"@ && f.name != "$clog2"@,
        super::state::find_func(s.funcs, f.name) == Some(f),
        super::expr_laws::list_of(inp, super::expr_laws::moved(s, 1), TokenKind::RParen).0.len()
            != f.args.len(),
    ensures
        super::expr::p_name(inp, s, f.name).1 == super::state::diagnosed(
            inp,
            super::state::skip_if(
                inp,
                super::expr_laws::list_of(
                    inp,
                    super::expr_laws::moved(s, 1),
                    TokenKind::RParen,
                ).1,
                TokenKind::RParen,
            ),
            s.pos,
            Severity::Warning,
            super::expr::arity_message(f.name),
        ),
{
    assert(super::state::bump(inp, s) == super::expr_laws::moved(s, 1));
    reveal(super::expr_laws::list_of);
}

/// A call with more or fewer arguments than the function has is warned of at its opening
/// parenthesis, and is inlined with the arguments that have a formal.
pub proof fn law_wrong_number_of_arguments(
    inp: Input,
    s: PState,
    f: FuncM,
    args: Seq<SynExpr>,
    t: PState,
)
    requires
        super::state::ok(inp, s),
        inp.toks[s.pos].kind == TokenKind::LParen,
        f.name != "$signed"@ && f.name != "$clog2"@,
        super::state::find_func(s.funcs, f.name) == Some(f),
        super::expr_laws::list_of(inp, super::expr_laws::moved(s, 1), TokenKind::RParen) == (
            args,
            t,
        ),
        super::item_laws::inside(inp, t),
        inp.toks[t.pos].kind == TokenKind::RParen,
        args.len() != f.args.len(),
    ensures
        reports(
            inp,
            super::expr_laws::moved(t, 1),
            super::expr::p_name(inp, s, f.name).1,
            s.pos,
            Severity::Warning,
            super::expr::arity_message(f.name),
        ),
        super::expr::p_name(inp, s, f.name).1.pos == t.pos + 1,
{
    let end = super::expr_laws::moved(t, 1);
    assert(super::state::skip_if(inp, t, TokenKind::RParen) == end);
    lemma_warned(inp, s, f);
    lemma_diagnosed(
        inp,
        super::expr_laws::moved(t, 1),
        s.pos,
        Severity::Warning,
        super::expr::arity_message(f.name),
    );
}

/// Skipping goes past the next token of a kind, and stops at the end of the input.
pub proof fn law_skipping(inp: Input, s: PState, k: TokenKind, j: int)
    requires
        super::state::ok(inp, s),
        s.pos <= j < inp.toks.len(),
        k != TokenKind::Eof,
        inp.toks[j].kind == k || inp.toks[j].kind == TokenKind::Eof,
        forall|i: int|
            s.pos <= i < j ==> (#[trigger] inp.toks[i]).kind != k && inp.toks[i].kind
                != TokenKind::Eof,
    ensures
        inp.toks[j].kind == k ==> super::state::past(inp, s, k) == (PState { pos: j + 1, ..s }),
        inp.toks[j].kind == TokenKind::Eof ==> super::state::past(inp, s, k) == (PState {
            pos: j,
            ..s
        }),
    decreases j - s.pos,
{
    if s.pos < j {
        assert(inp.toks[s.pos].kind != k);
        let n = super::expr_laws::moved(s, 1);
        assert(super::state::bump(inp, s) == n);
        law_skipping(inp, n, k, j);
    } else {
        assert(s == (PState { pos: j, ..s }));
    }
}

} // verus!
