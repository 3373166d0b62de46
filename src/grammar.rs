use vstd::prelude::*;

use crate::lex::{KindSet, TokenId, TokenKind};
use crate::parse::{Bind, BindId, Binop, Expr, ExprId, Param, ParseError, Type, TypeId};

verus! {

/// The parser's state: the position of the current significant token, the
/// position just after the previous significant token, and the three arenas.
pub struct PState {
    pub before_ws: nat,
    pub pos: nat,
    pub types: Seq<Type>,
    pub binds: Seq<Bind>,
    pub exprs: Seq<Expr>,
}

/// A definition, with its parameters as a sequence.
pub struct DefView {
    pub name: TokenId,
    pub params: Seq<Param>,
    pub ty: Option<TypeId>,
    pub body: ExprId,
}

/// A parsed module: the three arenas and the definitions in source order.
pub struct ModuleView {
    pub types: Seq<Type>,
    pub binds: Seq<Bind>,
    pub exprs: Seq<Expr>,
    pub defs: Seq<DefView>,
}

pub type Step<T> = (PState, Result<T, ParseError>);

pub open spec fn tid(n: nat) -> TokenId {
    TokenId { index: n as u32 }
}

pub open spec fn kind_at(toks: Seq<TokenKind>, i: nat) -> TokenKind {
    if i < toks.len() {
        toks[i as int]
    } else {
        TokenKind::Eof
    }
}

/// Comments and line breaks take no part in matching.
pub open spec fn is_ws(k: TokenKind) -> bool {
    k == TokenKind::Newline || k == TokenKind::Comment
}

pub open spec fn starts_atom(k: TokenKind) -> bool {
    k == TokenKind::LParen || k == TokenKind::Ident || k == TokenKind::Number
}

/// The first significant position at or after `i`.
pub open spec fn skip_ws(toks: Seq<TokenKind>, i: nat) -> nat
    decreases toks.len() - i,
{
    if i < toks.len() && is_ws(toks[i as int]) {
        skip_ws(toks, i + 1)
    } else {
        i
    }
}

pub open spec fn peek(toks: Seq<TokenKind>, s: PState) -> TokenKind {
    kind_at(toks, s.pos)
}

/// Step past the current token and any insignificant tokens after it.
pub open spec fn advance(toks: Seq<TokenKind>, s: PState) -> PState {
    PState { before_ws: s.pos + 1, pos: skip_ws(toks, s.pos + 1), ..s }
}

/// A line break (or comment) was skipped since the previous significant token.
pub open spec fn newline(s: PState) -> bool {
    s.before_ws < s.pos
}

pub open spec fn fail<T>(s: PState, kinds: KindSet) -> Step<T> {
    (s, Err(ParseError::Expected { id: tid(s.pos), kinds }))
}

pub open spec fn two(a: TokenKind, b: TokenKind) -> KindSet {
    KindSet::spec_only(a).spec_union(KindSet::spec_only(b))
}

pub open spec fn expect(toks: Seq<TokenKind>, s: PState, k: TokenKind) -> Step<TokenId> {
    if peek(toks, s) == k {
        (advance(toks, s), Ok(tid(s.pos)))
    } else {
        fail(s, KindSet::spec_only(k))
    }
}

/// How many nodes the three arenas hold together.
pub open spec fn nodes(s: PState) -> int {
    s.types.len() + s.binds.len() + s.exprs.len() as int
}

// The productions below test `moved` or `kept` before each recursive step, so
// that their termination is evident from positions alone. The parser always
// passes these tests (its functions never move backwards, and atoms always
// consume a token); the `Eof` failure in the other branch is never produced.

/// `b` lies strictly after `a`, within the stream.
pub open spec fn moved(toks: Seq<TokenKind>, a: PState, b: PState) -> bool {
    a.pos < b.pos <= toks.len()
}

/// `b` lies at or after `a`, within the stream.
pub open spec fn kept(toks: Seq<TokenKind>, a: PState, b: PState) -> bool {
    a.pos <= b.pos <= toks.len()
}

pub open spec fn alloc_ty(s: PState, t: Type) -> (PState, TypeId) {
    (PState { types: s.types.push(t), ..s }, TypeId { index: s.types.len() as u32 })
}

pub open spec fn alloc_bind(s: PState, b: Bind) -> (PState, BindId) {
    (PState { binds: s.binds.push(b), ..s }, BindId { index: s.binds.len() as u32 })
}

pub open spec fn alloc_expr(s: PState, e: Expr) -> (PState, ExprId) {
    (PState { exprs: s.exprs.push(e), ..s }, ExprId { index: s.exprs.len() as u32 })
}

/// Right fold of a comma list: `[a, b]` then `c` gives `Pair(a, Pair(b, c))`,
/// the inner pair allocated first.
pub open spec fn fold_ty(s: PState, elems: Seq<TypeId>, acc: TypeId) -> (PState, TypeId)
    decreases elems.len(),
{
    if elems.len() == 0 {
        (s, acc)
    } else {
        let (s1, t) = alloc_ty(s, Type::Pair { fst: elems.last(), snd: acc });
        fold_ty(s1, elems.drop_last(), t)
    }
}

pub open spec fn fold_param(s: PState, elems: Seq<Param>, acc: Param) -> (PState, Param)
    decreases elems.len(),
{
    if elems.len() == 0 {
        (s, acc)
    } else {
        let (s1, b) = alloc_bind(s, Bind::Pair { fst: elems.last(), snd: acc });
        fold_param(s1, elems.drop_last(), Param { bind: b, ty: None })
    }
}

pub open spec fn fold_expr(s: PState, elems: Seq<ExprId>, acc: ExprId) -> (PState, ExprId)
    decreases elems.len(),
{
    if elems.len() == 0 {
        (s, acc)
    } else {
        let (s1, e) = alloc_expr(s, Expr::Pair { fst: elems.last(), snd: acc });
        fold_expr(s1, elems.drop_last(), e)
    }
}

// ---------------------------------------------------------------- types

/// `ident`, `()`, or `(` type `)`.
pub open spec fn ty_atom(toks: Seq<TokenKind>, s: PState) -> Step<TypeId>
    decreases toks.len() - s.pos, 0int,
{
    if peek(toks, s) == TokenKind::Ident {
        let (s1, t) = alloc_ty(advance(toks, s), Type::Name { name: tid(s.pos) });
        (s1, Ok(t))
    } else if peek(toks, s) == TokenKind::LParen {
        let s1 = advance(toks, s);
        if peek(toks, s1) == TokenKind::RParen {
            let (s2, t) = alloc_ty(advance(toks, s1), Type::Unit);
            (s2, Ok(t))
        } else if moved(toks, s, s1) {
            let (s2, r) = ty(toks, s1);
            match r {
                Err(e) => (s2, Err(e)),
                Ok(t) => {
                    let (s3, r3) = expect(toks, s2, TokenKind::RParen);
                    match r3 {
                        Err(e) => (s3, Err(e)),
                        Ok(_) => (s3, Ok(t)),
                    }
                },
            }
        } else {
            fail(s1, KindSet::spec_only(TokenKind::Eof))
        }
    } else {
        fail(s, two(TokenKind::Ident, TokenKind::LParen))
    }
}

/// After a list element: a comma continues the list, anything else ends it.
pub open spec fn ty_more(toks: Seq<TokenKind>, s: PState, acc: Seq<TypeId>) -> Step<Seq<TypeId>>
    decreases toks.len() - s.pos, 1int,
{
    if peek(toks, s) == TokenKind::Comma {
        let s1 = advance(toks, s);
        if moved(toks, s, s1) {
            ty_list(toks, s1, acc)
        } else {
            fail(s1, KindSet::spec_only(TokenKind::Eof))
        }
    } else {
        (s, Ok(acc))
    }
}

pub open spec fn ty_list(toks: Seq<TokenKind>, s: PState, acc: Seq<TypeId>) -> Step<Seq<TypeId>>
    decreases toks.len() - s.pos, 2int,
{
    let (s1, r) = ty_atom(toks, s);
    match r {
        Err(e) => (s1, Err(e)),
        Ok(t) => if kept(toks, s, s1) {
            ty_more(toks, s1, acc.push(t))
        } else {
            fail(s1, KindSet::spec_only(TokenKind::Eof))
        },
    }
}

/// A comma-separated list of type atoms, right-folded into pairs.
pub open spec fn ty(toks: Seq<TokenKind>, s: PState) -> Step<TypeId>
    decreases toks.len() - s.pos, 3int,
{
    let (s1, r) = ty_list(toks, s, seq![]);
    match r {
        Err(e) => (s1, Err(e)),
        Ok(elems) => {
            let (s2, t) = fold_ty(s1, elems.drop_last(), elems.last());
            (s2, Ok(t))
        },
    }
}

// ---------------------------------------------------------------- patterns

/// `ident`, `()`, or `(` param `)`; a parenthesised single pattern may not
/// carry a type, which is reported at its `)` as a missing `,`.
pub open spec fn bind_atom(toks: Seq<TokenKind>, s: PState) -> Step<BindId>
    decreases toks.len() - s.pos, 0int,
{
    if peek(toks, s) == TokenKind::Ident {
        let (s1, b) = alloc_bind(advance(toks, s), Bind::Name { name: tid(s.pos) });
        (s1, Ok(b))
    } else if peek(toks, s) == TokenKind::LParen {
        let s1 = advance(toks, s);
        if peek(toks, s1) == TokenKind::RParen {
            let (s2, b) = alloc_bind(advance(toks, s1), Bind::Unit);
            (s2, Ok(b))
        } else if moved(toks, s, s1) {
            let (s2, r) = param(toks, s1);
            match r {
                Err(e) => (s2, Err(e)),
                Ok(p) => {
                    let (s3, r3) = expect(toks, s2, TokenKind::RParen);
                    match r3 {
                        Err(e) => (s3, Err(e)),
                        Ok(right) => match p.ty {
                            Some(_) => (
                                s3,
                                Err(
                                    ParseError::Expected {
                                        id: right,
                                        kinds: KindSet::spec_only(TokenKind::Comma),
                                    },
                                ),
                            ),
                            None => (s3, Ok(p.bind)),
                        },
                    }
                },
            }
        } else {
            fail(s1, KindSet::spec_only(TokenKind::Eof))
        }
    } else {
        fail(s, two(TokenKind::Ident, TokenKind::LParen))
    }
}

/// A pattern, optionally followed by `:` and a type atom.
pub open spec fn param_elem(toks: Seq<TokenKind>, s: PState) -> Step<Param>
    decreases toks.len() - s.pos, 1int,
{
    let (s1, r) = bind_atom(toks, s);
    match r {
        Err(e) => (s1, Err(e)),
        Ok(b) => if peek(toks, s1) == TokenKind::Colon {
            let (s2, r2) = ty_atom(toks, advance(toks, s1));
            match r2 {
                Err(e) => (s2, Err(e)),
                Ok(t) => (s2, Ok(Param { bind: b, ty: Some(t) })),
            }
        } else {
            (s1, Ok(Param { bind: b, ty: None }))
        },
    }
}

pub open spec fn param_more(toks: Seq<TokenKind>, s: PState, acc: Seq<Param>) -> Step<Seq<Param>>
    decreases toks.len() - s.pos, 1int,
{
    if peek(toks, s) == TokenKind::Comma {
        let s1 = advance(toks, s);
        if moved(toks, s, s1) {
            param_list(toks, s1, acc)
        } else {
            fail(s1, KindSet::spec_only(TokenKind::Eof))
        }
    } else {
        (s, Ok(acc))
    }
}

pub open spec fn param_list(toks: Seq<TokenKind>, s: PState, acc: Seq<Param>) -> Step<Seq<Param>>
    decreases toks.len() - s.pos, 2int,
{
    let (s1, r) = param_elem(toks, s);
    match r {
        Err(e) => (s1, Err(e)),
        Ok(p) => if kept(toks, s, s1) {
            param_more(toks, s1, acc.push(p))
        } else {
            fail(s1, KindSet::spec_only(TokenKind::Eof))
        },
    }
}

/// A comma-separated list of annotatable patterns, right-folded into pairs
/// whose synthesized params carry no type.
pub open spec fn param(toks: Seq<TokenKind>, s: PState) -> Step<Param>
    decreases toks.len() - s.pos, 3int,
{
    let (s1, r) = param_list(toks, s, seq![]);
    match r {
        Err(e) => (s1, Err(e)),
        Ok(elems) => {
            let (s2, p) = fold_param(s1, elems.drop_last(), elems.last());
            (s2, Ok(p))
        },
    }
}

// ---------------------------------------------------------------- expressions

/// `()`, `(` expr `)`, `ident`, or a number.
pub open spec fn expr_atom(toks: Seq<TokenKind>, s: PState) -> Step<ExprId>
    decreases toks.len() - s.pos, 0int,
{
    if peek(toks, s) == TokenKind::LParen {
        let s1 = advance(toks, s);
        if peek(toks, s1) == TokenKind::RParen {
            let (s2, e) = alloc_expr(advance(toks, s1), Expr::Unit);
            (s2, Ok(e))
        } else if moved(toks, s, s1) {
            let (s2, r) = expr(toks, s1);
            match r {
                Err(e) => (s2, Err(e)),
                Ok(x) => {
                    let (s3, r3) = expect(toks, s2, TokenKind::RParen);
                    match r3 {
                        Err(e) => (s3, Err(e)),
                        Ok(_) => (s3, Ok(x)),
                    }
                },
            }
        } else {
            fail(s1, KindSet::spec_only(TokenKind::Eof))
        }
    } else if peek(toks, s) == TokenKind::Ident {
        let (s1, e) = alloc_expr(advance(toks, s), Expr::Name { name: tid(s.pos) });
        (s1, Ok(e))
    } else if peek(toks, s) == TokenKind::Number {
        let (s1, e) = alloc_expr(advance(toks, s), Expr::Number { val: tid(s.pos) });
        (s1, Ok(e))
    } else {
        fail(
            s,
            KindSet::spec_only(TokenKind::LParen).spec_union(
                two(TokenKind::Ident, TokenKind::Number),
            ),
        )
    }
}

/// Juxtaposition continues while no line break has been crossed and the next
/// token can start an atom.
pub open spec fn factor_more(toks: Seq<TokenKind>, s: PState, f: ExprId) -> Step<ExprId>
    decreases toks.len() - s.pos, 1int,
{
    if !newline(s) && starts_atom(peek(toks, s)) {
        let (s1, r) = expr_atom(toks, s);
        match r {
            Err(e) => (s1, Err(e)),
            Ok(x) => {
                let (s2, a) = alloc_expr(s1, Expr::Apply { func: f, arg: x });
                if moved(toks, s, s2) {
                    factor_more(toks, s2, a)
                } else {
                    fail(s2, KindSet::spec_only(TokenKind::Eof))
                }
            },
        }
    } else {
        (s, Ok(f))
    }
}

/// Left-associative function application.
pub open spec fn expr_factor(toks: Seq<TokenKind>, s: PState) -> Step<ExprId>
    decreases toks.len() - s.pos, 2int,
{
    let (s1, r) = expr_atom(toks, s);
    match r {
        Err(e) => (s1, Err(e)),
        Ok(f) => if kept(toks, s, s1) {
            factor_more(toks, s1, f)
        } else {
            fail(s1, KindSet::spec_only(TokenKind::Eof))
        },
    }
}

pub open spec fn mul_op(k: TokenKind) -> Option<Binop> {
    if k == TokenKind::Asterisk {
        Some(Binop::Mul)
    } else if k == TokenKind::Slash {
        Some(Binop::Div)
    } else {
        None
    }
}

pub open spec fn add_op(k: TokenKind) -> Option<Binop> {
    if k == TokenKind::Plus {
        Some(Binop::Add)
    } else if k == TokenKind::Hyphen {
        Some(Binop::Sub)
    } else {
        None
    }
}

pub open spec fn term_more(toks: Seq<TokenKind>, s: PState, lhs: ExprId) -> Step<ExprId>
    decreases toks.len() - s.pos, 3int,
{
    match mul_op(peek(toks, s)) {
        None => (s, Ok(lhs)),
        Some(op) => {
            let s1 = advance(toks, s);
            if moved(toks, s, s1) {
                let (s2, r) = expr_factor(toks, s1);
                match r {
                    Err(e) => (s2, Err(e)),
                    Ok(rhs) => {
                        let (s3, e) = alloc_expr(s2, Expr::Binary { lhs, op, rhs });
                        if moved(toks, s, s3) {
                            term_more(toks, s3, e)
                        } else {
                            fail(s3, KindSet::spec_only(TokenKind::Eof))
                        }
                    },
                }
            } else {
                fail(s1, KindSet::spec_only(TokenKind::Eof))
            }
        },
    }
}

/// Left-associative chain of `*` and `/`.
pub open spec fn expr_term(toks: Seq<TokenKind>, s: PState) -> Step<ExprId>
    decreases toks.len() - s.pos, 4int,
{
    let (s1, r) = expr_factor(toks, s);
    match r {
        Err(e) => (s1, Err(e)),
        Ok(f) => if kept(toks, s, s1) {
            term_more(toks, s1, f)
        } else {
            fail(s1, KindSet::spec_only(TokenKind::Eof))
        },
    }
}

pub open spec fn elem_more(toks: Seq<TokenKind>, s: PState, lhs: ExprId) -> Step<ExprId>
    decreases toks.len() - s.pos, 5int,
{
    match add_op(peek(toks, s)) {
        None => (s, Ok(lhs)),
        Some(op) => {
            let s1 = advance(toks, s);
            if moved(toks, s, s1) {
                let (s2, r) = expr_term(toks, s1);
                match r {
                    Err(e) => (s2, Err(e)),
                    Ok(rhs) => {
                        let (s3, e) = alloc_expr(s2, Expr::Binary { lhs, op, rhs });
                        if moved(toks, s, s3) {
                            elem_more(toks, s3, e)
                        } else {
                            fail(s3, KindSet::spec_only(TokenKind::Eof))
                        }
                    },
                }
            } else {
                fail(s1, KindSet::spec_only(TokenKind::Eof))
            }
        },
    }
}

/// Left-associative chain of `+` and `-`.
pub open spec fn expr_elem(toks: Seq<TokenKind>, s: PState) -> Step<ExprId>
    decreases toks.len() - s.pos, 6int,
{
    let (s1, r) = expr_term(toks, s);
    match r {
        Err(e) => (s1, Err(e)),
        Ok(t) => if kept(toks, s, s1) {
            elem_more(toks, s1, t)
        } else {
            fail(s1, KindSet::spec_only(TokenKind::Eof))
        },
    }
}

pub open spec fn inner_more(toks: Seq<TokenKind>, s: PState, acc: Seq<ExprId>) -> Step<Seq<ExprId>>
    decreases toks.len() - s.pos, 7int,
{
    if peek(toks, s) == TokenKind::Comma {
        let s1 = advance(toks, s);
        if moved(toks, s, s1) {
            inner_list(toks, s1, acc)
        } else {
            fail(s1, KindSet::spec_only(TokenKind::Eof))
        }
    } else {
        (s, Ok(acc))
    }
}

pub open spec fn inner_list(toks: Seq<TokenKind>, s: PState, acc: Seq<ExprId>) -> Step<Seq<ExprId>>
    decreases toks.len() - s.pos, 8int,
{
    let (s1, r) = expr_elem(toks, s);
    match r {
        Err(e) => (s1, Err(e)),
        Ok(x) => if kept(toks, s, s1) {
            inner_more(toks, s1, acc.push(x))
        } else {
            fail(s1, KindSet::spec_only(TokenKind::Eof))
        },
    }
}

/// A comma-separated list of additive expressions, right-folded into pairs.
pub open spec fn expr_inner(toks: Seq<TokenKind>, s: PState) -> Step<ExprId>
    decreases toks.len() - s.pos, 9int,
{
    let (s1, r) = inner_list(toks, s, seq![]);
    match r {
        Err(e) => (s1, Err(e)),
        Ok(elems) => {
            let (s2, x) = fold_expr(s1, elems.drop_last(), elems.last());
            (s2, Ok(x))
        },
    }
}

/// The separator after a let's value: a `;`, which may be left out when a
/// line break was crossed.
pub open spec fn let_sep(toks: Seq<TokenKind>, s: PState) -> Step<TokenId> {
    if peek(toks, s) == TokenKind::Semicolon {
        (advance(toks, s), Ok(tid(s.pos)))
    } else if newline(s) {
        (s, Ok(tid(s.pos)))
    } else {
        fail(s, KindSet::spec_only(TokenKind::Semicolon))
    }
}

/// `let` param `=` tuple separator expr, or a tuple expression.
pub open spec fn expr(toks: Seq<TokenKind>, s: PState) -> Step<ExprId>
    decreases toks.len() - s.pos, 10int,
{
    if peek(toks, s) == TokenKind::Let {
        let s1 = advance(toks, s);
        let (s2, r2) = param(toks, s1);
        match r2 {
            Err(e) => (s2, Err(e)),
            Ok(p) => {
                let (s3, r3) = expect(toks, s2, TokenKind::Equal);
                match r3 {
                    Err(e) => (s3, Err(e)),
                    Ok(_) => if moved(toks, s, s3) {
                        let (s4, r4) = expr_inner(toks, s3);
                        match r4 {
                            Err(e) => (s4, Err(e)),
                            Ok(v) => {
                                let (s5, r5) = let_sep(toks, s4);
                                match r5 {
                                    Err(e) => (s5, Err(e)),
                                    Ok(_) => if moved(toks, s, s5) {
                                        let (s6, r6) = expr(toks, s5);
                                        match r6 {
                                            Err(e) => (s6, Err(e)),
                                            Ok(b) => {
                                                let (s7, x) = alloc_expr(
                                                    s6,
                                                    Expr::Let { param: p, val: v, body: b },
                                                );
                                                (s7, Ok(x))
                                            },
                                        }
                                    } else {
                                        fail(s5, KindSet::spec_only(TokenKind::Eof))
                                    },
                                }
                            },
                        }
                    } else {
                        fail(s3, KindSet::spec_only(TokenKind::Eof))
                    },
                }
            },
        }
    } else {
        expr_inner(toks, s)
    }
}

// ---------------------------------------------------------------- definitions

/// Zero or more parenthesised parameter groups; `()` gives a unit pattern.
pub open spec fn def_params(toks: Seq<TokenKind>, s: PState, acc: Seq<Param>) -> Step<Seq<Param>>
    decreases toks.len() - s.pos,
{
    if peek(toks, s) == TokenKind::LParen {
        let s1 = advance(toks, s);
        if peek(toks, s1) == TokenKind::RParen {
            let (s2, b) = alloc_bind(advance(toks, s1), Bind::Unit);
            if moved(toks, s, s2) {
                def_params(toks, s2, acc.push(Param { bind: b, ty: None }))
            } else {
                fail(s2, KindSet::spec_only(TokenKind::Eof))
            }
        } else {
            let (s2, r2) = param(toks, s1);
            match r2 {
                Err(e) => (s2, Err(e)),
                Ok(p) => {
                    let (s3, r3) = expect(toks, s2, TokenKind::RParen);
                    match r3 {
                        Err(e) => (s3, Err(e)),
                        Ok(_) => if moved(toks, s, s3) {
                            def_params(toks, s3, acc.push(p))
                        } else {
                            fail(s3, KindSet::spec_only(TokenKind::Eof))
                        },
                    }
                },
            }
        }
    } else {
        (s, Ok(acc))
    }
}

/// An optional `:` and return type.
pub open spec fn def_ty(toks: Seq<TokenKind>, s: PState) -> Step<Option<TypeId>> {
    if peek(toks, s) == TokenKind::Colon {
        let (s1, r) = ty(toks, advance(toks, s));
        match r {
            Err(e) => (s1, Err(e)),
            Ok(t) => (s1, Ok(Some(t))),
        }
    } else {
        (s, Ok(None))
    }
}

/// What follows a definition's parameter groups: [`:` type] `=` expr.
pub open spec fn def_rest(toks: Seq<TokenKind>, name: TokenId, after_params: Step<Seq<Param>>) -> Step<DefView> {
    let (s3, r3) = after_params;
    match r3 {
        Err(e) => (s3, Err(e)),
        Ok(params) => {
            let (s4, r4) = def_ty(toks, s3);
            match r4 {
                Err(e) => (s4, Err(e)),
                Ok(t) => {
                    let (s5, r5) = expect(toks, s4, TokenKind::Equal);
                    match r5 {
                        Err(e) => (s5, Err(e)),
                        Ok(_) => {
                            let (s6, r6) = expr(toks, s5);
                            match r6 {
                                Err(e) => (s6, Err(e)),
                                Ok(body) => (s6, Ok(DefView { name, params, ty: t, body })),
                            }
                        },
                    }
                },
            }
        },
    }
}

/// `def` name params [`:` type] `=` expr.
pub open spec fn def(toks: Seq<TokenKind>, s: PState) -> Step<DefView> {
    let (s1, r1) = expect(toks, s, TokenKind::Def);
    match r1 {
        Err(e) => (s1, Err(e)),
        Ok(_) => {
            let (s2, r2) = expect(toks, s1, TokenKind::Ident);
            match r2 {
                Err(e) => (s2, Err(e)),
                Ok(name) => def_rest(toks, name, def_params(toks, s2, seq![])),
            }
        },
    }
}

/// Definitions until `Eof`; any other token is an error.
pub open spec fn module_loop(toks: Seq<TokenKind>, s: PState, defs: Seq<DefView>) -> Step<Seq<DefView>>
    decreases toks.len() - s.pos,
{
    if peek(toks, s) == TokenKind::Def {
        let (s1, r) = def(toks, s);
        match r {
            Err(e) => (s1, Err(e)),
            Ok(d) => if moved(toks, s, s1) {
                module_loop(toks, s1, defs.push(d))
            } else {
                fail(s1, KindSet::spec_only(TokenKind::Eof))
            },
        }
    } else if peek(toks, s) == TokenKind::Eof {
        (s, Ok(defs))
    } else {
        fail(s, two(TokenKind::Def, TokenKind::Eof))
    }
}

/// The state before the first token: empty arenas, cursor on the first
/// significant token.
pub open spec fn start(toks: Seq<TokenKind>) -> PState {
    PState { before_ws: 0, pos: skip_ws(toks, 0), types: seq![], binds: seq![], exprs: seq![] }
}

/// What parsing the whole stream gives.
pub open spec fn parsed(toks: Seq<TokenKind>) -> Result<ModuleView, ParseError> {
    let (s, r) = module_loop(toks, start(toks), seq![]);
    match r {
        Err(e) => Err(e),
        Ok(defs) => Ok(ModuleView { types: s.types, binds: s.binds, exprs: s.exprs, defs }),
    }
}

// ---------------------------------------------------------------- well-formedness

/// `p` names a pattern below `nb` and, if annotated, a type below `nt`.
pub open spec fn param_in(p: Param, nb: int, nt: int) -> bool {
    &&& (p.bind.index as int) < nb
    &&& p.ty matches Some(t) ==> (t.index as int) < nt
}

/// A type node at index `i` refers only to earlier types.
pub open spec fn type_node_ok(t: Type, i: int) -> bool {
    t matches Type::Pair { fst, snd } ==> (fst.index as int) < i && (snd.index as int) < i
}

/// A pattern node at index `i` refers only to earlier patterns and to
/// existing types.
pub open spec fn bind_node_ok(b: Bind, i: int, nt: int) -> bool {
    b matches Bind::Pair { fst, snd } ==> param_in(fst, i, nt) && param_in(snd, i, nt)
}

/// An expression node at index `i` refers only to earlier expressions and
/// to existing patterns and types.
pub open spec fn expr_node_ok(e: Expr, i: int, nb: int, nt: int) -> bool {
    match e {
        Expr::Pair { fst, snd } => (fst.index as int) < i && (snd.index as int) < i,
        Expr::Apply { func, arg } => (func.index as int) < i && (arg.index as int) < i,
        Expr::Binary { lhs, rhs, .. } => (lhs.index as int) < i && (rhs.index as int) < i,
        Expr::Let { param, val, body } => param_in(param, nb, nt) && (val.index as int) < i
            && (body.index as int) < i,
        _ => true,
    }
}

/// Every node of the three arenas refers only to nodes allocated before it.
#[verifier::opaque]
pub open spec fn arenas_ok(types: Seq<Type>, binds: Seq<Bind>, exprs: Seq<Expr>) -> bool {
    &&& forall|i: int| 0 <= i < types.len() ==> #[trigger] type_node_ok(types[i], i)
    &&& forall|i: int| 0 <= i < binds.len() ==> #[trigger] bind_node_ok(binds[i], i, types.len() as int)
    &&& forall|i: int|
        0 <= i < exprs.len() ==> #[trigger] expr_node_ok(
            exprs[i],
            i,
            binds.len() as int,
            types.len() as int,
        )
}

/// No arena shrank from `a` to `b`.
pub open spec fn grew(a: PState, b: PState) -> bool {
    &&& a.types.len() <= b.types.len()
    &&& a.binds.len() <= b.binds.len()
    &&& a.exprs.len() <= b.exprs.len()
}

pub proof fn lemma_push_type(types: Seq<Type>, binds: Seq<Bind>, exprs: Seq<Expr>, t: Type)
    requires
        arenas_ok(types, binds, exprs),
        type_node_ok(t, types.len() as int),
    ensures
        arenas_ok(types.push(t), binds, exprs),
{
    reveal(arenas_ok);
    let ts = types.push(t);
    assert forall|i: int| 0 <= i < ts.len() implies #[trigger] type_node_ok(ts[i], i) by {
        if i < types.len() {
            assert(type_node_ok(types[i], i));
        }
    }
    assert forall|i: int| 0 <= i < binds.len() implies #[trigger] bind_node_ok(binds[i], i, ts.len() as int) by {
        assert(bind_node_ok(binds[i], i, types.len() as int));
    }
    assert forall|i: int| 0 <= i < exprs.len() implies #[trigger] expr_node_ok(
        exprs[i],
        i,
        binds.len() as int,
        ts.len() as int,
    ) by {
        assert(expr_node_ok(exprs[i], i, binds.len() as int, types.len() as int));
    }
}

pub proof fn lemma_push_bind(types: Seq<Type>, binds: Seq<Bind>, exprs: Seq<Expr>, b: Bind)
    requires
        arenas_ok(types, binds, exprs),
        bind_node_ok(b, binds.len() as int, types.len() as int),
    ensures
        arenas_ok(types, binds.push(b), exprs),
{
    reveal(arenas_ok);
    let bs = binds.push(b);
    assert forall|i: int| 0 <= i < bs.len() implies #[trigger] bind_node_ok(bs[i], i, types.len() as int) by {
        if i < binds.len() {
            assert(bind_node_ok(binds[i], i, types.len() as int));
        }
    }
    assert forall|i: int| 0 <= i < exprs.len() implies #[trigger] expr_node_ok(
        exprs[i],
        i,
        bs.len() as int,
        types.len() as int,
    ) by {
        assert(expr_node_ok(exprs[i], i, binds.len() as int, types.len() as int));
    }
}

pub proof fn lemma_push_expr(types: Seq<Type>, binds: Seq<Bind>, exprs: Seq<Expr>, e: Expr)
    requires
        arenas_ok(types, binds, exprs),
        expr_node_ok(e, exprs.len() as int, binds.len() as int, types.len() as int),
    ensures
        arenas_ok(types, binds, exprs.push(e)),
{
    reveal(arenas_ok);
    let es = exprs.push(e);
    assert forall|i: int| 0 <= i < es.len() implies #[trigger] expr_node_ok(
        es[i],
        i,
        binds.len() as int,
        types.len() as int,
    ) by {
        if i < exprs.len() {
            assert(expr_node_ok(exprs[i], i, binds.len() as int, types.len() as int));
        }
    }
}

pub proof fn lemma_empty_arenas()
    ensures
        arenas_ok(seq![], seq![], seq![]),
{
    reveal(arenas_ok);
}

/// A definition refers only to existing nodes.
pub open spec fn def_ok(d: DefView, nb: int, nt: int, ne: int) -> bool {
    &&& forall|j: int| 0 <= j < d.params.len() ==> #[trigger] param_in(d.params[j], nb, nt)
    &&& d.ty matches Some(t) ==> (t.index as int) < nt
    &&& (d.body.index as int) < ne
}

/// A definition stays valid as the arenas grow.
pub proof fn lemma_def_ok_grows(d: DefView, nb: int, nt: int, ne: int, nb2: int, nt2: int, ne2: int)
    requires
        def_ok(d, nb, nt, ne),
        nb <= nb2,
        nt <= nt2,
        ne <= ne2,
    ensures
        def_ok(d, nb2, nt2, ne2),
{
    assert forall|j: int| 0 <= j < d.params.len() implies #[trigger] param_in(d.params[j], nb2, nt2) by {
        assert(param_in(d.params[j], nb, nt));
    }
}

impl ModuleView {
    /// Every handle in the module refers to a node of it, and every node
    /// refers only to nodes allocated before it.
    pub open spec fn wf(self) -> bool {
        &&& arenas_ok(self.types, self.binds, self.exprs)
        &&& forall|k: int|
            0 <= k < self.defs.len() ==> #[trigger] def_ok(
                self.defs[k],
                self.binds.len() as int,
                self.types.len() as int,
                self.exprs.len() as int,
            )
    }
}

// ---------------------------------------------------------------- laws

/// A comma list of types nests to the right: the outermost pair holds the
/// first element and the fold of the rest, and one pair is added per comma.
pub proof fn lemma_fold_ty_nests_right(s: PState, elems: Seq<TypeId>, acc: TypeId)
    requires
        elems.len() >= 1,
    ensures
        fold_ty(s, elems, acc) == ({
            let (s1, r1) = fold_ty(s, elems.subrange(1, elems.len() as int), acc);
            alloc_ty(s1, Type::Pair { fst: elems[0], snd: r1 })
        }),
        fold_ty(s, elems, acc).0.types.len() == s.types.len() + elems.len(),
    decreases elems.len(),
{
    if elems.len() == 1 {
        assert(elems.subrange(1, 1) =~= Seq::<TypeId>::empty());
        assert(elems.drop_last() =~= Seq::<TypeId>::empty());
        assert(elems.last() == elems[0]);
        let (s1, t) = alloc_ty(s, Type::Pair { fst: elems.last(), snd: acc });
        assert(fold_ty(s1, elems.drop_last(), t) == (s1, t));
    } else {
        let (s1, t) = alloc_ty(s, Type::Pair { fst: elems.last(), snd: acc });
        let rest = elems.subrange(1, elems.len() as int);
        lemma_fold_ty_nests_right(s1, elems.drop_last(), t);
        assert(rest.last() == elems.last());
        assert(elems.drop_last().subrange(1, elems.len() - 1) =~= rest.drop_last());
        assert(elems.drop_last()[0] == elems[0]);
        assert(fold_ty(s, rest, acc) == fold_ty(s1, rest.drop_last(), t));
    }
}

/// A comma list of patterns nests to the right; synthesized params carry no
/// type, and one pair is added per comma.
pub proof fn lemma_fold_param_nests_right(s: PState, elems: Seq<Param>, acc: Param)
    requires
        elems.len() >= 1,
    ensures
        fold_param(s, elems, acc) == ({
            let (s1, r1) = fold_param(s, elems.subrange(1, elems.len() as int), acc);
            let (s2, b) = alloc_bind(s1, Bind::Pair { fst: elems[0], snd: r1 });
            (s2, Param { bind: b, ty: None })
        }),
        fold_param(s, elems, acc).0.binds.len() == s.binds.len() + elems.len(),
    decreases elems.len(),
{
    if elems.len() == 1 {
        assert(elems.subrange(1, 1) =~= Seq::<Param>::empty());
        assert(elems.drop_last() =~= Seq::<Param>::empty());
        assert(elems.last() == elems[0]);
        let (s1, b) = alloc_bind(s, Bind::Pair { fst: elems.last(), snd: acc });
        assert(fold_param(s1, elems.drop_last(), Param { bind: b, ty: None }) == (s1, Param { bind: b, ty: None }));
    } else {
        let (s1, b) = alloc_bind(s, Bind::Pair { fst: elems.last(), snd: acc });
        let rest = elems.subrange(1, elems.len() as int);
        lemma_fold_param_nests_right(s1, elems.drop_last(), Param { bind: b, ty: None });
        assert(rest.last() == elems.last());
        assert(elems.drop_last().subrange(1, elems.len() - 1) =~= rest.drop_last());
        assert(elems.drop_last()[0] == elems[0]);
        assert(fold_param(s, rest, acc) == fold_param(s1, rest.drop_last(), Param { bind: b, ty: None }));
    }
}

/// A comma list of expressions nests to the right: `a, b, c` is
/// `Pair(a, Pair(b, c))`, with one pair added per comma.
pub proof fn lemma_fold_expr_nests_right(s: PState, elems: Seq<ExprId>, acc: ExprId)
    requires
        elems.len() >= 1,
    ensures
        fold_expr(s, elems, acc) == ({
            let (s1, r1) = fold_expr(s, elems.subrange(1, elems.len() as int), acc);
            alloc_expr(s1, Expr::Pair { fst: elems[0], snd: r1 })
        }),
        fold_expr(s, elems, acc).0.exprs.len() == s.exprs.len() + elems.len(),
    decreases elems.len(),
{
    if elems.len() == 1 {
        assert(elems.subrange(1, 1) =~= Seq::<ExprId>::empty());
        assert(elems.drop_last() =~= Seq::<ExprId>::empty());
        assert(elems.last() == elems[0]);
        let (s1, e) = alloc_expr(s, Expr::Pair { fst: elems.last(), snd: acc });
        assert(fold_expr(s1, elems.drop_last(), e) == (s1, e));
    } else {
        let (s1, e) = alloc_expr(s, Expr::Pair { fst: elems.last(), snd: acc });
        let rest = elems.subrange(1, elems.len() as int);
        lemma_fold_expr_nests_right(s1, elems.drop_last(), e);
        assert(rest.last() == elems.last());
        assert(elems.drop_last().subrange(1, elems.len() - 1) =~= rest.drop_last());
        assert(elems.drop_last()[0] == elems[0]);
        assert(fold_expr(s, rest, acc) == fold_expr(s1, rest.drop_last(), e));
    }
}

/// Once a line break has been crossed, application stops: the application
/// built so far is the result and the cursor stays on the next token.
pub proof fn lemma_line_break_stops_application(toks: Seq<TokenKind>, s: PState, f: ExprId)
    requires
        newline(s),
    ensures
        factor_more(toks, s, f) == (s, Ok::<ExprId, ParseError>(f)),
{
}

/// On one line, a following atom becomes the argument of the application
/// built so far, which nests to the left.
pub proof fn lemma_application_nests_left(toks: Seq<TokenKind>, s: PState, f: ExprId)
    requires
        !newline(s),
        starts_atom(peek(toks, s)),
        expr_atom(toks, s).1 is Ok,
        moved(toks, s, expr_atom(toks, s).0),
    ensures
        factor_more(toks, s, f) == ({
            let (s1, r) = expr_atom(toks, s);
            let (s2, a) = alloc_expr(s1, Expr::Apply { func: f, arg: r->Ok_0 });
            factor_more(toks, s2, a)
        }),
{
}

/// The let separator: a `;` is always taken; without one, a crossed line
/// break ends the value, and otherwise the `;` is reported missing.
pub proof fn lemma_let_separator(toks: Seq<TokenKind>, s: PState)
    ensures
        peek(toks, s) == TokenKind::Semicolon ==> let_sep(toks, s) == (
            advance(toks, s),
            Ok::<TokenId, ParseError>(tid(s.pos)),
        ),
        peek(toks, s) != TokenKind::Semicolon && newline(s) ==> let_sep(toks, s) == (
            s,
            Ok::<TokenId, ParseError>(tid(s.pos)),
        ),
        peek(toks, s) != TokenKind::Semicolon && !newline(s) ==> let_sep(toks, s) == (
            s,
            Err::<TokenId, ParseError>(
                ParseError::Expected { id: tid(s.pos), kinds: KindSet::spec_only(TokenKind::Semicolon) },
            ),
        ),
{
}

/// After a product so far, a `*` or `/` and the next factor make a new
/// product whose left side is the one so far: products nest to the left.
pub proof fn lemma_product_nests_left(toks: Seq<TokenKind>, s: PState, lhs: ExprId)
    requires
        mul_op(peek(toks, s)) is Some,
        moved(toks, s, advance(toks, s)),
        expr_factor(toks, advance(toks, s)).1 is Ok,
        moved(toks, s, expr_factor(toks, advance(toks, s)).0),
    ensures
        term_more(toks, s, lhs) == ({
            let (s2, r) = expr_factor(toks, advance(toks, s));
            let (s3, e) = alloc_expr(
                s2,
                Expr::Binary { lhs, op: mul_op(peek(toks, s))->Some_0, rhs: r->Ok_0 },
            );
            term_more(toks, s3, e)
        }),
{
}

/// After a sum so far, a `+` or `-` and the next term make a new sum whose
/// left side is the one so far: sums nest to the left.
pub proof fn lemma_sum_nests_left(toks: Seq<TokenKind>, s: PState, lhs: ExprId)
    requires
        add_op(peek(toks, s)) is Some,
        moved(toks, s, advance(toks, s)),
        expr_term(toks, advance(toks, s)).1 is Ok,
        moved(toks, s, expr_term(toks, advance(toks, s)).0),
    ensures
        elem_more(toks, s, lhs) == ({
            let (s2, r) = expr_term(toks, advance(toks, s));
            let (s3, e) = alloc_expr(
                s2,
                Expr::Binary { lhs, op: add_op(peek(toks, s))->Some_0, rhs: r->Ok_0 },
            );
            elem_more(toks, s3, e)
        }),
{
}

} // verus!
