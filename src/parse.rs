use vstd::prelude::*;

use crate::grammar::{
    add_op, advance, alloc_bind, alloc_expr, alloc_ty, tid, arenas_ok, bind_atom, bind_node_ok, def, def_ok, def_params, def_rest,
    elem_more, expect, expr, expr_atom, expr_elem, expr_factor, expr_inner, expr_node_ok,
    expr_term, factor_more, fold_expr, fold_param, fold_ty, grew, inner_list, inner_more, is_ws,
    lemma_def_ok_grows, lemma_empty_arenas, lemma_push_bind, lemma_push_expr, lemma_push_type,
    module_loop, mul_op, newline, nodes, param, param_elem, param_in, param_list, param_more,
    parsed, peek, skip_ws, start, starts_atom, term_more, ty, ty_atom, ty_list, ty_more,
    type_node_ok, DefView, ModuleView, PState, Step,
};
use crate::lex::{KindSet, TokenId, TokenKind, Tokens, MAX_TOKENS};

verus! {

/// Handle of a node in the type arena.
#[derive(Clone, Copy, Debug, PartialEq, Eq, Hash, PartialOrd, Ord, Structural)]
pub struct TypeId {
    pub index: u32,
}

impl From<TypeId> for usize {
    fn from(id: TypeId) -> usize {
        id.index as usize
    }
}

impl vstd::std_specs::convert::FromSpecImpl<TypeId> for usize {
    open spec fn obeys_from_spec() -> bool {
        true
    }

    open spec fn from_spec(id: TypeId) -> usize {
        id.index as usize
    }
}

/// Handle of a node in the binding-pattern arena.
#[derive(Clone, Copy, Debug, PartialEq, Eq, Hash, PartialOrd, Ord, Structural)]
pub struct BindId {
    pub index: u32,
}

impl From<BindId> for usize {
    fn from(id: BindId) -> usize {
        id.index as usize
    }
}

impl vstd::std_specs::convert::FromSpecImpl<BindId> for usize {
    open spec fn obeys_from_spec() -> bool {
        true
    }

    open spec fn from_spec(id: BindId) -> usize {
        id.index as usize
    }
}

/// Handle of a node in the expression arena.
#[derive(Clone, Copy, Debug, PartialEq, Eq, Hash, PartialOrd, Ord, Structural)]
pub struct ExprId {
    pub index: u32,
}

impl From<ExprId> for usize {
    fn from(id: ExprId) -> usize {
        id.index as usize
    }
}

impl vstd::std_specs::convert::FromSpecImpl<ExprId> for usize {
    open spec fn obeys_from_spec() -> bool {
        true
    }

    open spec fn from_spec(id: ExprId) -> usize {
        id.index as usize
    }
}

#[derive(Clone, Copy, Debug, PartialEq, Eq, Structural)]
pub enum Type {
    Unit,
    Name { name: TokenId },
    Pair { fst: TypeId, snd: TypeId },
}

#[derive(Clone, Copy, Debug, PartialEq, Eq, Structural)]
pub enum Bind {
    Unit,
    Name { name: TokenId },
    Pair { fst: Param, snd: Param },
}

/// A binding pattern with an optional type annotation.
#[derive(Clone, Copy, Debug, PartialEq, Eq, Structural)]
pub struct Param {
    pub bind: BindId,
    pub ty: Option<TypeId>,
}

#[derive(Clone, Copy, Debug, PartialEq, Eq, Structural)]
pub enum Binop {
    Add,
    Sub,
    Mul,
    Div,
}

#[derive(Clone, Copy, Debug, PartialEq, Eq, Structural)]
pub enum Expr {
    Name { name: TokenId },
    Unit,
    Number { val: TokenId },
    Pair { fst: ExprId, snd: ExprId },
    Apply { func: ExprId, arg: ExprId },
    Let { param: Param, val: ExprId, body: ExprId },
    Binary { lhs: ExprId, op: Binop, rhs: ExprId },
}

/// A top-level definition.
#[derive(Debug)]
pub struct Def {
    pub name: TokenId,
    pub params: Vec<Param>,
    pub ty: Option<TypeId>,
    pub body: ExprId,
}

impl Def {
    pub open spec fn view(&self) -> DefView {
        DefView { name: self.name, params: self.params@, ty: self.ty, body: self.body }
    }
}

/// The parse tree: three append-only arenas and the definitions.
#[derive(Debug)]
pub struct Module {
    types: Vec<Type>,
    binds: Vec<Bind>,
    exprs: Vec<Expr>,
    defs: Vec<Def>,
}

pub open spec fn defs_view(defs: Seq<Def>) -> Seq<DefView> {
    defs.map_values(|d: Def| d@)
}

/// The error: the position of the offending token and the kinds that would
/// have been accepted there.
#[derive(Clone, Copy, Debug, PartialEq, Eq, Structural)]
pub enum ParseError {
    Expected { id: TokenId, kinds: KindSet },
}

impl Module {
    pub closed spec fn view(&self) -> ModuleView {
        ModuleView {
            types: self.types@,
            binds: self.binds@,
            exprs: self.exprs@,
            defs: defs_view(self.defs@),
        }
    }

    fn make_ty(&mut self, ty: Type) -> (r: TypeId)
        requires
            old(self).types@.len() < u32::MAX,
            arenas_ok(old(self).types@, old(self).binds@, old(self).exprs@),
            type_node_ok(ty, old(self).types@.len() as int),
        ensures
            arenas_ok(final(self).types@, final(self).binds@, final(self).exprs@),
            final(self).types@ == old(self).types@.push(ty),
            final(self).binds@ == old(self).binds@,
            final(self).exprs@ == old(self).exprs@,
            final(self).defs@ == old(self).defs@,
            r == (TypeId { index: old(self).types@.len() as u32 }),
    {
        proof {
            lemma_push_type(self.types@, self.binds@, self.exprs@, ty);
        }
        let id = TypeId { index: self.types.len() as u32 };
        self.types.push(ty);
        id
    }

    fn make_bind(&mut self, bind: Bind) -> (r: BindId)
        requires
            old(self).binds@.len() < u32::MAX,
            arenas_ok(old(self).types@, old(self).binds@, old(self).exprs@),
            bind_node_ok(bind, old(self).binds@.len() as int, old(self).types@.len() as int),
        ensures
            arenas_ok(final(self).types@, final(self).binds@, final(self).exprs@),
            final(self).binds@ == old(self).binds@.push(bind),
            final(self).types@ == old(self).types@,
            final(self).exprs@ == old(self).exprs@,
            final(self).defs@ == old(self).defs@,
            r == (BindId { index: old(self).binds@.len() as u32 }),
    {
        proof {
            lemma_push_bind(self.types@, self.binds@, self.exprs@, bind);
        }
        let id = BindId { index: self.binds.len() as u32 };
        self.binds.push(bind);
        id
    }

    fn make_expr(&mut self, expr: Expr) -> (r: ExprId)
        requires
            old(self).exprs@.len() < u32::MAX,
            arenas_ok(old(self).types@, old(self).binds@, old(self).exprs@),
            expr_node_ok(expr, old(self).exprs@.len() as int, old(self).binds@.len() as int, old(self).types@.len() as int),
        ensures
            arenas_ok(final(self).types@, final(self).binds@, final(self).exprs@),
            final(self).exprs@ == old(self).exprs@.push(expr),
            final(self).types@ == old(self).types@,
            final(self).binds@ == old(self).binds@,
            final(self).defs@ == old(self).defs@,
            r == (ExprId { index: old(self).exprs@.len() as u32 }),
    {
        proof {
            lemma_push_expr(self.types@, self.binds@, self.exprs@, expr);
        }
        let id = ExprId { index: self.exprs.len() as u32 };
        self.exprs.push(expr);
        id
    }

    pub fn ty(&self, id: TypeId) -> (r: Type)
        requires
            (id.index as int) < self@.types.len(),
        ensures
            r == self@.types[id.index as int],
    {
        self.types[usize::from(id)]
    }

    pub fn bind(&self, id: BindId) -> (r: Bind)
        requires
            (id.index as int) < self@.binds.len(),
        ensures
            r == self@.binds[id.index as int],
    {
        self.binds[usize::from(id)]
    }

    pub fn expr(&self, id: ExprId) -> (r: Expr)
        requires
            (id.index as int) < self@.exprs.len(),
        ensures
            r == self@.exprs[id.index as int],
    {
        self.exprs[usize::from(id)]
    }

    pub fn defs(&self) -> (r: &[Def])
        ensures
            defs_view(r@) == self@.defs,
    {
        self.defs.as_slice()
    }
}

/// The first significant position at or after `i` lies before the end, at
/// a significant token.
proof fn lemma_skip_ws(toks: Seq<TokenKind>, i: nat)
    requires
        0 < toks.len(),
        toks.last() == TokenKind::Eof,
        i < toks.len(),
    ensures
        i <= skip_ws(toks, i) < toks.len(),
        !is_ws(toks[skip_ws(toks, i) as int]),
    decreases toks.len() - i,
{
    if is_ws(toks[i as int]) {
        lemma_skip_ws(toks, i + 1);
    }
}

struct Parser {
    before_ws: TokenId,
    id: TokenId,
    module: Module,
}

impl Parser {
    spec fn view(&self) -> PState {
        PState {
            before_ws: self.before_ws.index as nat,
            pos: self.id.index as nat,
            types: self.module.types@,
            binds: self.module.binds@,
            exprs: self.module.exprs@,
        }
    }

    /// The cursor stands on a significant token of a well-formed stream.
    spec fn inv(&self, tokens: &Tokens) -> bool {
        &&& tokens.wf()
        &&& (self.id.index as int) < tokens@.len()
        &&& !is_ws(tokens@[self.id.index as int])
        &&& nodes(self@) <= 2 * self@.pos
        &&& arenas_ok(self@.types, self@.binds, self@.exprs)
    }

    /// The call took `old` to `self` as the grammar's `step` says, with the
    /// invariant kept, the cursor never moved back, no arena shrunk, and on
    /// success fewer than two nodes allocated per token consumed.
    spec fn ok_step<T>(self, tokens: &Tokens, old: Parser, step: Step<T>, r: Result<T, ParseError>) -> bool {
        &&& step == (self@, r)
        &&& self.inv(tokens)
        &&& old.id.index <= self.id.index
        &&& self.module.defs@ == old.module.defs@
        &&& r is Ok ==> nodes(self@) < nodes(old@) + 2 * (self@.pos - old@.pos)
        &&& grew(old@, self@)
    }

    fn peek(&self, tokens: &Tokens) -> (r: TokenKind)
        requires
            (self.id.index as int) < tokens@.len(),
        ensures
            r == peek(tokens@, self@),
    {
        tokens.kind(self.id)
    }

    fn find_non_ws(&mut self, tokens: &Tokens)
        requires
            tokens.wf(),
            (old(self).id.index as int) < tokens@.len(),
            nodes(old(self)@) <= 2 * old(self)@.pos,
            arenas_ok(old(self)@.types, old(self)@.binds, old(self)@.exprs),
        ensures
            final(self)@ == (PState { pos: skip_ws(tokens@, old(self)@.pos), ..old(self)@ }),
            final(self).inv(tokens),
            old(self).id.index <= final(self).id.index,
            final(self).module.defs@ == old(self).module.defs@,
    {
        proof {
            lemma_skip_ws(tokens@, self@.pos);
        }
        let ghost first = self@.pos;
        let mut k = self.peek(tokens);
        while k == TokenKind::Newline || k == TokenKind::Comment
            invariant
                tokens.wf(),
                (self.id.index as int) < tokens@.len(),
                k == peek(tokens@, self@),
                skip_ws(tokens@, self@.pos) == skip_ws(tokens@, first),
                self@ == (PState { pos: self@.pos, ..old(self)@ }),
                self.module.defs@ == old(self).module.defs@,
            decreases tokens@.len() - self.id.index,
        {
            self.id.index = self.id.index + 1;
            k = self.peek(tokens);
        }
        proof {
            lemma_skip_ws(tokens@, self@.pos);
        }
    }

    fn next(&mut self, tokens: &Tokens)
        requires
            old(self).inv(tokens),
            peek(tokens@, old(self)@) != TokenKind::Eof,
        ensures
            final(self)@ == advance(tokens@, old(self)@),
            final(self).inv(tokens),
            old(self).id.index < final(self).id.index,
            final(self).module.defs@ == old(self).module.defs@,
    {
        self.before_ws = TokenId { index: self.id.index + 1 };
        self.id = self.before_ws;
        self.find_non_ws(tokens);
    }

    fn expect(&mut self, tokens: &Tokens, kind: TokenKind) -> (r: Result<TokenId, ParseError>)
        requires
            old(self).inv(tokens),
            kind != TokenKind::Eof || peek(tokens@, old(self)@) != TokenKind::Eof,
        ensures
            final(self).ok_step(tokens, *old(self), expect(tokens@, old(self)@, kind), r),
    {
        let id = self.id;
        if self.peek(tokens) == kind {
            self.next(tokens);
            Ok(id)
        } else {
            Err(ParseError::Expected { id, kinds: KindSet::only(kind) })
        }
    }

    fn newline(&self) -> (r: bool)
        ensures
            r == newline(self@),
    {
        // only single-line comments exist, so anything skipped holds a line break
        self.before_ws.index < self.id.index
    }

    fn ty_atom(&mut self, tokens: &Tokens) -> (r: Result<TypeId, ParseError>)
        requires
            old(self).inv(tokens),
        ensures
            final(self).ok_step(tokens, *old(self), ty_atom(tokens@, old(self)@), r),
            r is Ok ==> old(self).id.index < final(self).id.index,
            r matches Ok(t) ==> (t.index as int) < final(self)@.types.len(),
        decreases tokens@.len() - old(self)@.pos, 0int,
    {
        match self.peek(tokens) {
            TokenKind::Ident => {
                let name = self.id;
                self.next(tokens);
                Ok(self.module.make_ty(Type::Name { name }))
            },
            TokenKind::LParen => {
                self.next(tokens);
                match self.peek(tokens) {
                    TokenKind::RParen => {
                        self.next(tokens);
                        Ok(self.module.make_ty(Type::Unit))
                    },
                    _ => {
                        let ty = self.ty(tokens)?;
                        self.expect(tokens, TokenKind::RParen)?;
                        Ok(ty)
                    },
                }
            },
            _ => Err(
                ParseError::Expected {
                    id: self.id,
                    kinds: KindSet::only(TokenKind::Ident).union(KindSet::only(TokenKind::LParen)),
                },
            ),
        }
    }

    fn ty_elem(&mut self, tokens: &Tokens) -> (r: Result<TypeId, ParseError>)
        requires
            old(self).inv(tokens),
        ensures
            final(self).ok_step(tokens, *old(self), ty_atom(tokens@, old(self)@), r),
            r is Ok ==> old(self).id.index < final(self).id.index,
            r matches Ok(t) ==> (t.index as int) < final(self)@.types.len(),
        decreases tokens@.len() - old(self)@.pos, 1int,
    {
        self.ty_atom(tokens)
    }

    /// Allocates the right fold of `elems` with `acc` as the innermost
    /// second component.
    fn fold_types(&mut self, elems: &Vec<TypeId>, n: usize, last: TypeId) -> (r: TypeId)
        requires
            n <= elems@.len(),
            nodes(old(self)@) + n <= 2 * old(self)@.pos,
            old(self)@.pos < MAX_TOKENS,
            arenas_ok(old(self)@.types, old(self)@.binds, old(self)@.exprs),
            forall|j: int| 0 <= j < n ==> (elems@[j].index as int) < old(self)@.types.len(),
            (last.index as int) < old(self)@.types.len(),
        ensures
            arenas_ok(final(self)@.types, final(self)@.binds, final(self)@.exprs),
            grew(old(self)@, final(self)@),
            (r.index as int) < final(self)@.types.len(),
            nodes(final(self)@) == nodes(old(self)@) + n,
            (final(self)@, r) == fold_ty(old(self)@, elems@.subrange(0, n as int), last),
            final(self).id == old(self).id,
            final(self).before_ws == old(self).before_ws,
            final(self).module.defs@ == old(self).module.defs@,
    {
        let mut acc = last;
        let mut i = n;
        while i > 0
            invariant
                i <= n <= elems@.len(),
                nodes(self@) + i == nodes(old(self)@) + n,
                nodes(old(self)@) + n <= 2 * old(self)@.pos,
                old(self)@.pos < MAX_TOKENS,
                fold_ty(old(self)@, elems@.subrange(0, n as int), last) == fold_ty(
                    self@,
                    elems@.subrange(0, i as int),
                    acc,
                ),
                self.id == old(self).id,
                self.before_ws == old(self).before_ws,
                self.module.defs@ == old(self).module.defs@,
                arenas_ok(self@.types, self@.binds, self@.exprs),
                grew(old(self)@, self@),
                forall|j: int| 0 <= j < n ==> (elems@[j].index as int) < old(self)@.types.len(),
                (acc.index as int) < self@.types.len(),
            decreases i,
        {
            assert(elems@.subrange(0, i as int).drop_last() =~= elems@.subrange(0, i - 1));
            i = i - 1;
            acc = self.module.make_ty(Type::Pair { fst: elems[i], snd: acc });
        }
        acc
    }

    fn ty(&mut self, tokens: &Tokens) -> (r: Result<TypeId, ParseError>)
        requires
            old(self).inv(tokens),
        ensures
            final(self).ok_step(tokens, *old(self), ty(tokens@, old(self)@), r),
            r is Ok ==> old(self).id.index < final(self).id.index,
            r matches Ok(t) ==> (t.index as int) < final(self)@.types.len(),
        decreases tokens@.len() - old(self)@.pos, 3int,
    {
        let ghost s0 = self@;
        let first = self.ty_elem(tokens)?;
        let mut types: Vec<TypeId> = vec![first];
        assert(types@ =~= seq![].push(first));
        while self.peek(tokens) == TokenKind::Comma
            invariant
                self.inv(tokens),
                s0.pos < self@.pos,
                s0 == old(self)@,
                self.module.defs@ == old(self).module.defs@,
                types@.len() > 0,
                grew(s0, self@),
                forall|j: int| 0 <= j < types@.len() ==> (types@[j].index as int) < self@.types.len(),
                nodes(self@) + types@.len() <= nodes(s0) + 2 * (self@.pos - s0.pos),
                ty_list(tokens@, s0, seq![]) == ty_more(tokens@, self@, types@),
            decreases tokens@.len() - self@.pos,
        {
            let ghost prev = self@;
            self.next(tokens);
            let ghost s1 = self@;
            assert(ty_more(tokens@, prev, types@) == ty_list(tokens@, s1, types@));
            let t = match self.ty_elem(tokens) {
                Ok(t) => t,
                Err(e) => {
                    assert(ty_list(tokens@, s1, types@) == (self@, Err::<Seq<TypeId>, ParseError>(e)));
                    return Err(e);
                },
            };
            types.push(t);
        }
        let n = types.len() - 1;
        let last = types[n];
        assert(types@.drop_last() =~= types@.subrange(0, n as int));
        Ok(self.fold_types(&types, n, last))
    }

    fn bind_atom(&mut self, tokens: &Tokens) -> (r: Result<BindId, ParseError>)
        requires
            old(self).inv(tokens),
        ensures
            final(self).ok_step(tokens, *old(self), bind_atom(tokens@, old(self)@), r),
            r is Ok ==> old(self).id.index < final(self).id.index,
            r matches Ok(b) ==> (b.index as int) < final(self)@.binds.len(),
        decreases tokens@.len() - old(self)@.pos, 0int,
    {
        match self.peek(tokens) {
            TokenKind::Ident => {
                let name = self.id;
                self.next(tokens);
                Ok(self.module.make_bind(Bind::Name { name }))
            },
            TokenKind::LParen => {
                self.next(tokens);
                match self.peek(tokens) {
                    TokenKind::RParen => {
                        self.next(tokens);
                        Ok(self.module.make_bind(Bind::Unit))
                    },
                    _ => {
                        let Param { bind, ty } = self.param(tokens)?;
                        let right = self.expect(tokens, TokenKind::RParen)?;
                        match ty {
                            Some(_) => Err(
                                ParseError::Expected { id: right, kinds: KindSet::only(TokenKind::Comma) },
                            ),
                            None => Ok(bind),
                        }
                    },
                }
            },
            _ => Err(
                ParseError::Expected {
                    id: self.id,
                    kinds: KindSet::only(TokenKind::Ident).union(KindSet::only(TokenKind::LParen)),
                },
            ),
        }
    }

    fn bind_elem(&mut self, tokens: &Tokens) -> (r: Result<BindId, ParseError>)
        requires
            old(self).inv(tokens),
        ensures
            final(self).ok_step(tokens, *old(self), bind_atom(tokens@, old(self)@), r),
            r is Ok ==> old(self).id.index < final(self).id.index,
            r matches Ok(b) ==> (b.index as int) < final(self)@.binds.len(),
        decreases tokens@.len() - old(self)@.pos, 1int,
    {
        self.bind_atom(tokens)
    }

    fn param_elem(&mut self, tokens: &Tokens) -> (r: Result<Param, ParseError>)
        requires
            old(self).inv(tokens),
        ensures
            final(self).ok_step(tokens, *old(self), param_elem(tokens@, old(self)@), r),
            r is Ok ==> old(self).id.index < final(self).id.index,
            r matches Ok(p) ==> param_in(p, final(self)@.binds.len() as int, final(self)@.types.len() as int),
        decreases tokens@.len() - old(self)@.pos, 2int,
    {
        let bind = self.bind_elem(tokens)?;
        let ty = match self.peek(tokens) {
            TokenKind::Colon => {
                self.next(tokens);
                Some(self.ty_elem(tokens)?)
            },
            _ => None,
        };
        Ok(Param { bind, ty })
    }

    /// Allocates the right fold of the first `n` params of `elems`, with
    /// `last` innermost.
    fn fold_params(&mut self, elems: &Vec<Param>, n: usize, last: Param) -> (r: Param)
        requires
            n <= elems@.len(),
            nodes(old(self)@) + n <= 2 * old(self)@.pos,
            old(self)@.pos < MAX_TOKENS,
            arenas_ok(old(self)@.types, old(self)@.binds, old(self)@.exprs),
            forall|j: int| 0 <= j < n ==> param_in(elems@[j], old(self)@.binds.len() as int, old(self)@.types.len() as int),
            param_in(last, old(self)@.binds.len() as int, old(self)@.types.len() as int),
        ensures
            arenas_ok(final(self)@.types, final(self)@.binds, final(self)@.exprs),
            grew(old(self)@, final(self)@),
            param_in(r, final(self)@.binds.len() as int, final(self)@.types.len() as int),
            nodes(final(self)@) == nodes(old(self)@) + n,
            (final(self)@, r) == fold_param(old(self)@, elems@.subrange(0, n as int), last),
            final(self).id == old(self).id,
            final(self).before_ws == old(self).before_ws,
            final(self).module.defs@ == old(self).module.defs@,
    {
        let mut acc = last;
        let mut i = n;
        while i > 0
            invariant
                i <= n <= elems@.len(),
                nodes(self@) + i == nodes(old(self)@) + n,
                nodes(old(self)@) + n <= 2 * old(self)@.pos,
                old(self)@.pos < MAX_TOKENS,
                fold_param(old(self)@, elems@.subrange(0, n as int), last) == fold_param(
                    self@,
                    elems@.subrange(0, i as int),
                    acc,
                ),
                self.id == old(self).id,
                self.before_ws == old(self).before_ws,
                self.module.defs@ == old(self).module.defs@,
                arenas_ok(self@.types, self@.binds, self@.exprs),
                grew(old(self)@, self@),
                forall|j: int| 0 <= j < n ==> param_in(elems@[j], old(self)@.binds.len() as int, old(self)@.types.len() as int),
                param_in(acc, self@.binds.len() as int, self@.types.len() as int),
            decreases i,
        {
            assert(elems@.subrange(0, i as int).drop_last() =~= elems@.subrange(0, i - 1));
            i = i - 1;
            let bind = self.module.make_bind(Bind::Pair { fst: elems[i], snd: acc });
            acc = Param { bind, ty: None };
        }
        acc
    }

    fn param(&mut self, tokens: &Tokens) -> (r: Result<Param, ParseError>)
        requires
            old(self).inv(tokens),
        ensures
            final(self).ok_step(tokens, *old(self), param(tokens@, old(self)@), r),
            r is Ok ==> old(self).id.index < final(self).id.index,
            r matches Ok(p) ==> param_in(p, final(self)@.binds.len() as int, final(self)@.types.len() as int),
        decreases tokens@.len() - old(self)@.pos, 4int,
    {
        let ghost s0 = self@;
        let first = self.param_elem(tokens)?;
        let mut params: Vec<Param> = vec![first];
        assert(params@ =~= seq![].push(first));
        while self.peek(tokens) == TokenKind::Comma
            invariant
                self.inv(tokens),
                s0.pos < self@.pos,
                s0 == old(self)@,
                self.module.defs@ == old(self).module.defs@,
                params@.len() > 0,
                grew(s0, self@),
                forall|j: int| 0 <= j < params@.len() ==> param_in(params@[j], self@.binds.len() as int, self@.types.len() as int),
                nodes(self@) + params@.len() <= nodes(s0) + 2 * (self@.pos - s0.pos),
                param_list(tokens@, s0, seq![]) == param_more(tokens@, self@, params@),
            decreases tokens@.len() - self@.pos,
        {
            let ghost prev = self@;
            self.next(tokens);
            let ghost s1 = self@;
            assert(param_more(tokens@, prev, params@) == param_list(tokens@, s1, params@));
            let p = match self.param_elem(tokens) {
                Ok(p) => p,
                Err(e) => {
                    assert(param_list(tokens@, s1, params@) == (self@, Err::<Seq<Param>, ParseError>(e)));
                    return Err(e);
                },
            };
            params.push(p);
        }
        let n = params.len() - 1;
        let last = params[n];
        assert(params@.drop_last() =~= params@.subrange(0, n as int));
        Ok(self.fold_params(&params, n, last))
    }

    fn expr_atom(&mut self, tokens: &Tokens) -> (r: Result<ExprId, ParseError>)
        requires
            old(self).inv(tokens),
        ensures
            final(self).ok_step(tokens, *old(self), expr_atom(tokens@, old(self)@), r),
            r is Ok ==> old(self).id.index < final(self).id.index,
            r matches Ok(e) ==> (e.index as int) < final(self)@.exprs.len(),
        decreases tokens@.len() - old(self)@.pos, 0int,
    {
        match self.peek(tokens) {
            TokenKind::LParen => {
                self.next(tokens);
                match self.peek(tokens) {
                    TokenKind::RParen => {
                        self.next(tokens);
                        Ok(self.module.make_expr(Expr::Unit))
                    },
                    _ => {
                        let expr = self.expr(tokens)?;
                        self.expect(tokens, TokenKind::RParen)?;
                        Ok(expr)
                    },
                }
            },
            TokenKind::Ident => {
                let name = self.id;
                self.next(tokens);
                Ok(self.module.make_expr(Expr::Name { name }))
            },
            TokenKind::Number => {
                let val = self.id;
                self.next(tokens);
                Ok(self.module.make_expr(Expr::Number { val }))
            },
            _ => Err(
                ParseError::Expected {
                    id: self.id,
                    kinds: KindSet::only(TokenKind::LParen).union(
                        KindSet::only(TokenKind::Ident).union(KindSet::only(TokenKind::Number)),
                    ),
                },
            ),
        }
    }

    fn at_atom(&self, tokens: &Tokens) -> (r: bool)
        requires
            self.inv(tokens),
        ensures
            r == starts_atom(peek(tokens@, self@)),
    {
        let k = self.peek(tokens);
        k == TokenKind::LParen || k == TokenKind::Ident || k == TokenKind::Number
    }

    fn mul_op(&self, tokens: &Tokens) -> (r: Option<Binop>)
        requires
            self.inv(tokens),
        ensures
            r == mul_op(peek(tokens@, self@)),
    {
        match self.peek(tokens) {
            TokenKind::Asterisk => Some(Binop::Mul),
            TokenKind::Slash => Some(Binop::Div),
            _ => None,
        }
    }

    fn add_op(&self, tokens: &Tokens) -> (r: Option<Binop>)
        requires
            self.inv(tokens),
        ensures
            r == add_op(peek(tokens@, self@)),
    {
        match self.peek(tokens) {
            TokenKind::Plus => Some(Binop::Add),
            TokenKind::Hyphen => Some(Binop::Sub),
            _ => None,
        }
    }

    fn expr_factor(&mut self, tokens: &Tokens) -> (r: Result<ExprId, ParseError>)
        requires
            old(self).inv(tokens),
        ensures
            final(self).ok_step(tokens, *old(self), expr_factor(tokens@, old(self)@), r),
            r is Ok ==> old(self).id.index < final(self).id.index,
            r matches Ok(e) ==> (e.index as int) < final(self)@.exprs.len(),
        decreases tokens@.len() - old(self)@.pos, 2int,
    {
        let ghost s0 = self@;
        let mut f = self.expr_atom(tokens)?;
        // function application is the only place where line breaks matter
        while !self.newline() && self.at_atom(tokens)
            invariant
                self.inv(tokens),
                s0.pos < self@.pos,
                s0 == old(self)@,
                self.module.defs@ == old(self).module.defs@,
                nodes(self@) < nodes(s0) + 2 * (self@.pos - s0.pos),
                grew(s0, self@),
                (f.index as int) < self@.exprs.len(),
                expr_factor(tokens@, s0) == factor_more(tokens@, self@, f),
            decreases tokens@.len() - self@.pos,
        {
            let x = match self.expr_atom(tokens) {
                Ok(x) => x,
                Err(e) => {
                    return Err(e);
                },
            };
            f = self.module.make_expr(Expr::Apply { func: f, arg: x });
        }
        Ok(f)
    }

    fn expr_term(&mut self, tokens: &Tokens) -> (r: Result<ExprId, ParseError>)
        requires
            old(self).inv(tokens),
        ensures
            final(self).ok_step(tokens, *old(self), expr_term(tokens@, old(self)@), r),
            r is Ok ==> old(self).id.index < final(self).id.index,
            r matches Ok(e) ==> (e.index as int) < final(self)@.exprs.len(),
        decreases tokens@.len() - old(self)@.pos, 4int,
    {
        let ghost s0 = self@;
        let mut lhs = self.expr_factor(tokens)?;
        let mut op = self.mul_op(tokens);
        while op.is_some()
            invariant
                self.inv(tokens),
                s0.pos < self@.pos,
                s0 == old(self)@,
                self.module.defs@ == old(self).module.defs@,
                op == mul_op(peek(tokens@, self@)),
                nodes(self@) < nodes(s0) + 2 * (self@.pos - s0.pos),
                grew(s0, self@),
                (lhs.index as int) < self@.exprs.len(),
                expr_term(tokens@, s0) == term_more(tokens@, self@, lhs),
            decreases tokens@.len() - self@.pos,
        {
            let o = op.unwrap();
            self.next(tokens);
            let rhs = match self.expr_factor(tokens) {
                Ok(x) => x,
                Err(e) => {
                    return Err(e);
                },
            };
            lhs = self.module.make_expr(Expr::Binary { lhs, op: o, rhs });
            op = self.mul_op(tokens);
        }
        Ok(lhs)
    }

    fn expr_elem(&mut self, tokens: &Tokens) -> (r: Result<ExprId, ParseError>)
        requires
            old(self).inv(tokens),
        ensures
            final(self).ok_step(tokens, *old(self), expr_elem(tokens@, old(self)@), r),
            r is Ok ==> old(self).id.index < final(self).id.index,
            r matches Ok(e) ==> (e.index as int) < final(self)@.exprs.len(),
        decreases tokens@.len() - old(self)@.pos, 6int,
    {
        let ghost s0 = self@;
        let mut lhs = self.expr_term(tokens)?;
        let mut op = self.add_op(tokens);
        while op.is_some()
            invariant
                self.inv(tokens),
                s0.pos < self@.pos,
                s0 == old(self)@,
                self.module.defs@ == old(self).module.defs@,
                op == add_op(peek(tokens@, self@)),
                nodes(self@) < nodes(s0) + 2 * (self@.pos - s0.pos),
                grew(s0, self@),
                (lhs.index as int) < self@.exprs.len(),
                expr_elem(tokens@, s0) == elem_more(tokens@, self@, lhs),
            decreases tokens@.len() - self@.pos,
        {
            let o = op.unwrap();
            self.next(tokens);
            let rhs = match self.expr_term(tokens) {
                Ok(x) => x,
                Err(e) => {
                    return Err(e);
                },
            };
            lhs = self.module.make_expr(Expr::Binary { lhs, op: o, rhs });
            op = self.add_op(tokens);
        }
        Ok(lhs)
    }

    /// Allocates the right fold of the first `n` expressions of `elems`, with
    /// `last` innermost.
    fn fold_exprs(&mut self, elems: &Vec<ExprId>, n: usize, last: ExprId) -> (r: ExprId)
        requires
            n <= elems@.len(),
            nodes(old(self)@) + n <= 2 * old(self)@.pos,
            old(self)@.pos < MAX_TOKENS,
            arenas_ok(old(self)@.types, old(self)@.binds, old(self)@.exprs),
            forall|j: int| 0 <= j < n ==> (elems@[j].index as int) < old(self)@.exprs.len(),
            (last.index as int) < old(self)@.exprs.len(),
        ensures
            arenas_ok(final(self)@.types, final(self)@.binds, final(self)@.exprs),
            grew(old(self)@, final(self)@),
            (r.index as int) < final(self)@.exprs.len(),
            nodes(final(self)@) == nodes(old(self)@) + n,
            (final(self)@, r) == fold_expr(old(self)@, elems@.subrange(0, n as int), last),
            final(self).id == old(self).id,
            final(self).before_ws == old(self).before_ws,
            final(self).module.defs@ == old(self).module.defs@,
    {
        let mut acc = last;
        let mut i = n;
        while i > 0
            invariant
                i <= n <= elems@.len(),
                nodes(self@) + i == nodes(old(self)@) + n,
                nodes(old(self)@) + n <= 2 * old(self)@.pos,
                old(self)@.pos < MAX_TOKENS,
                fold_expr(old(self)@, elems@.subrange(0, n as int), last) == fold_expr(
                    self@,
                    elems@.subrange(0, i as int),
                    acc,
                ),
                self.id == old(self).id,
                self.before_ws == old(self).before_ws,
                self.module.defs@ == old(self).module.defs@,
                arenas_ok(self@.types, self@.binds, self@.exprs),
                grew(old(self)@, self@),
                forall|j: int| 0 <= j < n ==> (elems@[j].index as int) < old(self)@.exprs.len(),
                (acc.index as int) < self@.exprs.len(),
            decreases i,
        {
            assert(elems@.subrange(0, i as int).drop_last() =~= elems@.subrange(0, i - 1));
            i = i - 1;
            acc = self.module.make_expr(Expr::Pair { fst: elems[i], snd: acc });
        }
        acc
    }

    fn expr_inner(&mut self, tokens: &Tokens) -> (r: Result<ExprId, ParseError>)
        requires
            old(self).inv(tokens),
        ensures
            final(self).ok_step(tokens, *old(self), expr_inner(tokens@, old(self)@), r),
            r is Ok ==> old(self).id.index < final(self).id.index,
            r matches Ok(e) ==> (e.index as int) < final(self)@.exprs.len(),
        decreases tokens@.len() - old(self)@.pos, 9int,
    {
        let ghost s0 = self@;
        let first = self.expr_elem(tokens)?;
        let mut exprs: Vec<ExprId> = vec![first];
        assert(exprs@ =~= seq![].push(first));
        while self.peek(tokens) == TokenKind::Comma
            invariant
                self.inv(tokens),
                s0.pos < self@.pos,
                s0 == old(self)@,
                self.module.defs@ == old(self).module.defs@,
                exprs@.len() > 0,
                grew(s0, self@),
                forall|j: int| 0 <= j < exprs@.len() ==> (exprs@[j].index as int) < self@.exprs.len(),
                nodes(self@) + exprs@.len() <= nodes(s0) + 2 * (self@.pos - s0.pos),
                inner_list(tokens@, s0, seq![]) == inner_more(tokens@, self@, exprs@),
            decreases tokens@.len() - self@.pos,
        {
            let ghost prev = self@;
            self.next(tokens);
            let ghost s1 = self@;
            assert(inner_more(tokens@, prev, exprs@) == inner_list(tokens@, s1, exprs@));
            let x = match self.expr_elem(tokens) {
                Ok(x) => x,
                Err(e) => {
                    assert(inner_list(tokens@, s1, exprs@) == (self@, Err::<Seq<ExprId>, ParseError>(e)));
                    return Err(e);
                },
            };
            exprs.push(x);
        }
        let n = exprs.len() - 1;
        let last = exprs[n];
        assert(exprs@.drop_last() =~= exprs@.subrange(0, n as int));
        Ok(self.fold_exprs(&exprs, n, last))
    }

    fn expr(&mut self, tokens: &Tokens) -> (r: Result<ExprId, ParseError>)
        requires
            old(self).inv(tokens),
        ensures
            final(self).ok_step(tokens, *old(self), expr(tokens@, old(self)@), r),
            r is Ok ==> old(self).id.index < final(self).id.index,
            r matches Ok(e) ==> (e.index as int) < final(self)@.exprs.len(),
        decreases tokens@.len() - old(self)@.pos, 10int,
    {
        match self.peek(tokens) {
            TokenKind::Let => {
                self.next(tokens);
                let param = self.param(tokens)?;
                self.expect(tokens, TokenKind::Equal)?;
                let val = self.expr_inner(tokens)?;
                // a `;` may always end the value; after a line break it may be left out
                if self.peek(tokens) == TokenKind::Semicolon {
                    self.next(tokens);
                } else if !self.newline() {
                    return Err(
                        ParseError::Expected { id: self.id, kinds: KindSet::only(TokenKind::Semicolon) },
                    );
                }
                let body = self.expr(tokens)?;
                Ok(self.module.make_expr(Expr::Let { param, val, body }))
            },
            _ => self.expr_inner(tokens),
        }
    }

    fn def(&mut self, tokens: &Tokens) -> (r: Result<Def, ParseError>)
        requires
            old(self).inv(tokens),
        ensures
            def(tokens@, old(self)@) == (final(self)@, def_result(r)),
            final(self).inv(tokens),
            old(self).id.index <= final(self).id.index,
            r is Ok ==> old(self).id.index < final(self).id.index,
            r is Ok ==> nodes(final(self)@) < nodes(old(self)@) + 2 * (final(self)@.pos - old(self)@.pos),
            grew(old(self)@, final(self)@),
            r matches Ok(d) ==> def_ok(
                d@,
                final(self)@.binds.len() as int,
                final(self)@.types.len() as int,
                final(self)@.exprs.len() as int,
            ),
            final(self).module.defs@ == old(self).module.defs@,
    {
        self.expect(tokens, TokenKind::Def)?;
        let name = self.expect(tokens, TokenKind::Ident)?;
        let mut params: Vec<Param> = vec![];
        assert(params@ =~= seq![]);
        while self.peek(tokens) == TokenKind::LParen
            invariant
                self.inv(tokens),
                old(self).id.index < self.id.index,
                self.module.defs@ == old(self).module.defs@,
                nodes(self@) <= nodes(old(self)@) + 2 * (self@.pos - old(self)@.pos),
                grew(old(self)@, self@),
                forall|j: int|
                    0 <= j < params@.len() ==> param_in(
                        #[trigger] params@[j],
                        self@.binds.len() as int,
                        self@.types.len() as int,
                    ),
                def(tokens@, old(self)@) == def_rest(tokens@, name, def_params(tokens@, self@, params@)),
            decreases tokens@.len() - self@.pos,
        {
            let ghost prev = self@;
            self.next(tokens);
            let ghost s1 = self@;
            match self.peek(tokens) {
                TokenKind::RParen => {
                    self.next(tokens);
                    let bind = self.module.make_bind(Bind::Unit);
                    let ghost before = params@;
                    params.push(Param { bind, ty: None });
                    assert(forall|j: int| 0 <= j < before.len() ==> params@[j] == before[j]);
                },
                _ => {
                    let p = match self.param(tokens) {
                        Ok(p) => p,
                        Err(e) => {
                            assert(def_params(tokens@, prev, params@) == (self@, Err::<Seq<Param>, ParseError>(e)));
                            return Err(e);
                        },
                    };
                    let ghost s2 = self@;
                    match self.expect(tokens, TokenKind::RParen) {
                        Ok(_) => {},
                        Err(e) => {
                            assert(param(tokens@, s1) == (s2, Ok::<Param, ParseError>(p)));
                            assert(def_params(tokens@, prev, params@) == (self@, Err::<Seq<Param>, ParseError>(e)));
                            return Err(e);
                        },
                    }
                    let ghost before = params@;
                    params.push(p);
                    assert(forall|j: int| 0 <= j < before.len() ==> params@[j] == before[j]);
                },
            }
        }
        let ghost s3 = self@;
        let ty = match self.peek(tokens) {
            TokenKind::Colon => {
                self.next(tokens);
                Some(self.ty(tokens)?)
            },
            _ => None,
        };
        self.expect(tokens, TokenKind::Equal)?;
        let body = self.expr(tokens)?;
        assert forall|j: int| 0 <= j < params@.len() implies param_in(
            #[trigger] params@[j],
            self@.binds.len() as int,
            self@.types.len() as int,
        ) by {
            assert(param_in(params@[j], s3.binds.len() as int, s3.types.len() as int));
        }
        Ok(Def { name, params, ty, body })
    }

    fn module(self, tokens: &Tokens) -> (r: Result<Module, ParseError>)
        requires
            self.inv(tokens),
            forall|k: int| 0 <= k < self.module.defs@.len() ==> #[trigger] def_ok(
                self.module.defs@[k]@,
                self@.binds.len() as int,
                self@.types.len() as int,
                self@.exprs.len() as int,
            ),
        ensures
            r matches Ok(m) ==> m@.wf(),
            module_result(r) == match module_loop(tokens@, self@, defs_view(self.module.defs@)) {
                (s, Ok(defs)) => Ok(
                    ModuleView { types: s.types, binds: s.binds, exprs: s.exprs, defs },
                ),
                (_, Err(e)) => Err(e),
            },
    {
        let mut this = self;
        let ghost s0 = this@;
        let ghost d0 = defs_view(this.module.defs@);
        loop
            invariant
                this.inv(tokens),
                s0 == self@,
                d0 == defs_view(self.module.defs@),
                forall|k: int| 0 <= k < this.module.defs@.len() ==> #[trigger] def_ok(
                    this.module.defs@[k]@,
                    this@.binds.len() as int,
                    this@.types.len() as int,
                    this@.exprs.len() as int,
                ),
                module_loop(tokens@, s0, d0) == module_loop(
                    tokens@,
                    this@,
                    defs_view(this.module.defs@),
                ),
            decreases tokens@.len() - this@.pos,
        {
            match this.peek(tokens) {
                TokenKind::Def => {
                    let ghost before = this@;
                    let ghost old_defs = this.module.defs@;
                    let def = this.def(tokens)?;
                    proof {
                        assert forall|k: int| 0 <= k < old_defs.len() implies #[trigger] def_ok(
                            old_defs[k]@,
                            this@.binds.len() as int,
                            this@.types.len() as int,
                            this@.exprs.len() as int,
                        ) by {
                            lemma_def_ok_grows(
                                old_defs[k]@,
                                before.binds.len() as int,
                                before.types.len() as int,
                                before.exprs.len() as int,
                                this@.binds.len() as int,
                                this@.types.len() as int,
                                this@.exprs.len() as int,
                            );
                        }
                        assert(defs_view(this.module.defs@.push(def)) =~= defs_view(
                            this.module.defs@,
                        ).push(def@));
                    }
                    this.module.defs.push(def);
                },
                TokenKind::Eof => return Ok(this.module),
                _ => {
                    return Err(
                        ParseError::Expected {
                            id: this.id,
                            kinds: KindSet::only(TokenKind::Def).union(KindSet::only(TokenKind::Eof)),
                        },
                    );
                },
            }
        }
    }
}

pub open spec fn def_result(r: Result<Def, ParseError>) -> Result<DefView, ParseError> {
    match r {
        Ok(d) => Ok(d@),
        Err(e) => Err(e),
    }
}

pub open spec fn module_result(r: Result<Module, ParseError>) -> Result<ModuleView, ParseError> {
    match r {
        Ok(m) => Ok(m@),
        Err(e) => Err(e),
    }
}

/// Parses a well-formed token stream into a module, or reports the first
/// token that does not fit the grammar with the kinds accepted there.
pub fn parse(tokens: &Tokens) -> (r: Result<Module, ParseError>)
    requires
        tokens.wf(),
    ensures
        module_result(r) == parsed(tokens@),
        r matches Ok(m) ==> m@.wf(),
{
    let id = TokenId { index: 0 };
    let mut parser = Parser {
        before_ws: id,
        id,
        module: Module { types: vec![], binds: vec![], exprs: vec![], defs: vec![] },
    };
    proof {
        lemma_empty_arenas();
        assert(parser@.types =~= seq![]);
        assert(parser@.binds =~= seq![]);
        assert(parser@.exprs =~= seq![]);
    }
    parser.find_non_ws(tokens);
    assert(parser@ == start(tokens@));
    assert(defs_view(parser.module.defs@) =~= seq![]);
    parser.module(tokens)
}

/// A stream holding only `Eof` parses to a module with no definitions and
/// empty arenas.
pub proof fn lemma_empty_module(toks: Seq<TokenKind>)
    requires
        toks == seq![TokenKind::Eof],
    ensures
        parsed(toks) == Ok::<ModuleView, ParseError>(
            ModuleView { types: seq![], binds: seq![], exprs: seq![], defs: seq![] },
        ),
{
    assert(skip_ws(toks, 0) == 0);
    assert(peek(toks, start(toks)) == TokenKind::Eof);
}

/// Parsing one token stream twice gives the same module, node for node and
/// handle for handle, or the same error.
pub proof fn lemma_parse_deterministic(
    toks: Seq<TokenKind>,
    r1: Result<Module, ParseError>,
    r2: Result<Module, ParseError>,
)
    requires
        module_result(r1) == parsed(toks),
        module_result(r2) == parsed(toks),
    ensures
        module_result(r1) == module_result(r2),
{
}

/// `def f = +` fails at the `+`, where `(`, an identifier or a number
/// would have been accepted.
pub proof fn lemma_operator_is_not_an_atom(toks: Seq<TokenKind>)
    requires
        toks == seq![
            TokenKind::Def,
            TokenKind::Ident,
            TokenKind::Equal,
            TokenKind::Plus,
            TokenKind::Eof,
        ],
    ensures
        parsed(toks) matches Err(ParseError::Expected { id, kinds }) && id.index == 3 && kinds@
            == set![TokenKind::LParen, TokenKind::Ident, TokenKind::Number],
{
    let s0 = start(toks);
    assert(skip_ws(toks, 0) == 0);
    assert(skip_ws(toks, 1) == 1);
    assert(skip_ws(toks, 2) == 2);
    assert(skip_ws(toks, 3) == 3);
    let s1 = advance(toks, s0);
    let s2 = advance(toks, s1);
    let s3 = advance(toks, s2);
    assert(def_params(toks, s2, seq![]) == (s2, Ok::<Seq<Param>, ParseError>(seq![])));
    let atom = expr_atom(toks, s3);
    assert(atom.1 is Err);
    assert(expr_factor(toks, s3) == atom);
    assert(expr_term(toks, s3) == atom);
    assert(expr_elem(toks, s3) == atom);
    assert(inner_list(toks, s3, seq![]) == (atom.0, Err::<Seq<ExprId>, ParseError>(atom.1->Err_0)));
    assert(expr_inner(toks, s3) == atom);
    assert(expr(toks, s3) == atom);
    assert(def(toks, s0) == (atom.0, Err::<DefView, ParseError>(atom.1->Err_0)));
    KindSet::lemma_only(TokenKind::LParen);
    KindSet::lemma_only(TokenKind::Ident);
    KindSet::lemma_only(TokenKind::Number);
    KindSet::lemma_union(KindSet::spec_only(TokenKind::Ident), KindSet::spec_only(TokenKind::Number));
    KindSet::lemma_union(
        KindSet::spec_only(TokenKind::LParen),
        KindSet::spec_only(TokenKind::Ident).spec_union(KindSet::spec_only(TokenKind::Number)),
    );
    assert(set![TokenKind::LParen] + (set![TokenKind::Ident] + set![TokenKind::Number]) =~= set![
        TokenKind::LParen,
        TokenKind::Ident,
        TokenKind::Number,
    ]);
}

/// `def f((x: T)) = x` fails at the `)` after `T`, where only a `,` (making
/// the annotated pattern an element of a tuple) would have been accepted.
pub proof fn lemma_annotated_singleton_rejected(toks: Seq<TokenKind>)
    requires
        toks == seq![
            TokenKind::Def,
            TokenKind::Ident,
            TokenKind::LParen,
            TokenKind::LParen,
            TokenKind::Ident,
            TokenKind::Colon,
            TokenKind::Ident,
            TokenKind::RParen,
            TokenKind::RParen,
            TokenKind::Equal,
            TokenKind::Ident,
            TokenKind::Eof,
        ],
    ensures
        parsed(toks) matches Err(ParseError::Expected { id, kinds }) && id.index == 7 && kinds@
            == set![TokenKind::Comma],
{
    let s0 = start(toks);
    assert(skip_ws(toks, 0) == 0);
    assert(skip_ws(toks, 1) == 1);
    assert(skip_ws(toks, 2) == 2);
    assert(skip_ws(toks, 3) == 3);
    assert(skip_ws(toks, 4) == 4);
    assert(skip_ws(toks, 5) == 5);
    assert(skip_ws(toks, 6) == 6);
    assert(skip_ws(toks, 7) == 7);
    assert(skip_ws(toks, 8) == 8);
    let s1 = advance(toks, s0);
    let s2 = advance(toks, s1);
    let s3 = advance(toks, s2);
    let s4 = advance(toks, s3);
    let (s5, b) = alloc_bind(advance(toks, s4), Bind::Name { name: tid(4) });
    assert(bind_atom(toks, s4) == (s5, Ok::<BindId, ParseError>(b)));
    let s6 = advance(toks, s5);
    let (s7, t) = alloc_ty(advance(toks, s6), Type::Name { name: tid(6) });
    assert(ty_atom(toks, s6) == (s7, Ok::<TypeId, ParseError>(t)));
    let p = Param { bind: b, ty: Some(t) };
    assert(param_elem(toks, s4) == (s7, Ok::<Param, ParseError>(p)));
    assert(param_more(toks, s7, seq![p]) == (s7, Ok::<Seq<Param>, ParseError>(seq![p])));
    assert(seq![].push(p) == seq![p]);
    assert(param_list(toks, s4, seq![]) == (s7, Ok::<Seq<Param>, ParseError>(seq![p])));
    assert(seq![p].drop_last() =~= seq![]);
    assert(param(toks, s4) == (s7, Ok::<Param, ParseError>(p)));
    let e = ParseError::Expected { id: tid(7), kinds: KindSet::spec_only(TokenKind::Comma) };
    let s8 = advance(toks, s7);
    assert(bind_atom(toks, s3) == (s8, Err::<BindId, ParseError>(e)));
    assert(param_elem(toks, s3) == (s8, Err::<Param, ParseError>(e)));
    assert(param_list(toks, s3, seq![]) == (s8, Err::<Seq<Param>, ParseError>(e)));
    assert(param(toks, s3) == (s8, Err::<Param, ParseError>(e)));
    assert(def_params(toks, s2, seq![]) == (s8, Err::<Seq<Param>, ParseError>(e)));
    assert(def(toks, s0) == (s8, Err::<DefView, ParseError>(e)));
    KindSet::lemma_only(TokenKind::Comma);
}

/// `def f = let x = 1`, a line break, then `x`: the line break ends the
/// bound value, so no `;` is needed and the module parses.
pub proof fn lemma_line_break_separates_let(toks: Seq<TokenKind>)
    requires
        toks == seq![
            TokenKind::Def,
            TokenKind::Ident,
            TokenKind::Equal,
            TokenKind::Let,
            TokenKind::Ident,
            TokenKind::Equal,
            TokenKind::Number,
            TokenKind::Newline,
            TokenKind::Ident,
            TokenKind::Eof,
        ],
    ensures
        parsed(toks) is Ok,
{
    let s0 = start(toks);
    assert(skip_ws(toks, 0) == 0);
    assert(skip_ws(toks, 1) == 1);
    assert(skip_ws(toks, 2) == 2);
    assert(skip_ws(toks, 3) == 3);
    assert(skip_ws(toks, 4) == 4);
    assert(skip_ws(toks, 5) == 5);
    assert(skip_ws(toks, 6) == 6);
    assert(skip_ws(toks, 8) == 8);
    assert(skip_ws(toks, 7) == 8);
    assert(skip_ws(toks, 9) == 9);
    let s1 = advance(toks, s0);
    let s2 = advance(toks, s1);
    assert(def_params(toks, s2, seq![]) == (s2, Ok::<Seq<Param>, ParseError>(seq![])));
    let s3 = advance(toks, s2);
    let s4 = advance(toks, s3);
    // the pattern `x`
    let (s5, b) = alloc_bind(advance(toks, s4), Bind::Name { name: tid(4) });
    let p = Param { bind: b, ty: None };
    assert(bind_atom(toks, s4) == (s5, Ok::<BindId, ParseError>(b)));
    assert(param_elem(toks, s4) == (s5, Ok::<Param, ParseError>(p)));
    assert(seq![].push(p) == seq![p]);
    assert(param_list(toks, s4, seq![]) == (s5, Ok::<Seq<Param>, ParseError>(seq![p])));
    assert(seq![p].drop_last() =~= seq![]);
    assert(param(toks, s4) == (s5, Ok::<Param, ParseError>(p)));
    // the value `1`, ended by the line break
    let s6 = advance(toks, s5);
    let (s7, v) = alloc_expr(advance(toks, s6), Expr::Number { val: tid(6) });
    assert(s7.pos == 8 && s7.before_ws == 7);
    assert(expr_atom(toks, s6) == (s7, Ok::<ExprId, ParseError>(v)));
    assert(expr_factor(toks, s6) == (s7, Ok::<ExprId, ParseError>(v)));
    assert(expr_term(toks, s6) == (s7, Ok::<ExprId, ParseError>(v)));
    assert(expr_elem(toks, s6) == (s7, Ok::<ExprId, ParseError>(v)));
    assert(seq![].push(v) == seq![v]);
    assert(inner_list(toks, s6, seq![]) == (s7, Ok::<Seq<ExprId>, ParseError>(seq![v])));
    assert(seq![v].drop_last() =~= seq![]);
    assert(expr_inner(toks, s6) == (s7, Ok::<ExprId, ParseError>(v)));
    // the body `x`
    let (s8, x) = alloc_expr(advance(toks, s7), Expr::Name { name: tid(8) });
    assert(s8.pos == 9 && s8.before_ws == 9);
    assert(expr_atom(toks, s7) == (s8, Ok::<ExprId, ParseError>(x)));
    assert(expr_factor(toks, s7) == (s8, Ok::<ExprId, ParseError>(x)));
    assert(expr_term(toks, s7) == (s8, Ok::<ExprId, ParseError>(x)));
    assert(expr_elem(toks, s7) == (s8, Ok::<ExprId, ParseError>(x)));
    assert(seq![].push(x) == seq![x]);
    assert(inner_list(toks, s7, seq![]) == (s8, Ok::<Seq<ExprId>, ParseError>(seq![x])));
    assert(seq![x].drop_last() =~= seq![]);
    assert(expr_inner(toks, s7) == (s8, Ok::<ExprId, ParseError>(x)));
    assert(expr(toks, s7) == (s8, Ok::<ExprId, ParseError>(x)));
    let (s9, l) = alloc_expr(s8, Expr::Let { param: p, val: v, body: x });
    assert(expr(toks, s3) == (s9, Ok::<ExprId, ParseError>(l)));
    let d = DefView { name: tid(1), params: seq![], ty: None, body: l };
    assert(def(toks, s0) == (s9, Ok::<DefView, ParseError>(d)));
    assert(seq![].push(d) == seq![d]);
    assert(module_loop(toks, s9, seq![d]) == (s9, Ok::<Seq<DefView>, ParseError>(seq![d])));
    assert(module_loop(toks, s0, seq![]) == (s9, Ok::<Seq<DefView>, ParseError>(seq![d])));
}

/// `def g = f x`, a line break, then `y`: the application stops at the line
/// break, so `y` is taken as the start of the next top-level item, where only
/// `def` or the end of input is accepted.
pub proof fn lemma_line_break_ends_application(toks: Seq<TokenKind>)
    requires
        toks == seq![
            TokenKind::Def,
            TokenKind::Ident,
            TokenKind::Equal,
            TokenKind::Ident,
            TokenKind::Ident,
            TokenKind::Newline,
            TokenKind::Ident,
            TokenKind::Eof,
        ],
    ensures
        parsed(toks) matches Err(ParseError::Expected { id, kinds }) && id.index == 6 && kinds@
            == set![TokenKind::Def, TokenKind::Eof],
{
    let s0 = start(toks);
    assert(skip_ws(toks, 0) == 0);
    assert(skip_ws(toks, 1) == 1);
    assert(skip_ws(toks, 2) == 2);
    assert(skip_ws(toks, 3) == 3);
    assert(skip_ws(toks, 4) == 4);
    assert(skip_ws(toks, 6) == 6);
    assert(skip_ws(toks, 5) == 6);
    let s1 = advance(toks, s0);
    let s2 = advance(toks, s1);
    assert(def_params(toks, s2, seq![]) == (s2, Ok::<Seq<Param>, ParseError>(seq![])));
    let s3 = advance(toks, s2);
    let (s4, f) = alloc_expr(advance(toks, s3), Expr::Name { name: tid(3) });
    assert(expr_atom(toks, s3) == (s4, Ok::<ExprId, ParseError>(f)));
    let (s5, x) = alloc_expr(advance(toks, s4), Expr::Name { name: tid(4) });
    assert(expr_atom(toks, s4) == (s5, Ok::<ExprId, ParseError>(x)));
    assert(s5.pos == 6 && s5.before_ws == 5);
    let (s6, a) = alloc_expr(s5, Expr::Apply { func: f, arg: x });
    assert(factor_more(toks, s6, a) == (s6, Ok::<ExprId, ParseError>(a)));
    assert(factor_more(toks, s4, f) == (s6, Ok::<ExprId, ParseError>(a)));
    assert(expr_factor(toks, s3) == (s6, Ok::<ExprId, ParseError>(a)));
    assert(expr_term(toks, s3) == (s6, Ok::<ExprId, ParseError>(a)));
    assert(expr_elem(toks, s3) == (s6, Ok::<ExprId, ParseError>(a)));
    assert(seq![].push(a) == seq![a]);
    assert(inner_list(toks, s3, seq![]) == (s6, Ok::<Seq<ExprId>, ParseError>(seq![a])));
    assert(seq![a].drop_last() =~= seq![]);
    assert(expr_inner(toks, s3) == (s6, Ok::<ExprId, ParseError>(a)));
    assert(expr(toks, s3) == (s6, Ok::<ExprId, ParseError>(a)));
    let d = DefView { name: tid(1), params: seq![], ty: None, body: a };
    assert(def(toks, s0) == (s6, Ok::<DefView, ParseError>(d)));
    assert(module_loop(toks, s6, seq![].push(d)).1 is Err);
    KindSet::lemma_only(TokenKind::Def);
    KindSet::lemma_only(TokenKind::Eof);
    KindSet::lemma_union(KindSet::spec_only(TokenKind::Def), KindSet::spec_only(TokenKind::Eof));
    assert(set![TokenKind::Def] + set![TokenKind::Eof] =~= set![TokenKind::Def, TokenKind::Eof]);
}

/// `def f = 1 + 2 * 3` gives `Add(1, Mul(2, 3))`: the exact module, nodes
/// numbered in order of allocation.
pub proof fn lemma_product_binds_tighter(toks: Seq<TokenKind>)
    requires
        toks == seq![
            TokenKind::Def,
            TokenKind::Ident,
            TokenKind::Equal,
            TokenKind::Number,
            TokenKind::Plus,
            TokenKind::Number,
            TokenKind::Asterisk,
            TokenKind::Number,
            TokenKind::Eof,
        ],
    ensures
        parsed(toks) == Ok::<ModuleView, ParseError>(
            ModuleView {
                types: seq![],
                binds: seq![],
                exprs: seq![
                    Expr::Number { val: tid(3) },
                    Expr::Number { val: tid(5) },
                    Expr::Number { val: tid(7) },
                    Expr::Binary { lhs: ExprId { index: 1 }, op: Binop::Mul, rhs: ExprId { index: 2 } },
                    Expr::Binary { lhs: ExprId { index: 0 }, op: Binop::Add, rhs: ExprId { index: 3 } },
                ],
                defs: seq![DefView { name: tid(1), params: seq![], ty: None, body: ExprId { index: 4 } }],
            },
        ),
{
    let s0 = start(toks);
    assert(skip_ws(toks, 0) == 0);
    assert(skip_ws(toks, 1) == 1);
    assert(skip_ws(toks, 2) == 2);
    assert(skip_ws(toks, 3) == 3);
    assert(skip_ws(toks, 4) == 4);
    assert(skip_ws(toks, 5) == 5);
    assert(skip_ws(toks, 6) == 6);
    assert(skip_ws(toks, 7) == 7);
    assert(skip_ws(toks, 8) == 8);
    let s1 = advance(toks, s0);
    let s2 = advance(toks, s1);
    assert(def_params(toks, s2, seq![]) == (s2, Ok::<Seq<Param>, ParseError>(seq![])));
    let s3 = advance(toks, s2);
    // 1
    let (s4, one) = alloc_expr(advance(toks, s3), Expr::Number { val: tid(3) });
    assert(expr_atom(toks, s3) == (s4, Ok::<ExprId, ParseError>(one)));
    assert(expr_factor(toks, s3) == (s4, Ok::<ExprId, ParseError>(one)));
    assert(expr_term(toks, s3) == (s4, Ok::<ExprId, ParseError>(one)));
    // 2 * 3
    let s5 = advance(toks, s4);
    let (s6, two) = alloc_expr(advance(toks, s5), Expr::Number { val: tid(5) });
    assert(expr_atom(toks, s5) == (s6, Ok::<ExprId, ParseError>(two)));
    assert(expr_factor(toks, s5) == (s6, Ok::<ExprId, ParseError>(two)));
    let s7 = advance(toks, s6);
    let (s8, three) = alloc_expr(advance(toks, s7), Expr::Number { val: tid(7) });
    assert(expr_atom(toks, s7) == (s8, Ok::<ExprId, ParseError>(three)));
    assert(expr_factor(toks, s7) == (s8, Ok::<ExprId, ParseError>(three)));
    let (s9, prod) = alloc_expr(s8, Expr::Binary { lhs: two, op: Binop::Mul, rhs: three });
    assert(term_more(toks, s9, prod) == (s9, Ok::<ExprId, ParseError>(prod)));
    assert(term_more(toks, s6, two) == (s9, Ok::<ExprId, ParseError>(prod)));
    assert(expr_term(toks, s5) == (s9, Ok::<ExprId, ParseError>(prod)));
    // 1 + (2 * 3)
    let (s10, sum) = alloc_expr(s9, Expr::Binary { lhs: one, op: Binop::Add, rhs: prod });
    assert(elem_more(toks, s10, sum) == (s10, Ok::<ExprId, ParseError>(sum)));
    assert(elem_more(toks, s4, one) == (s10, Ok::<ExprId, ParseError>(sum)));
    assert(expr_elem(toks, s3) == (s10, Ok::<ExprId, ParseError>(sum)));
    assert(seq![].push(sum) == seq![sum]);
    assert(inner_list(toks, s3, seq![]) == (s10, Ok::<Seq<ExprId>, ParseError>(seq![sum])));
    assert(seq![sum].drop_last() =~= seq![]);
    assert(expr_inner(toks, s3) == (s10, Ok::<ExprId, ParseError>(sum)));
    assert(expr(toks, s3) == (s10, Ok::<ExprId, ParseError>(sum)));
    let d = DefView { name: tid(1), params: seq![], ty: None, body: sum };
    assert(def(toks, s0) == (s10, Ok::<DefView, ParseError>(d)));
    assert(seq![].push(d) == seq![d]);
    assert(module_loop(toks, s10, seq![d]) == (s10, Ok::<Seq<DefView>, ParseError>(seq![d])));
    assert(module_loop(toks, s0, seq![]) == (s10, Ok::<Seq<DefView>, ParseError>(seq![d])));
    assert(s10.exprs =~= seq![
        Expr::Number { val: tid(3) },
        Expr::Number { val: tid(5) },
        Expr::Number { val: tid(7) },
        Expr::Binary { lhs: ExprId { index: 1 }, op: Binop::Mul, rhs: ExprId { index: 2 } },
        Expr::Binary { lhs: ExprId { index: 0 }, op: Binop::Add, rhs: ExprId { index: 3 } },
    ]);
}

} // verus!
