use gradbench::lex::{KindSet, TokenId, TokenKind, Tokens};
use gradbench::parse::{parse, Bind, Binop, Expr, ExprId, Module, ParseError, Type};

use TokenKind::{
    Asterisk, Colon, Comma, Comment, Def, Eof, Equal, Hyphen, Ident, LParen, Let, Newline,
    Number, Plus, RParen, Semicolon, Slash,
};

fn tokens(kinds: &[TokenKind]) -> Tokens {
    Tokens::new(kinds.to_vec()).unwrap()
}

fn parse_ok(kinds: &[TokenKind]) -> Module {
    parse(&tokens(kinds)).unwrap()
}

fn parse_err(kinds: &[TokenKind]) -> (u32, KindSet) {
    match parse(&tokens(kinds)) {
        Ok(_) => panic!("expected a parse error"),
        Err(ParseError::Expected { id, kinds }) => (id.index, kinds),
    }
}

const ALL: [TokenKind; 17] = [
    Eof, Newline, Comment, Ident, Number, LParen, RParen, Comma, Colon, Equal, Semicolon, Plus,
    Hyphen, Asterisk, Slash, Def, Let,
];

fn kinds_of(set: KindSet) -> Vec<TokenKind> {
    ALL.iter().copied().filter(|k| set.contains(*k)).collect()
}

fn tok(i: u32) -> TokenId {
    TokenId { index: i }
}

fn body(m: &Module) -> ExprId {
    m.defs()[0].body
}

fn name_at(m: &Module, e: ExprId) -> u32 {
    match m.expr(e) {
        Expr::Name { name } => name.index,
        other => panic!("not a name: {:?}", other),
    }
}

fn number_at(m: &Module, e: ExprId) -> u32 {
    match m.expr(e) {
        Expr::Number { val } => val.index,
        other => panic!("not a number: {:?}", other),
    }
}

fn binary(m: &Module, e: ExprId) -> (ExprId, Binop, ExprId) {
    match m.expr(e) {
        Expr::Binary { lhs, op, rhs } => (lhs, op, rhs),
        other => panic!("not a binary expression: {:?}", other),
    }
}

fn apply(m: &Module, e: ExprId) -> (ExprId, ExprId) {
    match m.expr(e) {
        Expr::Apply { func, arg } => (func, arg),
        other => panic!("not an application: {:?}", other),
    }
}

fn pair(m: &Module, e: ExprId) -> (ExprId, ExprId) {
    match m.expr(e) {
        Expr::Pair { fst, snd } => (fst, snd),
        other => panic!("not a pair: {:?}", other),
    }
}

#[test]
fn empty_module() {
    let m = parse_ok(&[Eof]);
    assert!(m.defs().is_empty());
}

#[test]
fn only_line_breaks_and_comments() {
    let m = parse_ok(&[Newline, Comment, Newline, Eof]);
    assert!(m.defs().is_empty());
}

#[test]
fn simple_definition() {
    // def f = x
    let m = parse_ok(&[Def, Ident, Equal, Ident, Eof]);
    assert_eq!(m.defs().len(), 1);
    let d = &m.defs()[0];
    assert_eq!(d.name, tok(1));
    assert!(d.params.is_empty());
    assert_eq!(d.ty, None);
    assert_eq!(name_at(&m, d.body), 3);
    assert_eq!(d.body, ExprId { index: 0 });
}

#[test]
fn tuple_type_is_right_nested() {
    // def f : A, B, C = x
    let m = parse_ok(&[Def, Ident, Colon, Ident, Comma, Ident, Comma, Ident, Equal, Ident, Eof]);
    let t = m.defs()[0].ty.unwrap();
    let (a, rest) = match m.ty(t) {
        Type::Pair { fst, snd } => (fst, snd),
        other => panic!("not a pair: {:?}", other),
    };
    assert_eq!(m.ty(a), Type::Name { name: tok(3) });
    match m.ty(rest) {
        Type::Pair { fst, snd } => {
            assert_eq!(m.ty(fst), Type::Name { name: tok(5) });
            assert_eq!(m.ty(snd), Type::Name { name: tok(7) });
        }
        other => panic!("not a pair: {:?}", other),
    }
}

#[test]
fn tuple_pattern_is_right_nested() {
    // def f(a, b, c) = x
    let m = parse_ok(&[
        Def, Ident, LParen, Ident, Comma, Ident, Comma, Ident, RParen, Equal, Ident, Eof,
    ]);
    let params = &m.defs()[0].params;
    assert_eq!(params.len(), 1);
    assert_eq!(params[0].ty, None);
    let (a, rest) = match m.bind(params[0].bind) {
        Bind::Pair { fst, snd } => (fst, snd),
        other => panic!("not a pair: {:?}", other),
    };
    assert_eq!(m.bind(a.bind), Bind::Name { name: tok(3) });
    assert_eq!(rest.ty, None);
    match m.bind(rest.bind) {
        Bind::Pair { fst, snd } => {
            assert_eq!(m.bind(fst.bind), Bind::Name { name: tok(5) });
            assert_eq!(m.bind(snd.bind), Bind::Name { name: tok(7) });
        }
        other => panic!("not a pair: {:?}", other),
    }
}

#[test]
fn tuple_expression_is_right_nested() {
    // def f = a, b, c
    let m = parse_ok(&[Def, Ident, Equal, Ident, Comma, Ident, Comma, Ident, Eof]);
    let (a, rest) = pair(&m, body(&m));
    assert_eq!(name_at(&m, a), 3);
    let (b, c) = pair(&m, rest);
    assert_eq!(name_at(&m, b), 5);
    assert_eq!(name_at(&m, c), 7);
}

#[test]
fn multiplication_binds_tighter_on_the_right() {
    // def f = 1 + 2 * 3
    let m = parse_ok(&[Def, Ident, Equal, Number, Plus, Number, Asterisk, Number, Eof]);
    let (one, op, rest) = binary(&m, body(&m));
    assert_eq!(op, Binop::Add);
    assert_eq!(number_at(&m, one), 3);
    let (two, op2, three) = binary(&m, rest);
    assert_eq!(op2, Binop::Mul);
    assert_eq!(number_at(&m, two), 5);
    assert_eq!(number_at(&m, three), 7);
}

#[test]
fn multiplication_binds_tighter_on_the_left() {
    // def f = 1 * 2 + 3
    let m = parse_ok(&[Def, Ident, Equal, Number, Asterisk, Number, Plus, Number, Eof]);
    let (prod, op, three) = binary(&m, body(&m));
    assert_eq!(op, Binop::Add);
    assert_eq!(number_at(&m, three), 7);
    let (one, op2, two) = binary(&m, prod);
    assert_eq!(op2, Binop::Mul);
    assert_eq!(number_at(&m, one), 3);
    assert_eq!(number_at(&m, two), 5);
}

#[test]
fn subtraction_and_division_associate_left() {
    // def f = 1 - 2 - 3 / 4 / 5
    let m = parse_ok(&[
        Def, Ident, Equal, Number, Hyphen, Number, Hyphen, Number, Slash, Number, Slash, Number,
        Eof,
    ]);
    let (diff, op, quot) = binary(&m, body(&m));
    assert_eq!(op, Binop::Sub);
    let (one, op1, two) = binary(&m, diff);
    assert_eq!(op1, Binop::Sub);
    assert_eq!((number_at(&m, one), number_at(&m, two)), (3, 5));
    let (q, op2, five) = binary(&m, quot);
    assert_eq!(op2, Binop::Div);
    assert_eq!(number_at(&m, five), 11);
    let (three, op3, four) = binary(&m, q);
    assert_eq!(op3, Binop::Div);
    assert_eq!((number_at(&m, three), number_at(&m, four)), (7, 9));
}

#[test]
fn application_associates_left() {
    // def g = f x y
    let m = parse_ok(&[Def, Ident, Equal, Ident, Ident, Ident, Eof]);
    let (fx, y) = apply(&m, body(&m));
    assert_eq!(name_at(&m, y), 5);
    let (f, x) = apply(&m, fx);
    assert_eq!(name_at(&m, f), 3);
    assert_eq!(name_at(&m, x), 4);
}

#[test]
fn line_break_ends_application_at_top_level() {
    // def g = f x <newline> y : y is not a definition
    let (id, kinds) = parse_err(&[Def, Ident, Equal, Ident, Ident, Newline, Ident, Eof]);
    assert_eq!(id, 6);
    assert_eq!(kinds_of(kinds), vec![Eof, Def]);
}

#[test]
fn line_break_ends_application_in_let() {
    // def g = let z = f x <newline> y
    let m = parse_ok(&[Def, Ident, Equal, Let, Ident, Equal, Ident, Ident, Newline, Ident, Eof]);
    match m.expr(body(&m)) {
        Expr::Let { param, val, body } => {
            assert_eq!(m.bind(param.bind), Bind::Name { name: tok(4) });
            assert_eq!(param.ty, None);
            let (f, x) = apply(&m, val);
            assert_eq!((name_at(&m, f), name_at(&m, x)), (6, 7));
            assert_eq!(name_at(&m, body), 9);
        }
        other => panic!("not a let: {:?}", other),
    }
}

#[test]
fn comment_ends_application() {
    // def g = f <comment> x : the comment holds a line break
    let (id, kinds) = parse_err(&[Def, Ident, Equal, Ident, Comment, Ident, Eof]);
    assert_eq!(id, 5);
    assert_eq!(kinds_of(kinds), vec![Eof, Def]);
}

#[test]
fn let_without_semicolon_after_line_break() {
    // def f = let x = 1 <newline> x
    let m = parse_ok(&[Def, Ident, Equal, Let, Ident, Equal, Number, Newline, Ident, Eof]);
    match m.expr(body(&m)) {
        Expr::Let { val, body, .. } => {
            assert_eq!(number_at(&m, val), 6);
            assert_eq!(name_at(&m, body), 8);
        }
        other => panic!("not a let: {:?}", other),
    }
}

#[test]
fn let_on_one_line_needs_semicolon() {
    // def f = let x = 1 x : on one line `1 x` is an application, so the
    // missing `;` is reported at the end of input
    let (id, kinds) = parse_err(&[Def, Ident, Equal, Let, Ident, Equal, Number, Ident, Eof]);
    assert_eq!(id, 8);
    assert_eq!(kinds_of(kinds), vec![Semicolon]);
}

#[test]
fn let_on_one_line_reports_missing_semicolon_at_next_token() {
    // def f = let x = 1 let y = 2
    let (id, kinds) = parse_err(&[
        Def, Ident, Equal, Let, Ident, Equal, Number, Let, Ident, Equal, Number, Eof,
    ]);
    assert_eq!(id, 7);
    assert_eq!(kinds_of(kinds), vec![Semicolon]);
}

#[test]
fn let_with_semicolon() {
    // def f = let x = 1; let y = 2; x + y
    let m = parse_ok(&[
        Def, Ident, Equal, Let, Ident, Equal, Number, Semicolon, Let, Ident, Equal, Number,
        Semicolon, Ident, Plus, Ident, Eof,
    ]);
    match m.expr(body(&m)) {
        Expr::Let { val, body, .. } => {
            assert_eq!(number_at(&m, val), 6);
            match m.expr(body) {
                Expr::Let { val, body, .. } => {
                    assert_eq!(number_at(&m, val), 11);
                    let (x, op, y) = binary(&m, body);
                    assert_eq!(op, Binop::Add);
                    assert_eq!((name_at(&m, x), name_at(&m, y)), (13, 15));
                }
                other => panic!("not a let: {:?}", other),
            }
        }
        other => panic!("not a let: {:?}", other),
    }
}

#[test]
fn annotated_singleton_pattern_is_rejected() {
    // def f((x: T)) = x
    let (id, kinds) = parse_err(&[
        Def, Ident, LParen, LParen, Ident, Colon, Ident, RParen, RParen, Equal, Ident, Eof,
    ]);
    assert_eq!(id, 7);
    assert_eq!(kinds_of(kinds), vec![Comma]);
}

#[test]
fn annotated_tuple_elements_are_accepted() {
    // def f(x: T, y) : U = x
    let m = parse_ok(&[
        Def, Ident, LParen, Ident, Colon, Ident, Comma, Ident, RParen, Colon, Ident, Equal,
        Ident, Eof,
    ]);
    let d = &m.defs()[0];
    assert_eq!(m.ty(d.ty.unwrap()), Type::Name { name: tok(10) });
    match m.bind(d.params[0].bind) {
        Bind::Pair { fst, snd } => {
            assert_eq!(m.bind(fst.bind), Bind::Name { name: tok(3) });
            assert_eq!(m.ty(fst.ty.unwrap()), Type::Name { name: tok(5) });
            assert_eq!(m.bind(snd.bind), Bind::Name { name: tok(7) });
            assert_eq!(snd.ty, None);
        }
        other => panic!("not a pair: {:?}", other),
    }
}

#[test]
fn unit_and_parenthesised_parameters() {
    // def f() (x) ((y)) = ()
    let m = parse_ok(&[
        Def, Ident, LParen, RParen, LParen, Ident, RParen, LParen, LParen, Ident, RParen, RParen,
        Equal, LParen, RParen, Eof,
    ]);
    let d = &m.defs()[0];
    assert_eq!(d.params.len(), 3);
    assert_eq!(m.bind(d.params[0].bind), Bind::Unit);
    assert_eq!(m.bind(d.params[1].bind), Bind::Name { name: tok(5) });
    assert_eq!(m.bind(d.params[2].bind), Bind::Name { name: tok(9) });
    assert_eq!(m.expr(d.body), Expr::Unit);
}

#[test]
fn unit_and_parenthesised_types() {
    // def f : ((), (A)) = x
    let m = parse_ok(&[
        Def, Ident, Colon, LParen, LParen, RParen, Comma, LParen, Ident, RParen, RParen, Equal,
        Ident, Eof,
    ]);
    match m.ty(m.defs()[0].ty.unwrap()) {
        Type::Pair { fst, snd } => {
            assert_eq!(m.ty(fst), Type::Unit);
            assert_eq!(m.ty(snd), Type::Name { name: tok(8) });
        }
        other => panic!("not a pair: {:?}", other),
    }
}

#[test]
fn plus_is_not_an_atom() {
    // def f = +
    let (id, kinds) = parse_err(&[Def, Ident, Equal, Plus, Eof]);
    assert_eq!(id, 3);
    assert_eq!(kinds_of(kinds), vec![Ident, Number, LParen]);
}

#[test]
fn missing_name_after_def() {
    // def = x
    let (id, kinds) = parse_err(&[Def, Equal, Ident, Eof]);
    assert_eq!(id, 1);
    assert_eq!(kinds_of(kinds), vec![Ident]);
}

#[test]
fn bad_pattern_start() {
    // def f(1) = x
    let (id, kinds) = parse_err(&[Def, Ident, LParen, Number, RParen, Equal, Ident, Eof]);
    assert_eq!(id, 3);
    assert_eq!(kinds_of(kinds), vec![Ident, LParen]);
}

#[test]
fn bad_type_start() {
    // def f : 1 = x
    let (id, kinds) = parse_err(&[Def, Ident, Colon, Number, Equal, Ident, Eof]);
    assert_eq!(id, 3);
    assert_eq!(kinds_of(kinds), vec![Ident, LParen]);
}

#[test]
fn unclosed_parenthesis() {
    // def f = (x
    let (id, kinds) = parse_err(&[Def, Ident, Equal, LParen, Ident, Eof]);
    assert_eq!(id, 5);
    assert_eq!(kinds_of(kinds), vec![RParen]);
}

#[test]
fn stray_top_level_token() {
    let (id, kinds) = parse_err(&[Newline, Number, Eof]);
    assert_eq!(id, 1);
    assert_eq!(kinds_of(kinds), vec![Eof, Def]);
}

#[test]
fn several_definitions_in_order() {
    // def f = x <newline> def g = y
    let m = parse_ok(&[Def, Ident, Equal, Ident, Newline, Def, Ident, Equal, Ident, Eof]);
    assert_eq!(m.defs().len(), 2);
    assert_eq!(m.defs()[0].name, tok(1));
    assert_eq!(m.defs()[1].name, tok(6));
    assert_eq!(name_at(&m, m.defs()[1].body), 8);
}

#[test]
fn parsing_twice_gives_the_same_module() {
    let kinds = [
        Def, Ident, LParen, Ident, Comma, Ident, RParen, Equal, Let, Ident, Equal, Ident, Ident,
        Newline, Ident, Asterisk, Number, Comma, Ident, Eof,
    ];
    let a = parse_ok(&kinds);
    let b = parse_ok(&kinds);
    assert_eq!(format!("{:?}", a), format!("{:?}", b));
}

#[test]
fn handles_count_up_from_zero() {
    // def f = 1 + 2
    let m = parse_ok(&[Def, Ident, Equal, Number, Plus, Number, Eof]);
    assert_eq!(m.expr(ExprId { index: 0 }), Expr::Number { val: tok(3) });
    assert_eq!(m.expr(ExprId { index: 1 }), Expr::Number { val: tok(5) });
    assert_eq!(body(&m), ExprId { index: 2 });
    assert_eq!(usize::from(body(&m)), 2);
}

#[test]
fn token_streams_must_end_with_eof() {
    assert!(Tokens::new(vec![]).is_none());
    assert!(Tokens::new(vec![Def, Ident]).is_none());
    assert!(Tokens::new(vec![Eof, Ident]).is_none());
    let t = Tokens::new(vec![Ident, Eof]).unwrap();
    assert_eq!(t.len(), 2);
    assert_eq!(t.kind(tok(0)), Ident);
}

#[test]
fn kind_sets() {
    let e = KindSet::empty();
    assert!(kinds_of(e).is_empty());
    let one = KindSet::only(Slash);
    assert_eq!(kinds_of(one), vec![Slash]);
    let u = one.union(KindSet::only(Let)).union(KindSet::only(Eof));
    assert_eq!(kinds_of(u), vec![Eof, Slash, Let]);
    assert!(!u.contains(Def));
}

#[test]
fn semicolon_still_allowed_after_line_break() {
    // def f = let x = 1 <newline> ; x
    let m = parse_ok(&[
        Def, Ident, Equal, Let, Ident, Equal, Number, Newline, Semicolon, Ident, Eof,
    ]);
    match m.expr(body(&m)) {
        Expr::Let { val, body, .. } => {
            assert_eq!(number_at(&m, val), 6);
            assert_eq!(name_at(&m, body), 9);
        }
        other => panic!("not a let: {:?}", other),
    }
}

#[test]
fn semicolon_before_line_break() {
    // def f = let x = 1 ; <newline> x
    let m = parse_ok(&[
        Def, Ident, Equal, Let, Ident, Equal, Number, Semicolon, Newline, Ident, Eof,
    ]);
    match m.expr(body(&m)) {
        Expr::Let { body, .. } => assert_eq!(name_at(&m, body), 9),
        other => panic!("not a let: {:?}", other),
    }
}

#[test]
fn tuple_of_sums_and_applications() {
    // def f = a + b, g c
    let m = parse_ok(&[Def, Ident, Equal, Ident, Plus, Ident, Comma, Ident, Ident, Eof]);
    let (sum, app) = pair(&m, body(&m));
    let (a, op, b) = binary(&m, sum);
    assert_eq!(op, Binop::Add);
    assert_eq!((name_at(&m, a), name_at(&m, b)), (3, 5));
    let (g, c) = apply(&m, app);
    assert_eq!((name_at(&m, g), name_at(&m, c)), (7, 8));
}
