use impo::ast::{
    ExprNode, FieldLookupExpr, FuncType, Identifier, InfixExpr, InfixOp, ReferenceType, TupleType,
    TypeNode, UnionType,
};
use impo::lexer::lex;
use impo::parse_expr::{match_expr, match_lookup};
use impo::parse_stmt::parse;
use impo::parse_type::{match_func_type, match_reference_type, match_tuple_type, match_type};
use impo::stmts::StmtNode;
use impo::tokens::{FloatLiteral, IntLiteral, Position, Token, TokenKind};

fn generate_positions(kinds: Vec<TokenKind>) -> Vec<Token> {
    kinds
        .into_iter()
        .enumerate()
        .map(|(i, kind)| Token { kind, position: Position::new(1, 0, i) })
        .collect()
}

fn atom(name: &str) -> TokenKind {
    TokenKind::Atom(name.to_owned())
}

fn variable(name: &str) -> ExprNode {
    ExprNode::Variable(name.to_owned())
}

fn ref_type_basic(name: &str) -> TypeNode {
    TypeNode::Reference(Box::new(ReferenceType {
        identifier: Identifier::new_from_string(name),
        type_params: Vec::new(),
    }))
}

fn ref_type_generic(name: &str, params: Vec<TypeNode>) -> TypeNode {
    TypeNode::Reference(Box::new(ReferenceType {
        identifier: Identifier::new_from_string(name),
        type_params: params,
    }))
}

fn func_type(typevars: Vec<&str>, param_types: Vec<TypeNode>, return_type: TypeNode) -> TypeNode {
    TypeNode::Func(Box::new(FuncType {
        typevars: typevars.into_iter().map(|s| s.to_owned()).collect(),
        param_types,
        return_type,
    }))
}

fn parse_whole_type(
    parser: fn(&[Token], usize) -> Result<(usize, TypeNode), impo::errors::ParserError>,
    kinds: Vec<TokenKind>,
) -> TypeNode {
    let tokens = generate_positions(kinds);
    let (next, t) = parser(&tokens, 0).unwrap();
    assert_eq!(next, tokens.len());
    t
}

fn parse_whole_expr(kinds: Vec<TokenKind>) -> ExprNode {
    let tokens = generate_positions(kinds);
    let (next, e) = match_expr(&tokens, 0).unwrap();
    assert_eq!(next, tokens.len());
    e
}

fn print_expr(expr: &ExprNode) -> String {
    match expr {
        ExprNode::FuncCall(e) => {
            if e.params.is_empty() {
                format!("(call {})", print_expr(&e.func))
            } else {
                let params: Vec<String> = e.params.iter().map(print_expr).collect();
                format!("(call {} {})", print_expr(&e.func), params.join(" "))
            }
        },
        ExprNode::ExplicitParenthesis(e) => format!("(paren {})", print_expr(e)),
        ExprNode::Infix(e) => {
            let mut parts = vec![print_expr(&e.exprs[0])];
            for (op, x) in e.ops.iter().zip(e.exprs.iter().skip(1)) {
                parts.push(op.to_symbol());
                parts.push(print_expr(x));
            }
            format!("(infix {})", parts.join(" "))
        },
        ExprNode::Prefix(e) => format!("({} {})", e.op.to_symbol(), print_expr(&e.expr)),
        ExprNode::Index(e) => format!("(index {} {})", print_expr(&e.source), print_expr(&e.index)),
        ExprNode::Range(e) => format!("(range {} {})", print_expr(&e.start), print_expr(&e.end)),
        ExprNode::FieldLookup(e) => format!("(lookup {} {})", print_expr(&e.source), e.name_chain.join(" ")),
        ExprNode::TupleLookup(e) => {
            let idx: Vec<String> = e.index_chain.iter().map(|i| i.to_string()).collect();
            format!("(lookup {} {})", print_expr(&e.source), idx.join(" "))
        },
        ExprNode::Variable(e) => e.clone(),
        ExprNode::Array(e) => {
            let items: Vec<String> = e.items.iter().map(print_expr).collect();
            format!("(array {})", items.join(" "))
        },
        ExprNode::Tuple(e) => {
            let items: Vec<String> = e.items.iter().map(print_expr).collect();
            format!("(tuple {})", items.join(" "))
        },
        ExprNode::StringLiteral(e) => format!("{:?}", e),
        ExprNode::IntLiteral(e) => e.digits.clone(),
        ExprNode::FloatLiteral(e) => format!("{}.{}", e.integral_digits, e.fractional_digits),
        ExprNode::BoolLiteral(e) => e.to_string(),
        ExprNode::Error(e) => format!("(error {:?})", e.message),
    }
}

fn compile(text: &str) -> String {
    let tokens = lex(text).unwrap();
    let program = parse(&tokens).unwrap();
    assert_eq!(program.body.len(), 1);
    match &program.body[0] {
        StmtNode::Line(line) => print_expr(&line.expr),
        other => panic!("expected an expression line, got {:?}", other),
    }
}

fn check(input: &str, expected: &str) {
    assert_eq!(compile(input), expected, "input {:?}", input);
}

#[test]
fn test_operators() {
    let e = parse_whole_expr(vec![atom("a"), TokenKind::Plus, atom("b"), TokenKind::Multiply, atom("c")]);
    let expected = ExprNode::Infix(Box::new(InfixExpr {
        exprs: vec![
            variable("a"),
            ExprNode::Infix(Box::new(InfixExpr {
                exprs: vec![variable("b"), variable("c")],
                ops: vec![InfixOp::Multiplication],
            })),
        ],
        ops: vec![InfixOp::Addition],
    }));
    assert_eq!(e, expected);
}

#[test]
fn test_match_lookup() {
    let tokens = generate_positions(vec![atom("foo"), TokenKind::Dot, atom("bar"), TokenKind::Dot, atom("baz")]);
    let (next, e) = match_lookup(&tokens, 1, variable("foo"));
    assert_eq!(next, tokens.len());
    assert_eq!(
        e,
        ExprNode::FieldLookup(Box::new(FieldLookupExpr {
            source: variable("foo"),
            name_chain: vec!["bar".to_owned(), "baz".to_owned()],
        }))
    );
    assert_eq!(parse_whole_expr(vec![atom("foo"), TokenKind::Dot, atom("bar"), TokenKind::Dot, atom("baz")]), e);
}

#[test]
fn test_match_lookup_nested() {
    let e = parse_whole_expr(vec![
        TokenKind::LParen,
        atom("foo"),
        TokenKind::Dot,
        atom("bar"),
        TokenKind::RParen,
        TokenKind::Dot,
        atom("baz"),
        TokenKind::Dot,
        atom("qux"),
    ]);
    let expected = ExprNode::FieldLookup(Box::new(FieldLookupExpr {
        source: ExprNode::ExplicitParenthesis(Box::new(ExprNode::FieldLookup(Box::new(FieldLookupExpr {
            source: variable("foo"),
            name_chain: vec!["bar".to_owned()],
        })))),
        name_chain: vec!["baz".to_owned(), "qux".to_owned()],
    }));
    assert_eq!(e, expected);
}

#[test]
fn test_match_literal() {
    let int = IntLiteral { base: 10, digits: "123".to_owned(), raw_value: 123 };
    let float = FloatLiteral {
        integral_digits: "123".to_owned(),
        fractional_digits: "567".to_owned(),
        power: "".to_owned(),
    };
    let tokens = generate_positions(vec![
        TokenKind::IntLiteral(int.clone()),
        TokenKind::FloatLiteral(float.clone()),
        TokenKind::StringLiteral("foo".to_owned()),
        TokenKind::BoolLiteral(true),
    ]);
    let mut found = Vec::new();
    let mut pos = 0;
    for _ in 0..4 {
        let (next, e) = match_expr(&tokens, pos).unwrap();
        assert_eq!(next, pos + 1);
        found.push(e);
        pos = next;
    }
    assert_eq!(
        found,
        vec![
            ExprNode::IntLiteral(Box::new(int)),
            ExprNode::FloatLiteral(Box::new(float)),
            ExprNode::StringLiteral(Box::new("foo".to_owned())),
            ExprNode::BoolLiteral(true),
        ]
    );
}

#[test]
fn test_reference_basic() {
    let t = parse_whole_type(match_reference_type, vec![atom("A")]);
    assert_eq!(t, ref_type_basic("A"));
}

#[test]
fn test_reference_with_lookup() {
    let t = parse_whole_type(
        match_reference_type,
        vec![atom("A"), TokenKind::Dot, atom("B"), TokenKind::Dot, atom("C")],
    );
    assert_eq!(t, ref_type_basic("A.B.C"));
}

#[test]
fn test_reference_with_generics() {
    let t = parse_whole_type(
        match_reference_type,
        vec![
            atom("A"),
            TokenKind::Dot,
            atom("B"),
            TokenKind::LSquare,
            atom("P1"),
            TokenKind::Dot,
            atom("P2"),
            TokenKind::Comma,
            atom("P3"),
            TokenKind::LSquare,
            atom("P4"),
            TokenKind::RSquare,
            TokenKind::RSquare,
        ],
    );
    assert_eq!(
        t,
        ref_type_generic("A.B", vec![ref_type_basic("P1.P2"), ref_type_generic("P3", vec![ref_type_basic("P4")])])
    );
}

#[test]
fn test_basic_function() {
    let t = parse_whole_type(
        match_func_type,
        vec![TokenKind::Fn, TokenKind::LParen, TokenKind::RParen, TokenKind::Arrow, TokenKind::LParen, TokenKind::RParen],
    );
    assert_eq!(t, func_type(vec![], vec![], TypeNode::Unit));
}

#[test]
fn test_basic_function_implicit_return() {
    let t = parse_whole_type(match_func_type, vec![TokenKind::Fn, TokenKind::LParen, TokenKind::RParen]);
    assert_eq!(t, func_type(vec![], vec![], TypeNode::Unit));
}

#[test]
fn test_func_with_params() {
    let t = parse_whole_type(
        match_func_type,
        vec![
            TokenKind::Fn,
            TokenKind::LParen,
            atom("A"),
            TokenKind::Comma,
            atom("B"),
            TokenKind::RParen,
            TokenKind::Arrow,
            TokenKind::Bang,
        ],
    );
    assert_eq!(t, func_type(vec![], vec![ref_type_basic("A"), ref_type_basic("B")], TypeNode::Empty));
}

#[test]
fn test_func_with_generics() {
    let t = parse_whole_type(
        match_func_type,
        vec![
            TokenKind::Fn,
            TokenKind::LSquare,
            atom("T1"),
            TokenKind::Comma,
            atom("T2"),
            TokenKind::RSquare,
            TokenKind::LParen,
            atom("A"),
            TokenKind::Comma,
            atom("B"),
            TokenKind::RParen,
        ],
    );
    assert_eq!(t, func_type(vec!["T1", "T2"], vec![ref_type_basic("A"), ref_type_basic("B")], TypeNode::Unit));
}

#[test]
fn test_nested_func() {
    let t = parse_whole_type(
        match_func_type,
        vec![
            TokenKind::Fn,
            TokenKind::LParen,
            atom("A"),
            TokenKind::RParen,
            TokenKind::Arrow,
            TokenKind::Fn,
            TokenKind::LParen,
            atom("B"),
            TokenKind::RParen,
            TokenKind::Arrow,
            TokenKind::Fn,
            TokenKind::LParen,
            atom("C"),
            TokenKind::RParen,
        ],
    );
    assert_eq!(
        t,
        func_type(
            vec![],
            vec![ref_type_basic("A")],
            func_type(vec![], vec![ref_type_basic("B")], func_type(vec![], vec![ref_type_basic("C")], TypeNode::Unit)),
        )
    );
}

#[test]
fn test_tuple() {
    let t = parse_whole_type(
        match_tuple_type,
        vec![
            TokenKind::LParen,
            atom("A"),
            TokenKind::Comma,
            atom("B"),
            TokenKind::Comma,
            atom("C"),
            TokenKind::RParen,
        ],
    );
    assert_eq!(
        t,
        TypeNode::Tuple(Box::new(TupleType { items: vec![ref_type_basic("A"), ref_type_basic("B"), ref_type_basic("C")] }))
    );
}

#[test]
fn test_union_basic() {
    let t = parse_whole_type(match_type, vec![atom("A"), TokenKind::Pipe, atom("B"), TokenKind::Pipe, atom("C")]);
    assert_eq!(
        t,
        TypeNode::Union(Box::new(UnionType {
            variants: vec![ref_type_basic("A"), ref_type_basic("B"), ref_type_basic("C")],
        }))
    );
}

#[test]
fn test_union_complex() {
    let t = parse_whole_type(
        match_type,
        vec![
            TokenKind::Fn,
            TokenKind::LParen,
            atom("A"),
            TokenKind::RParen,
            TokenKind::Pipe,
            TokenKind::LParen,
            atom("A"),
            TokenKind::Comma,
            atom("B"),
            TokenKind::RParen,
            TokenKind::Pipe,
            atom("C"),
            TokenKind::Dot,
            atom("D"),
            TokenKind::Dot,
            atom("E"),
        ],
    );
    assert_eq!(
        t,
        TypeNode::Union(Box::new(UnionType {
            variants: vec![
                func_type(vec![], vec![ref_type_basic("A")], TypeNode::Unit),
                TypeNode::Tuple(Box::new(TupleType { items: vec![ref_type_basic("A"), ref_type_basic("B")] })),
                ref_type_basic("C.D.E"),
            ],
        }))
    );
}

#[test]
fn parse_expr_test_test_basic_operators() {
    check("a + b * c", "(infix a + (infix b * c))");
    check("a + b - c * d / e", "(infix a + b - (infix c * d / e))");
    check("(((a)))", "(paren (paren (paren a)))");
    check("a and b or c and d or e", "(infix (infix a and b) or (infix c and d) or e)");
    check("- a - - - b - c", "(infix (- a) - (- (- b)) - c)");
    check(
        "a < b and c == d or -e > f + g",
        "(infix (infix (infix a < b) and (infix c == d)) or (infix (- e) > (infix f + g)))",
    );
    check("~a | ~b & ~c ^ ~d << ~e", "(infix (~ a) | (infix (infix (~ b) & (~ c)) ^ (infix (~ d) << (~ e))))");
    check("a to b and c to d", "(infix (range a b) and (range c d))");
    check("a to b == c to d == e to f", "(infix (range a b) == (range c d) == (range e f))");
}

#[test]
fn precedence_test_test_basic_operators() {
    check("a + b * c", "(infix a + (infix b * c))");
    check("a + b - c * d / e", "(infix a + b - (infix c * d / e))");
    check("(((a)))", "(paren (paren (paren a)))");
    check("a and b or c and d or e", "(infix (infix a and b) or (infix c and d) or e)");
}

#[test]
fn test_lookup() {
    check("a.b", "(lookup a b)");
    check("3.b", "(lookup 3 b)");
    check("(a.b).c", "(lookup (paren (lookup a b)) c)");
    check("tup.1", "(lookup tup 1)");
}

#[test]
fn test_func_calls() {
    check("a()", "(call a)");
    check("a(p0)", "(call a p0)");
    check("a(p0, p1, p2)", "(call a p0 p1 p2)");
    check("a.b.c(p0, p1, p2)", "(call (lookup a b c) p0 p1 p2)");
    check("f()()()", "(call (call (call f)))");
    check("f(a)(b)(c)", "(call (call (call f a) b) c)");
    check(
        "(a.b).c.f()((a))()()",
        "(call (call (call (call (lookup (paren (lookup a b)) c f)) (paren a))))",
    );
}

#[test]
fn test_index() {
    check("a[b]", "(index a b)");
    check("a[b][c][d]", "(index (index (index a b) c) d)");
    check("a[b](c)[d](e)", "(call (index (call (index a b) c) d) e)");
    check("a[x to y]", "(index a (range x y))");
    check("a[1 + x to 3 * y]", "(index a (range (infix 1 + x) (infix 3 * y)))");
}

#[test]
fn multiplication_binds_tighter_than_addition() {
    check("a + b * c", "(infix a + (infix b * c))");
    check("a * b + c", "(infix (infix a * b) + c)");
}

#[test]
fn same_tier_operators_flatten() {
    let e = parse_whole_expr(vec![atom("a"), TokenKind::Plus, atom("b"), TokenKind::Minus, atom("c")]);
    assert_eq!(
        e,
        ExprNode::Infix(Box::new(InfixExpr {
            exprs: vec![variable("a"), variable("b"), variable("c")],
            ops: vec![InfixOp::Addition, InfixOp::Subtraction],
        }))
    );
}

#[test]
fn range_is_its_own_node() {
    let e = parse_whole_expr(vec![atom("x"), TokenKind::To, atom("y")]);
    match e {
        ExprNode::Range(r) => {
            assert_eq!(r.start, variable("x"));
            assert_eq!(r.end, variable("y"));
        },
        other => panic!("expected a range, got {:?}", other),
    }
}

#[test]
fn postfix_suffixes_chain_left_to_right() {
    check("f(a)(b)[c]", "(index (call (call f a) b) c)");
}

#[test]
fn statements_parse() {
    let text = "# say hi\nfn greet(name: String) -> String:\n    return name\n\nif a:\n    b = 1\nelif c:\n    panic\nelse:\n    d\n";
    let tokens = lex(text).unwrap();
    let program = parse(&tokens).unwrap();
    assert_eq!(program.body.len(), 4);
    assert_eq!(program.body[3], StmtNode::EmptyLine);
    match &program.body[0] {
        StmtNode::FuncImplementationDef(f) => {
            assert_eq!(f.function.name, "greet");
            assert_eq!(f.function.comment.lines, vec!["say hi".to_owned()]);
            assert_eq!(f.function.param_names, vec!["name".to_owned()]);
            assert_eq!(f.function.signature.return_type, ref_type_basic("String"));
            assert_eq!(f.body.len(), 1);
        },
        other => panic!("expected a function, got {:?}", other),
    }
    assert_eq!(program.body[1], StmtNode::EmptyLine);
    match &program.body[2] {
        StmtNode::If(s) => {
            assert_eq!(s.branches.len(), 2);
            assert!(s.fallback_branch.is_some());
        },
        other => panic!("expected an if, got {:?}", other),
    }
}

#[test]
fn signature_without_body() {
    let tokens = lex("fn f[T](x: T)\n").unwrap();
    let program = parse(&tokens).unwrap();
    match &program.body[0] {
        StmtNode::FuncSignatureDef(f) => {
            assert_eq!(f.signature.typevars, vec!["T".to_owned()]);
            assert_eq!(f.signature.return_type, TypeNode::Unit);
        },
        other => panic!("expected a signature, got {:?}", other),
    }
}

#[test]
fn trailing_token_is_an_error() {
    let tokens = lex("a\n").unwrap();
    let mut with_extra = tokens.clone();
    with_extra.push(Token { kind: TokenKind::RParen, position: Position::new(1, 0, 2) });
    let err = parse(&with_extra).unwrap_err();
    assert_eq!(err.message, "Unexpected token 'RParen', expected EOF");
    assert_eq!(err.span.unwrap().start, Position::new(1, 0, 2));
    assert!(parse(&tokens).is_ok());
    assert_eq!(parse(&[]).unwrap().body.len(), 0);
}

#[test]
fn error_chain_renders() {
    let tokens = generate_positions(vec![TokenKind::RParen]);
    let err = match_expr(&tokens, 0).unwrap_err();
    let lines = err.error_lines();
    assert!(lines.len() >= 2);
    assert!(lines[0].starts_with("line 2, col 1: match_expr: error from alternative"), "{:?}", lines);
    let text = err.render();
    assert!(text.contains("\n    "), "{}", text);
}
