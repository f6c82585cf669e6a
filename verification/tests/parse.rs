use lilit::analyse::resolve;
use lilit::ast;
use lilit::diagnostic::Diagnostic;
use lilit::parse::lexer::{lex, Token, TokenKind};
use lilit::parse::{apply, parse_mod, ParseError};
use lilit::tree::{
    Assignment, Class, CompilationUnit, CompilationUnitItem, Def, DefId, Expr, Invoke, LilitFile,
    Location, Method, Num, Param, Span, Type, Var,
};

fn name(text: &str, line: u32, col: u32) -> ast::Id {
    ast::Id { name: text.to_string(), line, col }
}

fn at(line: u32, col: u32) -> Location {
    Location { line, col }
}

fn token(kind: TokenKind, start: usize, end: usize, line: u32, col: u32) -> Token {
    Token { kind, start, end, line, col }
}

fn ast_var(text: &str, line: u32, col: u32) -> ast::Expr {
    ast::Expr::Var(ast::Var { id: name(text, line, col) })
}

fn ast_num(value: i32, line: u32, col: u32) -> ast::Expr {
    ast::Expr::Num(ast::Num { value, line, col })
}

fn ast_call(text: &str, line: u32, col: u32, args: Vec<ast::Expr>) -> ast::Expr {
    ast::Expr::Invoke(ast::Invoke { invoker_opt: None, id: name(text, line, col), args })
}

fn ast_def(id: ast::Id, exprs: Vec<ast::Expr>) -> ast::Func {
    ast::Func { id, params: vec![], return_type: ast::Type { id: None }, exprs }
}

fn body_of(source: &str) -> Vec<ast::Expr> {
    let parsed = parse_mod(source).unwrap();
    assert_eq!(parsed.units.len(), 1);
    match parsed.units.into_iter().next().unwrap() {
        ast::ModUnit::Func(func) => func.exprs,
        ast::ModUnit::Class(_) => panic!("the source is one method"),
    }
}

#[test]
fn lex_gives_tokens_with_their_bytes_and_places() {
    let source = "def f(a: T): T\n  g(\"hi\", 12)\nend";
    assert_eq!(
        lex(source.as_bytes()),
        Ok(vec![
            token(TokenKind::Def, 0, 3, 1, 1),
            token(TokenKind::Name, 4, 5, 1, 5),
            token(TokenKind::LeftParen, 5, 6, 1, 6),
            token(TokenKind::Name, 6, 7, 1, 7),
            token(TokenKind::Colon, 7, 8, 1, 8),
            token(TokenKind::Name, 9, 10, 1, 10),
            token(TokenKind::RightParen, 10, 11, 1, 11),
            token(TokenKind::Colon, 11, 12, 1, 12),
            token(TokenKind::Name, 13, 14, 1, 14),
            token(TokenKind::Name, 17, 18, 2, 3),
            token(TokenKind::LeftParen, 18, 19, 2, 4),
            token(TokenKind::Text, 20, 22, 2, 6),
            token(TokenKind::Comma, 23, 24, 2, 9),
            token(TokenKind::Number, 25, 27, 2, 11),
            token(TokenKind::RightParen, 27, 28, 2, 13),
            token(TokenKind::End, 29, 32, 3, 1),
        ])
    );
}

#[test]
fn lex_tells_words_from_names() {
    assert_eq!(
        lex(b"class classy def definition end ending _end End x1 = a.b"),
        Ok(vec![
            token(TokenKind::Class, 0, 5, 1, 1),
            token(TokenKind::Name, 6, 12, 1, 7),
            token(TokenKind::Def, 13, 16, 1, 14),
            token(TokenKind::Name, 17, 27, 1, 18),
            token(TokenKind::End, 28, 31, 1, 29),
            token(TokenKind::Name, 32, 38, 1, 33),
            token(TokenKind::Name, 39, 43, 1, 40),
            token(TokenKind::Name, 44, 47, 1, 45),
            token(TokenKind::Name, 48, 50, 1, 49),
            token(TokenKind::Assign, 51, 52, 1, 52),
            token(TokenKind::Name, 53, 54, 1, 54),
            token(TokenKind::Dot, 54, 55, 1, 55),
            token(TokenKind::Name, 55, 56, 1, 56),
        ])
    );
}

#[test]
fn lex_counts_lines_by_line_feeds() {
    assert_eq!(
        lex(b"a\r\n\tb\n\n  \"\" 007"),
        Ok(vec![
            token(TokenKind::Name, 0, 1, 1, 1),
            token(TokenKind::Name, 4, 5, 2, 2),
            token(TokenKind::Text, 10, 10, 4, 4),
            token(TokenKind::Number, 12, 15, 4, 6),
        ])
    );
    assert_eq!(lex(b""), Ok(vec![]));
    assert_eq!(lex(b" \n\t\r\n "), Ok(vec![]));
}

#[test]
fn lex_stops_at_the_first_byte_that_starts_no_token() {
    assert_eq!(lex(b"def f\n  x $ y"), Err(at(2, 5)));
    assert_eq!(lex(b"\"open"), Err(at(1, 1)));
    assert_eq!(lex(b"a \"two\nlines\""), Err(at(1, 3)));
    assert_eq!(lex(b"x = -1"), Err(at(1, 5)));
    assert_eq!(lex(b"ok \"closed\" \""), Err(at(1, 13)));
}

#[test]
fn parse_mod_reads_classes_and_methods() {
    let source = "class Number\nend\n\ndef test(): Number\nend\n\ndef main(): Number\n  test()\nend";
    assert_eq!(
        parse_mod(source),
        Ok(ast::Mod {
            units: vec![
                ast::ModUnit::Class(ast::Class {
                    id: name("Number", 1, 7),
                    params: vec![],
                    methods: vec![],
                }),
                ast::ModUnit::Func(ast::Func {
                    id: name("test", 4, 5),
                    params: vec![],
                    return_type: ast::Type { id: Some(name("Number", 4, 13)) },
                    exprs: vec![],
                }),
                ast::ModUnit::Func(ast::Func {
                    id: name("main", 7, 5),
                    params: vec![],
                    return_type: ast::Type { id: Some(name("Number", 7, 13)) },
                    exprs: vec![ast_call("test", 8, 3, vec![])],
                }),
            ],
        })
    );
    assert_eq!(parse_mod(""), Ok(ast::Mod { units: vec![] }));
    assert_eq!(parse_mod("  \n\n"), Ok(ast::Mod { units: vec![] }));
}

#[test]
fn parse_mod_reads_parameters_and_methods_of_a_class() {
    let source = "class Point(x: Number, y: Number)\n  def norm(scale: Number): Number\n    x\n  end\n  def zero end\nend";
    assert_eq!(
        parse_mod(source),
        Ok(ast::Mod {
            units: vec![ast::ModUnit::Class(ast::Class {
                id: name("Point", 1, 7),
                params: vec![
                    ast::Param {
                        id: name("x", 1, 13),
                        tpe: ast::Type { id: Some(name("Number", 1, 16)) },
                    },
                    ast::Param {
                        id: name("y", 1, 24),
                        tpe: ast::Type { id: Some(name("Number", 1, 27)) },
                    },
                ],
                methods: vec![
                    ast::Func {
                        id: name("norm", 2, 7),
                        params: vec![ast::Param {
                            id: name("scale", 2, 12),
                            tpe: ast::Type { id: Some(name("Number", 2, 19)) },
                        }],
                        return_type: ast::Type { id: Some(name("Number", 2, 28)) },
                        exprs: vec![ast_var("x", 3, 5)],
                    },
                    ast_def(name("zero", 5, 7), vec![]),
                ],
            })],
        })
    );
}

#[test]
fn parse_mod_reads_every_kind_of_expression() {
    assert_eq!(
        body_of("def m\n  x = y = 13\n  x\n  \"text\"\n  f(1, g(), z)\nend"),
        vec![
            ast::Expr::Assignment(ast::Assignment {
                var: ast::Var { id: name("x", 2, 3) },
                expr: Box::new(ast::Expr::Assignment(ast::Assignment {
                    var: ast::Var { id: name("y", 2, 7) },
                    expr: Box::new(ast_num(13, 2, 11)),
                })),
            }),
            ast_var("x", 3, 3),
            ast::Expr::Str(ast::Str { text: name("text", 4, 4) }),
            ast_call(
                "f",
                5,
                3,
                vec![ast_num(1, 5, 5), ast_call("g", 5, 8, vec![]), ast_var("z", 5, 13)],
            ),
        ]
    );
}

#[test]
fn parse_mod_reads_calls_on_a_receiver_from_left_to_right() {
    assert_eq!(
        body_of("def m a.b(1).c() end"),
        vec![ast::Expr::Invoke(ast::Invoke {
            invoker_opt: Some(Box::new(ast::Expr::Invoke(ast::Invoke {
                invoker_opt: Some(Box::new(ast_var("a", 1, 7))),
                id: name("b", 1, 9),
                args: vec![ast_num(1, 1, 11)],
            }))),
            id: name("c", 1, 14),
            args: vec![],
        })]
    );
    assert_eq!(
        body_of("def m x = 7.f(x) end"),
        vec![ast::Expr::Assignment(ast::Assignment {
            var: ast::Var { id: name("x", 1, 7) },
            expr: Box::new(ast::Expr::Invoke(ast::Invoke {
                invoker_opt: Some(Box::new(ast_num(7, 1, 11))),
                id: name("f", 1, 13),
                args: vec![ast_var("x", 1, 15)],
            })),
        })]
    );
}

#[test]
fn parse_mod_takes_numbers_that_fit_32_bits() {
    assert_eq!(body_of("def m 0 end"), vec![ast_num(0, 1, 7)]);
    assert_eq!(body_of("def m 0013 end"), vec![ast_num(13, 1, 7)]);
    assert_eq!(body_of("def m 2147483647 end"), vec![ast_num(2147483647, 1, 7)]);
    assert_eq!(
        parse_mod("def m 2147483648 end"),
        Err(ParseError::UnexpectedToken { location: at(1, 1) })
    );
    assert_eq!(
        parse_mod("def ok end def m 99999999999999999999999999 end"),
        Err(ParseError::UnexpectedToken { location: at(1, 12) })
    );
}

#[test]
fn parse_mod_says_where_an_item_fails_to_start() {
    assert_eq!(parse_mod("x"), Err(ParseError::UnexpectedToken { location: at(1, 1) }));
    assert_eq!(
        parse_mod("def f end\n  end"),
        Err(ParseError::UnexpectedToken { location: at(2, 3) })
    );
    assert_eq!(
        parse_mod("class A end\nclass B\n  def m end\n"),
        Err(ParseError::UnexpectedToken { location: at(2, 1) })
    );
    assert_eq!(
        parse_mod("def a end\n\n def f(x: T, ) end"),
        Err(ParseError::UnexpectedToken { location: at(3, 2) })
    );
    assert_eq!(parse_mod("def f(x) end"), Err(ParseError::UnexpectedToken { location: at(1, 1) }));
    assert_eq!(parse_mod("def f: end"), Err(ParseError::UnexpectedToken { location: at(1, 1) }));
    assert_eq!(parse_mod("def f g(1 2) end"), Err(ParseError::UnexpectedToken { location: at(1, 1) }));
    assert_eq!(parse_mod("def f a. end"), Err(ParseError::UnexpectedToken { location: at(1, 1) }));
    assert_eq!(parse_mod("def class end"), Err(ParseError::UnexpectedToken { location: at(1, 1) }));
    assert_eq!(parse_mod("class A x end"), Err(ParseError::UnexpectedToken { location: at(1, 1) }));
    assert_eq!(parse_mod("def f"), Err(ParseError::UnexpectedToken { location: at(1, 1) }));
}

#[test]
fn parse_mod_refuses_what_is_not_ascii_or_no_token() {
    assert_eq!(parse_mod("def caf\u{e9} end"), Err(ParseError::NotAscii));
    assert_eq!(parse_mod("def m \"\u{1f600}\" end"), Err(ParseError::NotAscii));
    assert_eq!(
        parse_mod("def m\n  1 + 2\nend"),
        Err(ParseError::UnexpectedCharacter { location: at(2, 5) })
    );
    assert_eq!(
        parse_mod("def m \"open end"),
        Err(ParseError::UnexpectedCharacter { location: at(1, 7) })
    );
}

#[test]
fn apply_builds_an_unresolved_file() {
    let file = apply("def main: Void\n  x = 1\nend", "main.lilit").unwrap();
    assert_eq!(
        file,
        LilitFile {
            path: "main.lilit".to_string(),
            unit: CompilationUnit {
                items: vec![CompilationUnitItem::Method(Method {
                    name: Span { line: 1, col: 5, fragment: "main".to_string() },
                    params: vec![],
                    exprs: vec![Expr::Assignment(Box::new(Assignment {
                        var: Box::new(Var {
                            name: Span { line: 2, col: 3, fragment: "x".to_string() },
                            def: None,
                        }),
                        expr: Box::new(Expr::Num(Box::new(Num { location: at(2, 7), value: 1 }))),
                    }))],
                    return_type: Type {
                        span: Some(Span { line: 1, col: 11, fragment: "Void".to_string() }),
                        class_def: None,
                    },
                    parent_class: None,
                })],
            },
        }
    );
    assert_eq!(apply("end", "x"), Err(ParseError::UnexpectedToken { location: at(1, 1) }));
    assert_eq!(apply("#", "x"), Err(ParseError::UnexpectedCharacter { location: at(1, 1) }));
}

#[test]
fn a_parsed_program_resolves_across_files() {
    let mut files = vec![
        apply("def main: Number\n  total = add(one(), 2)\n  total.show(missing)\nend", "main").unwrap(),
        apply(
            "class Number end\ndef one: Number 1 end\ndef add(a: Number, b: Number): Number a end\ndef show end",
            "lib",
        )
        .unwrap(),
    ];
    assert_eq!(
        resolve(&mut files).err(),
        Some(vec![Diagnostic::UnresolvedVariable { name: "missing".to_string(), location: at(3, 14) }])
    );
    let number = Some(DefId { unit: 1, item: 0 });
    let span = |line: u32, col: u32, text: &str| Span { line, col, fragment: text.to_string() };
    let total = Some(Def::Local(at(2, 3)));
    assert_eq!(
        files[0].unit.items,
        vec![CompilationUnitItem::Method(Method {
            name: span(1, 5, "main"),
            params: vec![],
            exprs: vec![
                Expr::Assignment(Box::new(Assignment {
                    var: Box::new(Var { name: span(2, 3, "total"), def: total }),
                    expr: Box::new(Expr::Invoke(Box::new(Invoke {
                        invoker_opt: None,
                        name: span(2, 11, "add"),
                        args: vec![
                            Expr::Invoke(Box::new(Invoke {
                                invoker_opt: None,
                                name: span(2, 15, "one"),
                                args: vec![],
                                method_def: Some(DefId { unit: 1, item: 1 }),
                            })),
                            Expr::Num(Box::new(Num { location: at(2, 22), value: 2 })),
                        ],
                        method_def: Some(DefId { unit: 1, item: 2 }),
                    }))),
                })),
                Expr::Invoke(Box::new(Invoke {
                    invoker_opt: Some(Expr::Var(Box::new(Var { name: span(3, 3, "total"), def: total }))),
                    name: span(3, 9, "show"),
                    args: vec![Expr::Var(Box::new(Var { name: span(3, 14, "missing"), def: None }))],
                    method_def: Some(DefId { unit: 1, item: 3 }),
                })),
            ],
            return_type: Type { span: Some(span(1, 11, "Number")), class_def: number },
            parent_class: None,
        })]
    );
    assert_eq!(
        files[1].unit.items[2],
        CompilationUnitItem::Method(Method {
            name: span(3, 5, "add"),
            params: vec![
                Param {
                    name: span(3, 9, "a"),
                    tpe: Type { span: Some(span(3, 12, "Number")), class_def: number },
                },
                Param {
                    name: span(3, 20, "b"),
                    tpe: Type { span: Some(span(3, 23, "Number")), class_def: number },
                },
            ],
            exprs: vec![Expr::Var(Box::new(Var { name: span(3, 39, "a"), def: Some(Def::Local(at(3, 9))) }))],
            return_type: Type { span: Some(span(3, 32, "Number")), class_def: number },
            parent_class: None,
        })
    );
    assert_eq!(
        files[1].unit.items[0],
        CompilationUnitItem::Class(Class {
            name: span(1, 7, "Number"),
            params: vec![],
            methods: vec![],
        })
    );
}
