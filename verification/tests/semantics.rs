use lilit::analyse::resolve;
use lilit::ast;
use lilit::diagnostic::Diagnostic;
use lilit::diagnostic::Site;
use lilit::link::{hydrate_funcs, register_funcs, FuncEntry, FuncTable};
use lilit::semantics::{
    build_assignment, build_class, build_expr, build_exprs, build_func, build_id, build_invoke,
    build_mod, build_mod_unit, build_num, build_params, build_type, build_var,
};
use lilit::tree::{
    Assignment, Class, CompilationUnit, CompilationUnitItem, Def, DefId, Expr, Invoke, LilitFile,
    LiteralString, Location, Method, Num, Param, Span, Type, Var,
};

fn name(text: &str, line: u32, col: u32) -> ast::Id {
    ast::Id { name: text.to_string(), line, col }
}

fn span(line: u32, col: u32, text: &str) -> Span {
    Span { line, col, fragment: text.to_string() }
}

fn id(unit: usize, item: usize) -> DefId {
    DefId { unit, item }
}

fn call(name: Span, method_def: Option<DefId>) -> Expr {
    Expr::Invoke(Box::new(Invoke { invoker_opt: None, name, args: vec![], method_def }))
}

fn ast_call(text: &str, line: u32, col: u32) -> ast::Expr {
    ast::Expr::Invoke(ast::Invoke { invoker_opt: None, id: name(text, line, col), args: vec![] })
}

fn ast_func(text: &str, line: u32, exprs: Vec<ast::Expr>) -> ast::Func {
    ast::Func {
        id: name(text, line, 5),
        params: vec![],
        return_type: ast::Type { id: None },
        exprs,
    }
}

fn func(text: &str, line: u32, exprs: Vec<Expr>) -> Method {
    Method {
        name: span(line, 5, text),
        params: vec![],
        exprs,
        return_type: Type { span: None, class_def: None },
        parent_class: None,
    }
}

#[test]
fn build_id_keeps_text_and_place() {
    assert_eq!(build_id(&name("main", 7, 5)), span(7, 5, "main"));
    assert_eq!(build_id(&name("", 1, 1)), span(1, 1, ""));
}

#[test]
fn build_num_keeps_value_and_place() {
    assert_eq!(
        build_num(&ast::Num { value: 13, line: 2, col: 9 }),
        Num { location: Location { line: 2, col: 9 }, value: 13 }
    );
    assert_eq!(
        build_num(&ast::Num { value: -4, line: 1, col: 1 }),
        Num { location: Location { line: 1, col: 1 }, value: -4 }
    );
}

#[test]
fn build_var_has_no_link() {
    assert_eq!(
        build_var(&ast::Var { id: name("x", 3, 4) }),
        Var { name: span(3, 4, "x"), def: None }
    );
}

#[test]
fn build_type_has_no_link() {
    assert_eq!(
        build_type(&ast::Type { id: Some(name("Number", 4, 13)) }),
        Type { span: Some(span(4, 13, "Number")), class_def: None }
    );
    assert_eq!(build_type(&ast::Type { id: None }), Type { span: None, class_def: None });
}

#[test]
fn build_params_keeps_order() {
    let params = vec![
        ast::Param { id: name("a", 1, 7), tpe: ast::Type { id: Some(name("A", 1, 10)) } },
        ast::Param { id: name("b", 1, 13), tpe: ast::Type { id: None } },
    ];
    assert_eq!(
        build_params(&params),
        vec![
            Param {
                name: span(1, 7, "a"),
                tpe: Type { span: Some(span(1, 10, "A")), class_def: None },
            },
            Param { name: span(1, 13, "b"), tpe: Type { span: None, class_def: None } },
        ]
    );
    assert_eq!(build_params(&vec![]), vec![]);
}

#[test]
fn build_invoke_builds_receiver_and_arguments() {
    let invoke = ast::Invoke {
        invoker_opt: Some(Box::new(ast::Expr::Var(ast::Var { id: name("obj", 2, 3) }))),
        id: name("go", 2, 7),
        args: vec![ast::Expr::Num(ast::Num { value: 1, line: 2, col: 10 }), ast_call("f", 2, 13)],
    };
    assert_eq!(
        build_invoke(&invoke),
        Invoke {
            invoker_opt: Some(Expr::Var(Box::new(Var { name: span(2, 3, "obj"), def: None }))),
            name: span(2, 7, "go"),
            args: vec![
                Expr::Num(Box::new(Num { location: Location { line: 2, col: 10 }, value: 1 })),
                call(span(2, 13, "f"), None),
            ],
            method_def: None,
        }
    );
}

#[test]
fn build_assignment_builds_both_sides() {
    let assignment = ast::Assignment {
        var: ast::Var { id: name("x", 3, 3) },
        expr: Box::new(ast_call("f", 3, 7)),
    };
    assert_eq!(
        build_assignment(&assignment),
        Assignment {
            var: Box::new(Var { name: span(3, 3, "x"), def: None }),
            expr: Box::new(call(span(3, 7, "f"), None)),
        }
    );
}

#[test]
fn build_expr_builds_each_kind() {
    assert_eq!(build_expr(&ast_call("f", 1, 1)), call(span(1, 1, "f"), None));
    assert_eq!(
        build_expr(&ast::Expr::Num(ast::Num { value: 13, line: 1, col: 2 })),
        Expr::Num(Box::new(Num { location: Location { line: 1, col: 2 }, value: 13 }))
    );
    assert_eq!(
        build_expr(&ast::Expr::Str(ast::Str { text: name("hello", 15, 19) })),
        Expr::LiteralString(Box::new(LiteralString { span: span(15, 19, "hello") }))
    );
    assert_eq!(
        build_expr(&ast::Expr::Var(ast::Var { id: name("v", 1, 3) })),
        Expr::Var(Box::new(Var { name: span(1, 3, "v"), def: None }))
    );
    assert_eq!(
        build_expr(&ast::Expr::Assignment(ast::Assignment {
            var: ast::Var { id: name("x", 1, 4) },
            expr: Box::new(ast::Expr::Assignment(ast::Assignment {
                var: ast::Var { id: name("y", 1, 8) },
                expr: Box::new(ast::Expr::Num(ast::Num { value: 2, line: 1, col: 12 })),
            })),
        })),
        Expr::Assignment(Box::new(Assignment {
            var: Box::new(Var { name: span(1, 4, "x"), def: None }),
            expr: Box::new(Expr::Assignment(Box::new(Assignment {
                var: Box::new(Var { name: span(1, 8, "y"), def: None }),
                expr: Box::new(Expr::Num(Box::new(Num {
                    location: Location { line: 1, col: 12 },
                    value: 2,
                }))),
            }))),
        }))
    );
}

#[test]
fn build_exprs_keeps_order() {
    assert_eq!(
        build_exprs(&vec![ast_call("a", 1, 1), ast_call("b", 2, 1), ast_call("a", 3, 1)]),
        vec![call(span(1, 1, "a"), None), call(span(2, 1, "b"), None), call(span(3, 1, "a"), None)]
    );
    assert_eq!(build_exprs(&vec![]), vec![]);
}

#[test]
fn build_func_builds_a_free_method() {
    let source = ast::Func {
        id: name("main", 7, 5),
        params: vec![ast::Param {
            id: name("n", 7, 10),
            tpe: ast::Type { id: Some(name("Number", 7, 13)) },
        }],
        return_type: ast::Type { id: Some(name("Number", 7, 22)) },
        exprs: vec![ast_call("test", 8, 3)],
    };
    assert_eq!(
        build_func(&source),
        Method {
            name: span(7, 5, "main"),
            params: vec![Param {
                name: span(7, 10, "n"),
                tpe: Type { span: Some(span(7, 13, "Number")), class_def: None },
            }],
            exprs: vec![call(span(8, 3, "test"), None)],
            return_type: Type { span: Some(span(7, 22, "Number")), class_def: None },
            parent_class: None,
        }
    );
}

#[test]
fn build_class_builds_parameters_and_methods() {
    let source = ast::Class {
        id: name("String", 4, 7),
        params: vec![ast::Param {
            id: name("underlying", 4, 14),
            tpe: ast::Type { id: Some(name("Native__String", 4, 26)) },
        }],
        methods: vec![ast_func("len", 5, vec![]), ast_func("get", 7, vec![ast_call("len", 8, 5)])],
    };
    assert_eq!(
        build_class(&source),
        Class {
            name: span(4, 7, "String"),
            params: vec![Param {
                name: span(4, 14, "underlying"),
                tpe: Type { span: Some(span(4, 26, "Native__String")), class_def: None },
            }],
            methods: vec![func("len", 5, vec![]), func("get", 7, vec![call(span(8, 5, "len"), None)])],
        }
    );
    let empty = ast::Class { id: name("Void", 7, 7), params: vec![], methods: vec![] };
    assert_eq!(
        build_class(&empty),
        Class { name: span(7, 7, "Void"), params: vec![], methods: vec![] }
    );
}

#[test]
fn build_mod_unit_builds_either_kind() {
    assert_eq!(
        build_mod_unit(&ast::ModUnit::Func(ast_func("f", 1, vec![]))),
        CompilationUnitItem::Method(func("f", 1, vec![]))
    );
    assert_eq!(
        build_mod_unit(&ast::ModUnit::Class(ast::Class {
            id: name("C", 1, 7),
            params: vec![],
            methods: vec![],
        })),
        CompilationUnitItem::Class(Class { name: span(1, 7, "C"), params: vec![], methods: vec![] })
    );
}

fn number_test_main() -> ast::Mod {
    ast::Mod {
        units: vec![
            ast::ModUnit::Class(ast::Class { id: name("Number", 1, 7), params: vec![], methods: vec![] }),
            ast::ModUnit::Func(ast::Func {
                id: name("test", 4, 5),
                params: vec![],
                return_type: ast::Type { id: Some(name("Number", 4, 13)) },
                exprs: vec![],
            }),
            ast::ModUnit::Func(ast::Func {
                id: name("main", 7, 5),
                params: vec![],
                return_type: ast::Type { id: Some(name("Number", 7, 13)) },
                exprs: vec![ast_call("test", 8, 3)],
            }),
        ],
    }
}

fn number_test_main_tree(class_def: Option<DefId>, method_def: Option<DefId>) -> CompilationUnit {
    CompilationUnit {
        items: vec![
            CompilationUnitItem::Class(Class {
                name: span(1, 7, "Number"),
                params: vec![],
                methods: vec![],
            }),
            CompilationUnitItem::Method(Method {
                name: span(4, 5, "test"),
                params: vec![],
                exprs: vec![],
                return_type: Type { span: Some(span(4, 13, "Number")), class_def },
                parent_class: None,
            }),
            CompilationUnitItem::Method(Method {
                name: span(7, 5, "main"),
                params: vec![],
                exprs: vec![call(span(8, 3, "test"), method_def)],
                return_type: Type { span: Some(span(7, 13, "Number")), class_def },
                parent_class: None,
            }),
        ],
    }
}

#[test]
fn build_mod_builds_an_unresolved_unit() {
    assert_eq!(build_mod(&number_test_main()), number_test_main_tree(None, None));
    assert_eq!(build_mod(&ast::Mod { units: vec![] }), CompilationUnit { items: vec![] });
}

#[test]
fn a_built_unit_resolves_like_one_written_by_hand() {
    let mut files = vec![LilitFile { path: "main.lilit".to_string(), unit: build_mod(&number_test_main()) }];
    let root = resolve(&mut files).ok().unwrap();
    assert_eq!(files[0].unit, number_test_main_tree(Some(id(0, 0)), Some(id(0, 1))));
    assert_eq!(files[0].path, "main.lilit");
    assert_eq!(root.find_class("Number"), Some(id(0, 0)));
}

fn entry(unit: usize, item: usize, line: u32, col: u32) -> FuncEntry {
    FuncEntry { id: id(unit, item), location: Location { line, col } }
}

#[test]
fn register_funcs_records_free_functions_by_name() {
    let unit = build_mod(&number_test_main());
    let mut funcs = FuncTable::new();
    assert_eq!(funcs.get("main"), None);
    assert_eq!(register_funcs(&unit, &mut funcs), Ok(()));
    assert_eq!(funcs.get("test"), Some(id(0, 1)));
    assert_eq!(funcs.get("main"), Some(id(0, 2)));
    assert_eq!(funcs.entry("test"), Some(entry(0, 1, 4, 5)));
    assert_eq!(funcs.entry("main"), Some(entry(0, 2, 7, 5)));
    assert_eq!(funcs.get("Number"), None);
    assert_eq!(funcs.entry("Number"), None);
    assert_eq!(funcs.get("absent"), None);
}

#[test]
fn register_funcs_keeps_what_the_table_held() {
    let unit = build_mod(&ast::Mod {
        units: vec![
            ast::ModUnit::Func(ast_func("f", 1, vec![])),
            ast::ModUnit::Class(ast::Class { id: name("kept", 3, 7), params: vec![], methods: vec![] }),
            ast::ModUnit::Func(ast_func("g", 5, vec![])),
        ],
    });
    let mut funcs = FuncTable::new();
    assert_eq!(funcs.insert("kept".to_string(), entry(3, 4, 9, 9)), Ok(()));
    assert_eq!(register_funcs(&unit, &mut funcs), Ok(()));
    assert_eq!(funcs.get("f"), Some(id(0, 0)));
    assert_eq!(funcs.get("g"), Some(id(0, 2)));
    assert_eq!(funcs.entry("kept"), Some(entry(3, 4, 9, 9)));
}

#[test]
fn register_funcs_refuses_two_functions_of_one_name() {
    let unit = build_mod(&ast::Mod {
        units: vec![
            ast::ModUnit::Func(ast_func("a", 1, vec![])),
            ast::ModUnit::Func(ast_func("f", 2, vec![])),
            ast::ModUnit::Class(ast::Class { id: name("a", 3, 7), params: vec![], methods: vec![] }),
            ast::ModUnit::Func(ast_func("g", 4, vec![])),
            ast::ModUnit::Func(ast_func("f", 5, vec![])),
            ast::ModUnit::Func(ast_func("a", 6, vec![])),
        ],
    });
    let mut funcs = FuncTable::new();
    assert_eq!(
        register_funcs(&unit, &mut funcs),
        Err(Diagnostic::DuplicateDefinition {
            name: "f".to_string(),
            first: Site { unit: 0, location: Location { line: 2, col: 5 } },
            second: Site { unit: 0, location: Location { line: 5, col: 5 } },
        })
    );
    assert_eq!(funcs.get("a"), None);
    assert_eq!(funcs.get("f"), None);
    assert_eq!(funcs.get("g"), None);

    let twice = build_mod(&ast::Mod {
        units: vec![ast::ModUnit::Func(ast_func("a", 1, vec![])), ast::ModUnit::Func(ast_func("a", 3, vec![]))],
    });
    assert_eq!(
        register_funcs(&twice, &mut funcs),
        Err(Diagnostic::DuplicateDefinition {
            name: "a".to_string(),
            first: Site { unit: 0, location: Location { line: 1, col: 5 } },
            second: Site { unit: 0, location: Location { line: 3, col: 5 } },
        })
    );
    assert_eq!(funcs.get("a"), None);
}

#[test]
fn register_funcs_refuses_a_name_that_the_table_has() {
    let unit = build_mod(&ast::Mod {
        units: vec![
            ast::ModUnit::Func(ast_func("f", 1, vec![])),
            ast::ModUnit::Func(ast_func("g", 3, vec![])),
            ast::ModUnit::Func(ast_func("g", 5, vec![])),
        ],
    });
    let mut funcs = FuncTable::new();
    assert_eq!(funcs.insert("g".to_string(), entry(5, 6, 7, 8)), Ok(()));
    assert_eq!(
        funcs.insert("g".to_string(), entry(1, 1, 2, 2)),
        Err(Diagnostic::DuplicateDefinition {
            name: "g".to_string(),
            first: Site { unit: 5, location: Location { line: 7, col: 8 } },
            second: Site { unit: 1, location: Location { line: 2, col: 2 } },
        })
    );
    assert_eq!(
        register_funcs(&unit, &mut funcs),
        Err(Diagnostic::DuplicateDefinition {
            name: "g".to_string(),
            first: Site { unit: 5, location: Location { line: 7, col: 8 } },
            second: Site { unit: 0, location: Location { line: 3, col: 5 } },
        })
    );
    assert_eq!(funcs.get("f"), None);
    assert_eq!(funcs.entry("g"), Some(entry(5, 6, 7, 8)));
}

#[test]
fn hydrate_funcs_links_every_call_at_any_depth() {
    let nested = |receiver: Option<DefId>, callee: Option<DefId>, argument: Option<DefId>| Invoke {
        invoker_opt: Some(call(span(2, 3, "f"), receiver)),
        name: span(2, 7, "g"),
        args: vec![call(span(2, 9, "f"), argument), call(span(2, 14, "lost"), None)],
        method_def: callee,
    };
    let body = |f: Option<DefId>, g: Option<DefId>, stale: Option<DefId>| {
        vec![
            Expr::Invoke(Box::new(nested(f, g, f))),
            call(span(3, 3, "absent"), stale),
            Expr::Assignment(Box::new(Assignment {
                var: Box::new(Var { name: span(4, 3, "x"), def: None }),
                expr: Box::new(Expr::Assignment(Box::new(Assignment {
                    var: Box::new(Var { name: span(4, 7, "y"), def: None }),
                    expr: Box::new(call(span(4, 11, "f"), f)),
                }))),
            })),
            Expr::Var(Box::new(Var { name: span(5, 3, "f"), def: None })),
            call(span(6, 3, "f"), f),
        ]
    };
    let unit = |f: Option<DefId>, g: Option<DefId>, stale: Option<DefId>| CompilationUnit {
        items: vec![
            CompilationUnitItem::Method(func("f", 1, body(f, g, stale))),
            CompilationUnitItem::Class(Class {
                name: span(8, 7, "C"),
                params: vec![],
                methods: vec![
                    func("m", 9, vec![call(span(10, 5, "f"), f)]),
                    func("n", 11, vec![call(span(12, 5, "m"), None)]),
                ],
            }),
            CompilationUnitItem::Method(func("g", 14, vec![call(span(15, 3, "g"), g)])),
        ],
    };
    let mut linked = unit(None, None, Some(id(9, 9)));
    let mut funcs = FuncTable::new();
    assert_eq!(register_funcs(&linked, &mut funcs), Ok(()));
    let diagnostics = hydrate_funcs(&mut linked, &funcs);
    assert_eq!(
        diagnostics,
        vec![
            Diagnostic::UnresolvedCall { name: "lost".to_string(), location: Location { line: 2, col: 14 } },
            Diagnostic::UnresolvedCall { name: "absent".to_string(), location: Location { line: 3, col: 3 } },
            Diagnostic::UnresolvedCall { name: "m".to_string(), location: Location { line: 12, col: 5 } },
        ]
    );
    assert_eq!(linked, unit(Some(id(0, 0)), Some(id(0, 2)), None));
}

#[test]
fn hydrate_funcs_links_the_right_hand_side_of_an_assignment() {
    let mut unit = lilit::parse::apply("def test end  def main x = test() end", "").unwrap().unit;
    let mut funcs = FuncTable::new();
    assert_eq!(register_funcs(&unit, &mut funcs), Ok(()));
    assert_eq!(hydrate_funcs(&mut unit, &funcs), vec![]);
    match &unit.items[1] {
        CompilationUnitItem::Method(main) => assert_eq!(
            main.exprs,
            vec![Expr::Assignment(Box::new(Assignment {
                var: Box::new(Var { name: span(1, 24, "x"), def: None }),
                expr: Box::new(call(span(1, 28, "test"), funcs.get("test"))),
            }))]
        ),
        CompilationUnitItem::Class(_) => panic!("the second item is a method"),
    }
    assert_eq!(funcs.get("test"), Some(id(0, 0)));
}

#[test]
fn hydrate_funcs_reports_one_unresolved_call_and_links_the_next() {
    let mut unit = lilit::parse::apply("def bar end\ndef main\n  foo()\n  bar()\nend", "").unwrap().unit;
    let mut funcs = FuncTable::new();
    assert_eq!(register_funcs(&unit, &mut funcs), Ok(()));
    assert_eq!(
        hydrate_funcs(&mut unit, &funcs),
        vec![Diagnostic::UnresolvedCall { name: "foo".to_string(), location: Location { line: 3, col: 3 } }]
    );
    match &unit.items[1] {
        CompilationUnitItem::Method(main) => assert_eq!(
            main.exprs,
            vec![call(span(3, 3, "foo"), None), call(span(4, 3, "bar"), Some(id(0, 0)))]
        ),
        CompilationUnitItem::Class(_) => panic!("the second item is a method"),
    }
}

#[test]
fn the_call_table_and_the_index_agree_on_a_unit_of_distinct_names() {
    let mut hydrated = build_mod(&number_test_main());
    let mut funcs = FuncTable::new();
    assert_eq!(register_funcs(&hydrated, &mut funcs), Ok(()));
    assert_eq!(hydrate_funcs(&mut hydrated, &funcs), vec![]);

    let mut files = vec![LilitFile { path: String::new(), unit: build_mod(&number_test_main()) }];
    let root = resolve(&mut files).ok().unwrap();

    assert_eq!(funcs.get("test"), root.find_method("test"));
    assert_eq!(funcs.get("main"), root.find_method("main"));
    assert_eq!(funcs.get("Number"), root.find_method("Number"));
    match (&hydrated.items[2], &files[0].unit.items[2]) {
        (CompilationUnitItem::Method(by_table), CompilationUnitItem::Method(by_index)) => {
            assert_eq!(by_table.exprs, by_index.exprs)
        }
        _ => panic!("the third item is a method"),
    }
}

#[test]
fn every_kind_of_diagnostic_can_be_told_apart() {
    let duplicate = Diagnostic::DuplicateDefinition {
        name: "f".to_string(),
        first: lilit::diagnostic::Site { unit: 0, location: Location { line: 1, col: 5 } },
        second: lilit::diagnostic::Site { unit: 0, location: Location { line: 3, col: 5 } },
    };
    let location = Location { line: 1, col: 1 };
    let tpe = Diagnostic::UnresolvedType { name: "f".to_string(), location };
    let call = Diagnostic::UnresolvedCall { name: "f".to_string(), location };
    let var = Diagnostic::UnresolvedVariable { name: "f".to_string(), location };
    assert_ne!(duplicate, tpe);
    assert_ne!(tpe, call);
    assert_ne!(call, var);
    assert_ne!(var, tpe);
    assert_eq!(Def::Local(location), Def::Local(Location { line: 1, col: 1 }));
    assert_ne!(Def::Class(id(0, 0)), Def::Method(id(0, 0)));
}
