use lilit::analyse::scope::Scope;
use lilit::analyse::{apply, apply_file, resolve};
use lilit::diagnostic::{Diagnostic, Site};
use lilit::index::{build, definition};
use lilit::parse;
use lilit::tree::{
    Assignment, Class, CompilationUnit, CompilationUnitItem, Def, DefId, Expr, Invoke, LilitFile,
    LiteralString, Location, Method, Num, Param, Span, Type, Var,
};

/// The name `text` at the given line and column of a file.
fn span2(line: u32, col: u32, text: &str, _file: &LilitFile) -> Span {
    Span { line, col, fragment: text.to_string() }
}

fn span(line: u32, col: u32, text: &str) -> Span {
    Span { line, col, fragment: text.to_string() }
}

fn at(line: u32, col: u32) -> Location {
    Location { line, col }
}

fn tpe(name: Span) -> Type {
    Type { span: Some(name), class_def: None }
}

fn linked_tpe(name: Span, class_def: Option<DefId>) -> Type {
    Type { span: Some(name), class_def }
}

fn no_tpe() -> Type {
    Type { span: None, class_def: None }
}

fn class(name: Span, params: Vec<Param>, methods: Vec<Method>) -> Class {
    Class { name, params, methods }
}

fn method(name: Span, params: Vec<Param>, exprs: Vec<Expr>, return_type: Type) -> Method {
    Method { name, params, exprs, return_type, parent_class: None }
}

fn call(name: Span, method_def: Option<DefId>) -> Expr {
    Expr::Invoke(Box::new(Invoke { invoker_opt: None, name, args: vec![], method_def }))
}

fn var(name: Span, def: Option<Def>) -> Expr {
    Expr::Var(Box::new(Var { name, def }))
}

fn num(line: u32, col: u32, value: i32) -> Expr {
    Expr::Num(Box::new(Num { location: at(line, col), value }))
}

fn assign(name: Span, def: Option<Def>, expr: Expr) -> Expr {
    Expr::Assignment(Box::new(Assignment { var: Box::new(Var { name, def }), expr: Box::new(expr) }))
}

fn file(items: Vec<CompilationUnitItem>) -> LilitFile {
    LilitFile { path: String::new(), unit: CompilationUnit { items } }
}

fn id(unit: usize, item: usize) -> DefId {
    DefId { unit, item }
}

#[test]
fn test_full() {
    let content = r#"
class Native__String
end

class String(underlying: Native__String)
end

class Void
end

def native__printf(text: String): Void

end

def main: Void
  native__printf("hello")
end
        "#;
    let mut file = parse::apply(content.trim(), "").unwrap();
    let root = build(std::slice::from_ref(&file)).unwrap();

    let diagnostics = apply(std::slice::from_mut(&mut file), &root);

    println!("{:#?}", file.unit);

    assert_eq!(diagnostics, vec![vec![]]);
    assert_eq!(root.find_class("Native__String"), Some(id(0, 0)));
    assert_eq!(root.find_class("String"), Some(id(0, 1)));
    assert_eq!(root.find_class("Void"), Some(id(0, 2)));
    assert_eq!(root.find_method("native__printf"), Some(id(0, 3)));
    assert_eq!(root.find_method("main"), Some(id(0, 4)));
    assert_eq!(
        file.unit,
        CompilationUnit {
            items: vec![
                CompilationUnitItem::Class(class(span(1, 7, "Native__String"), vec![], vec![])),
                CompilationUnitItem::Class(class(
                    span(4, 7, "String"),
                    vec![Param {
                        name: span(4, 14, "underlying"),
                        tpe: linked_tpe(span(4, 26, "Native__String"), Some(id(0, 0))),
                    }],
                    vec![],
                )),
                CompilationUnitItem::Class(class(span(7, 7, "Void"), vec![], vec![])),
                CompilationUnitItem::Method(method(
                    span(10, 5, "native__printf"),
                    vec![Param {
                        name: span(10, 20, "text"),
                        tpe: linked_tpe(span(10, 26, "String"), Some(id(0, 1))),
                    }],
                    vec![],
                    linked_tpe(span(10, 35, "Void"), Some(id(0, 2))),
                )),
                CompilationUnitItem::Method(method(
                    span(14, 5, "main"),
                    vec![],
                    vec![Expr::Invoke(Box::new(Invoke {
                        invoker_opt: None,
                        name: span(15, 3, "native__printf"),
                        args: vec![Expr::LiteralString(Box::new(LiteralString {
                            span: span(15, 19, "hello"),
                        }))],
                        method_def: Some(id(0, 3)),
                    }))],
                    linked_tpe(span(14, 11, "Void"), Some(id(0, 2))),
                )),
            ]
        }
    );
}

#[test]
fn test_simple() {
    let content = r#"
class Number
end

def test(): Number
end

def main(): Number
  test()
end
        "#;
    let mut file = parse::apply(content.trim(), "").unwrap();
    let root = build(std::slice::from_ref(&file)).unwrap();

    apply(std::slice::from_mut(&mut file), &root);

    assert!(root.find_class("Number").is_some());
    assert!(root.find_method("test").is_some());
    assert_eq!(
        file.unit,
        CompilationUnit {
            items: vec![
                CompilationUnitItem::Class(Class {
                    name: span2(1, 7, "Number", &file),
                    params: vec![],
                    methods: vec![],
                }),
                CompilationUnitItem::Method(Method {
                    name: span2(4, 5, "test", &file),
                    params: vec![],
                    exprs: vec![],
                    return_type: Type {
                        span: Some(span2(4, 13, "Number", &file)),
                        class_def: root.find_class("Number"),
                    },
                    parent_class: None,
                }),
                CompilationUnitItem::Method(Method {
                    name: span2(7, 5, "main", &file),
                    params: vec![],
                    exprs: vec![Expr::Invoke(Box::new(Invoke {
                        invoker_opt: None,
                        name: span2(8, 3, "test", &file),
                        args: vec![],
                        method_def: root.find_method("test"),
                    }))],
                    return_type: Type {
                        span: Some(span2(7, 13, "Number", &file)),
                        class_def: root.find_class("Number"),
                    },
                    parent_class: None,
                }),
            ]
        }
    )
}

#[test]
fn simple_program_has_no_diagnostics_and_exact_handles() {
    let mut number_test_main = file(vec![
        CompilationUnitItem::Class(class(span(1, 7, "Number"), vec![], vec![])),
        CompilationUnitItem::Method(method(span(4, 5, "test"), vec![], vec![], tpe(span(4, 13, "Number")))),
        CompilationUnitItem::Method(method(
            span(7, 5, "main"),
            vec![],
            vec![call(span(8, 3, "test"), None)],
            tpe(span(7, 13, "Number")),
        )),
    ]);
    let root = build(std::slice::from_ref(&number_test_main)).unwrap();
    assert_eq!(root.find_class("Number"), Some(id(0, 0)));
    assert_eq!(root.find_method("test"), Some(id(0, 1)));
    assert_eq!(root.find_method("main"), Some(id(0, 2)));
    assert_eq!(root.find_method("Number"), None);
    assert_eq!(root.find_class("test"), None);
    assert_eq!(root.find_class("absent"), None);
    assert_eq!(root.find("Number"), Some(Def::Class(id(0, 0))));
    assert_eq!(root.find("main"), Some(Def::Method(id(0, 2))));
    assert_eq!(root.find("absent"), None);

    let diagnostics = apply_file(&mut number_test_main, &root);

    assert_eq!(diagnostics, vec![]);
    match &number_test_main.unit.items[2] {
        CompilationUnitItem::Method(main) => {
            assert_eq!(main.return_type.class_def, Some(id(0, 0)));
            assert_eq!(main.exprs, vec![call(span(8, 3, "test"), Some(id(0, 1)))]);
        }
        CompilationUnitItem::Class(_) => panic!("the third item is a method"),
    }
}

#[test]
fn index_lists_its_names_and_follows_handles() {
    let files = vec![
        file(vec![CompilationUnitItem::Class(class(span(1, 7, "A"), vec![], vec![]))]),
        file(vec![
            CompilationUnitItem::Method(method(span(1, 5, "f"), vec![], vec![], no_tpe())),
            CompilationUnitItem::Method(method(span(3, 5, "g"), vec![], vec![], no_tpe())),
        ]),
    ];
    let root = build(&files).unwrap();
    let mut names = root.names().clone();
    names.sort();
    assert_eq!(names, vec!["A".to_string(), "f".to_string(), "g".to_string()]);
    assert_eq!(root.find_method("g"), Some(id(1, 1)));
    assert_eq!(definition(&files, id(1, 1)), Some(&files[1].unit.items[1]));
    assert_eq!(definition(&files, id(0, 0)), Some(&files[0].unit.items[0]));
    assert_eq!(definition(&files, id(0, 1)), None);
    assert_eq!(definition(&files, id(2, 0)), None);
}

#[test]
fn index_of_an_empty_program_is_empty() {
    let files: Vec<LilitFile> = vec![];
    let root = build(&files).unwrap();
    assert!(root.names().is_empty());
    assert_eq!(root.find("main"), None);
    let empty_unit = vec![file(vec![])];
    let root = build(&empty_unit).unwrap();
    assert!(root.names().is_empty());
}

#[test]
fn duplicate_definition_is_reported_with_both_places() {
    let files = vec![file(vec![
        CompilationUnitItem::Method(method(span(1, 5, "f"), vec![], vec![], no_tpe())),
        CompilationUnitItem::Method(method(span(3, 5, "g"), vec![], vec![], no_tpe())),
        CompilationUnitItem::Method(method(span(5, 5, "f"), vec![], vec![], no_tpe())),
    ])];
    assert_eq!(
        build(&files).err(),
        Some(Diagnostic::DuplicateDefinition {
            name: "f".to_string(),
            first: Site { unit: 0, location: at(1, 5) },
            second: Site { unit: 0, location: at(5, 5) },
        })
    );
}

#[test]
fn class_and_method_of_one_name_collide_across_units() {
    let files = vec![
        file(vec![
            CompilationUnitItem::Method(method(span(1, 5, "main"), vec![], vec![], no_tpe())),
            CompilationUnitItem::Class(class(span(4, 7, "Number"), vec![], vec![])),
        ]),
        file(vec![CompilationUnitItem::Method(method(
            span(2, 5, "Number"),
            vec![],
            vec![],
            no_tpe(),
        ))]),
    ];
    assert_eq!(
        build(&files).err(),
        Some(Diagnostic::DuplicateDefinition {
            name: "Number".to_string(),
            first: Site { unit: 0, location: at(4, 7) },
            second: Site { unit: 1, location: at(2, 5) },
        })
    );
}

#[test]
fn the_first_collision_in_source_order_is_the_one_reported() {
    let files = vec![file(vec![
        CompilationUnitItem::Method(method(span(1, 5, "a"), vec![], vec![], no_tpe())),
        CompilationUnitItem::Method(method(span(2, 5, "b"), vec![], vec![], no_tpe())),
        CompilationUnitItem::Method(method(span(3, 5, "b"), vec![], vec![], no_tpe())),
        CompilationUnitItem::Method(method(span(4, 5, "a"), vec![], vec![], no_tpe())),
        CompilationUnitItem::Method(method(span(5, 5, "b"), vec![], vec![], no_tpe())),
    ])];
    assert_eq!(
        build(&files).err(),
        Some(Diagnostic::DuplicateDefinition {
            name: "b".to_string(),
            first: Site { unit: 0, location: at(2, 5) },
            second: Site { unit: 0, location: at(3, 5) },
        })
    );
}

fn ambiguous_program() -> Vec<LilitFile> {
    vec![
        file(vec![CompilationUnitItem::Method(method(
            span(1, 5, "twice"),
            vec![],
            vec![call(span(2, 3, "twice"), None)],
            tpe(span(1, 13, "Number")),
        ))]),
        file(vec![
            CompilationUnitItem::Class(class(span(1, 7, "Number"), vec![], vec![])),
            CompilationUnitItem::Method(method(span(3, 5, "twice"), vec![], vec![], no_tpe())),
        ]),
    ]
}

#[test]
fn an_ambiguous_program_is_not_resolved_at_all() {
    let mut files = ambiguous_program();
    let result = resolve(&mut files);
    assert_eq!(
        result.err(),
        Some(vec![Diagnostic::DuplicateDefinition {
            name: "twice".to_string(),
            first: Site { unit: 0, location: at(1, 5) },
            second: Site { unit: 1, location: at(3, 5) },
        }])
    );
    assert_eq!(files, ambiguous_program());
}

#[test]
fn resolve_gives_the_index_when_every_reference_is_resolved() {
    let mut files = vec![
        file(vec![CompilationUnitItem::Method(method(
            span(1, 5, "main"),
            vec![],
            vec![call(span(2, 3, "helper"), None)],
            tpe(span(1, 13, "Number")),
        ))]),
        file(vec![
            CompilationUnitItem::Class(class(span(1, 7, "Number"), vec![], vec![])),
            CompilationUnitItem::Method(method(span(3, 5, "helper"), vec![], vec![], no_tpe())),
        ]),
    ];
    let root = resolve(&mut files).ok().unwrap();
    assert_eq!(root.find_class("Number"), Some(id(1, 0)));
    assert_eq!(root.find_method("helper"), Some(id(1, 1)));
    assert_eq!(
        files[0].unit.items,
        vec![CompilationUnitItem::Method(method(
            span(1, 5, "main"),
            vec![],
            vec![call(span(2, 3, "helper"), Some(id(1, 1)))],
            linked_tpe(span(1, 13, "Number"), Some(id(1, 0))),
        ))]
    );
}

#[test]
fn resolve_reports_every_failure_unit_by_unit() {
    let mut files = vec![
        file(vec![CompilationUnitItem::Method(method(
            span(1, 5, "main"),
            vec![],
            vec![call(span(2, 3, "missing"), None), call(span(3, 3, "helper"), None)],
            tpe(span(1, 13, "Nothing")),
        ))]),
        file(vec![CompilationUnitItem::Method(method(
            span(1, 5, "helper"),
            vec![],
            vec![var(span(2, 3, "ghost"), None)],
            no_tpe(),
        ))]),
    ];
    let result = resolve(&mut files);
    assert_eq!(
        result.err(),
        Some(vec![
            Diagnostic::UnresolvedType { name: "Nothing".to_string(), location: at(1, 13) },
            Diagnostic::UnresolvedCall { name: "missing".to_string(), location: at(2, 3) },
            Diagnostic::UnresolvedVariable { name: "ghost".to_string(), location: at(2, 3) },
        ])
    );
    assert_eq!(
        files[0].unit.items,
        vec![CompilationUnitItem::Method(method(
            span(1, 5, "main"),
            vec![],
            vec![call(span(2, 3, "missing"), None), call(span(3, 3, "helper"), Some(id(1, 0)))],
            linked_tpe(span(1, 13, "Nothing"), None),
        ))]
    );
}

#[test]
fn apply_reports_for_each_unit_on_its_own() {
    let mut files = vec![
        file(vec![CompilationUnitItem::Method(method(
            span(1, 5, "one"),
            vec![],
            vec![call(span(2, 3, "absent"), None)],
            no_tpe(),
        ))]),
        file(vec![CompilationUnitItem::Method(method(
            span(1, 5, "two"),
            vec![],
            vec![call(span(2, 3, "one"), None)],
            no_tpe(),
        ))]),
        file(vec![CompilationUnitItem::Method(method(
            span(1, 5, "three"),
            vec![],
            vec![var(span(2, 3, "nowhere"), None)],
            no_tpe(),
        ))]),
    ];
    files[1].path = "two.lilit".to_string();
    let root = build(&files).unwrap();
    let diagnostics = apply(&mut files, &root);
    assert_eq!(
        diagnostics,
        vec![
            vec![Diagnostic::UnresolvedCall { name: "absent".to_string(), location: at(2, 3) }],
            vec![],
            vec![Diagnostic::UnresolvedVariable { name: "nowhere".to_string(), location: at(2, 3) }],
        ]
    );
    assert_eq!(files[1].path, "two.lilit");
    assert_eq!(
        files[1].unit.items,
        vec![CompilationUnitItem::Method(method(
            span(1, 5, "two"),
            vec![],
            vec![call(span(2, 3, "one"), Some(id(0, 0)))],
            no_tpe(),
        ))]
    );
}

#[test]
fn a_call_resolves_to_a_method_defined_later_in_another_unit() {
    let mut files = vec![
        file(vec![CompilationUnitItem::Method(method(
            span(1, 5, "main"),
            vec![],
            vec![call(span(2, 3, "later"), None), call(span(3, 3, "elsewhere"), None)],
            no_tpe(),
        )), CompilationUnitItem::Method(method(span(5, 5, "later"), vec![], vec![], no_tpe()))]),
        file(vec![CompilationUnitItem::Method(method(
            span(1, 5, "elsewhere"),
            vec![],
            vec![call(span(2, 3, "main"), None)],
            no_tpe(),
        ))]),
    ];
    let root = build(&files).unwrap();
    let diagnostics = apply(&mut files, &root);
    assert_eq!(diagnostics, vec![vec![], vec![]]);
    match &files[0].unit.items[0] {
        CompilationUnitItem::Method(main) => assert_eq!(
            main.exprs,
            vec![
                call(span(2, 3, "later"), root.find_method("later")),
                call(span(3, 3, "elsewhere"), root.find_method("elsewhere")),
            ]
        ),
        CompilationUnitItem::Class(_) => panic!("the first item is a method"),
    }
    assert_eq!(root.find_method("later"), Some(id(0, 1)));
    assert_eq!(root.find_method("elsewhere"), Some(id(1, 0)));
    match &files[1].unit.items[0] {
        CompilationUnitItem::Method(elsewhere) => {
            assert_eq!(elsewhere.exprs, vec![call(span(2, 3, "main"), Some(id(0, 0)))])
        }
        CompilationUnitItem::Class(_) => panic!("the first item is a method"),
    }
}

#[test]
fn a_local_is_bound_after_its_declaration_and_not_before() {
    let mut files = vec![file(vec![CompilationUnitItem::Method(method(
        span(1, 5, "m"),
        vec![],
        vec![
            var(span(2, 3, "x"), None),
            assign(span(3, 3, "x"), None, num(3, 7, 1)),
            var(span(4, 3, "x"), None),
            assign(span(5, 3, "y"), None, var(span(5, 7, "x"), None)),
            assign(span(6, 3, "x"), None, num(6, 7, 2)),
            var(span(7, 3, "x"), None),
            var(span(8, 3, "y"), None),
        ],
        no_tpe(),
    ))])];
    let root = build(&files).unwrap();
    let diagnostics = apply(&mut files, &root);
    assert_eq!(
        diagnostics,
        vec![vec![Diagnostic::UnresolvedVariable { name: "x".to_string(), location: at(2, 3) }]]
    );
    assert_eq!(
        files[0].unit.items,
        vec![CompilationUnitItem::Method(method(
            span(1, 5, "m"),
            vec![],
            vec![
                var(span(2, 3, "x"), None),
                assign(span(3, 3, "x"), Some(Def::Local(at(3, 3))), num(3, 7, 1)),
                var(span(4, 3, "x"), Some(Def::Local(at(3, 3)))),
                assign(
                    span(5, 3, "y"),
                    Some(Def::Local(at(5, 3))),
                    var(span(5, 7, "x"), Some(Def::Local(at(3, 3)))),
                ),
                assign(span(6, 3, "x"), Some(Def::Local(at(6, 3))), num(6, 7, 2)),
                var(span(7, 3, "x"), Some(Def::Local(at(6, 3)))),
                var(span(8, 3, "y"), Some(Def::Local(at(5, 3)))),
            ],
            no_tpe(),
        ))]
    );
}

#[test]
fn the_right_hand_side_is_resolved_before_the_variable_is_declared() {
    let mut files = vec![file(vec![CompilationUnitItem::Method(method(
        span(1, 5, "m"),
        vec![],
        vec![assign(span(2, 3, "x"), None, var(span(2, 7, "x"), None))],
        no_tpe(),
    ))])];
    let root = build(&files).unwrap();
    let diagnostics = apply(&mut files, &root);
    assert_eq!(
        diagnostics,
        vec![vec![Diagnostic::UnresolvedVariable { name: "x".to_string(), location: at(2, 7) }]]
    );
    assert_eq!(
        files[0].unit.items,
        vec![CompilationUnitItem::Method(method(
            span(1, 5, "m"),
            vec![],
            vec![assign(span(2, 3, "x"), Some(Def::Local(at(2, 3))), var(span(2, 7, "x"), None))],
            no_tpe(),
        ))]
    );
}

#[test]
fn locals_of_a_method_are_gone_in_its_sibling() {
    let mut files = vec![file(vec![
        CompilationUnitItem::Method(method(
            span(1, 5, "first"),
            vec![Param { name: span(1, 11, "p"), tpe: no_tpe() }],
            vec![assign(span(2, 3, "t"), None, num(2, 7, 1)), var(span(3, 3, "t"), None)],
            no_tpe(),
        )),
        CompilationUnitItem::Method(method(
            span(5, 5, "second"),
            vec![],
            vec![var(span(6, 3, "t"), None), var(span(7, 3, "p"), None)],
            no_tpe(),
        )),
    ])];
    let root = build(&files).unwrap();
    let diagnostics = apply(&mut files, &root);
    assert_eq!(
        diagnostics,
        vec![vec![
            Diagnostic::UnresolvedVariable { name: "t".to_string(), location: at(6, 3) },
            Diagnostic::UnresolvedVariable { name: "p".to_string(), location: at(7, 3) },
        ]]
    );
    assert_eq!(
        files[0].unit.items,
        vec![
            CompilationUnitItem::Method(method(
                span(1, 5, "first"),
                vec![Param { name: span(1, 11, "p"), tpe: no_tpe() }],
                vec![
                    assign(span(2, 3, "t"), Some(Def::Local(at(2, 3))), num(2, 7, 1)),
                    var(span(3, 3, "t"), Some(Def::Local(at(2, 3)))),
                ],
                no_tpe(),
            )),
            CompilationUnitItem::Method(method(
                span(5, 5, "second"),
                vec![],
                vec![var(span(6, 3, "t"), None), var(span(7, 3, "p"), None)],
                no_tpe(),
            )),
        ]
    );
}

#[test]
fn one_unresolved_call_does_not_stop_the_next() {
    let mut files = vec![file(vec![
        CompilationUnitItem::Method(method(span(1, 5, "bar"), vec![], vec![], no_tpe())),
        CompilationUnitItem::Method(method(
            span(3, 5, "main"),
            vec![],
            vec![call(span(4, 3, "foo"), None), call(span(5, 3, "bar"), None)],
            no_tpe(),
        )),
    ])];
    let root = build(&files).unwrap();
    let diagnostics = apply(&mut files, &root);
    assert_eq!(
        diagnostics,
        vec![vec![Diagnostic::UnresolvedCall { name: "foo".to_string(), location: at(4, 3) }]]
    );
    match &files[0].unit.items[1] {
        CompilationUnitItem::Method(main) => assert_eq!(
            main.exprs,
            vec![call(span(4, 3, "foo"), None), call(span(5, 3, "bar"), root.find_method("bar"))]
        ),
        CompilationUnitItem::Class(_) => panic!("the second item is a method"),
    }
    assert_eq!(root.find_method("bar"), Some(id(0, 0)));
}

#[test]
fn a_stale_link_is_cleared_when_the_reference_fails() {
    let mut files = vec![file(vec![CompilationUnitItem::Method(method(
        span(1, 5, "main"),
        vec![],
        vec![
            call(span(2, 3, "gone"), Some(id(7, 7))),
            var(span(3, 3, "lost"), Some(Def::Local(at(9, 9)))),
        ],
        linked_tpe(span(1, 13, "Missing"), Some(id(5, 5))),
    ))])];
    let root = build(&files).unwrap();
    let diagnostics = apply(&mut files, &root);
    assert_eq!(
        diagnostics,
        vec![vec![
            Diagnostic::UnresolvedType { name: "Missing".to_string(), location: at(1, 13) },
            Diagnostic::UnresolvedCall { name: "gone".to_string(), location: at(2, 3) },
            Diagnostic::UnresolvedVariable { name: "lost".to_string(), location: at(3, 3) },
        ]]
    );
    assert_eq!(
        files[0].unit.items,
        vec![CompilationUnitItem::Method(method(
            span(1, 5, "main"),
            vec![],
            vec![call(span(2, 3, "gone"), None), var(span(3, 3, "lost"), None)],
            linked_tpe(span(1, 13, "Missing"), None),
        ))]
    );
}

#[test]
fn a_parameter_shadows_a_definition_of_the_program() {
    let mut files = vec![file(vec![
        CompilationUnitItem::Class(class(span(1, 7, "Number"), vec![], vec![])),
        CompilationUnitItem::Method(method(span(3, 5, "g"), vec![], vec![], no_tpe())),
        CompilationUnitItem::Method(method(
            span(5, 5, "f"),
            vec![
                Param { name: span(5, 7, "g"), tpe: tpe(span(5, 10, "Number")) },
                Param { name: span(5, 18, "Number"), tpe: tpe(span(5, 26, "Number")) },
                Param { name: span(5, 34, "late"), tpe: tpe(span(5, 40, "Number")) },
            ],
            vec![
                call(span(6, 3, "g"), None),
                var(span(7, 3, "g"), None),
                var(span(8, 3, "f"), None),
                var(span(9, 3, "Number"), None),
            ],
            tpe(span(5, 50, "Number")),
        )),
    ])];
    let root = build(&files).unwrap();
    let diagnostics = apply(&mut files, &root);
    assert_eq!(
        diagnostics,
        vec![vec![
            Diagnostic::UnresolvedType { name: "Number".to_string(), location: at(5, 40) },
            Diagnostic::UnresolvedType { name: "Number".to_string(), location: at(5, 50) },
            Diagnostic::UnresolvedCall { name: "g".to_string(), location: at(6, 3) },
        ]]
    );
    assert_eq!(
        files[0].unit.items[2],
        CompilationUnitItem::Method(method(
            span(5, 5, "f"),
            vec![
                Param { name: span(5, 7, "g"), tpe: linked_tpe(span(5, 10, "Number"), Some(id(0, 0))) },
                Param {
                    name: span(5, 18, "Number"),
                    tpe: linked_tpe(span(5, 26, "Number"), Some(id(0, 0))),
                },
                Param { name: span(5, 34, "late"), tpe: linked_tpe(span(5, 40, "Number"), None) },
            ],
            vec![
                call(span(6, 3, "g"), None),
                var(span(7, 3, "g"), Some(Def::Local(at(5, 7)))),
                var(span(8, 3, "f"), Some(Def::Method(id(0, 2)))),
                var(span(9, 3, "Number"), Some(Def::Local(at(5, 18)))),
            ],
            linked_tpe(span(5, 50, "Number"), None),
        ))
    );
}

#[test]
fn a_type_without_annotation_is_left_alone() {
    let mut files = vec![file(vec![CompilationUnitItem::Method(Method {
        name: span(1, 5, "m"),
        params: vec![Param { name: span(1, 7, "p"), tpe: Type { span: None, class_def: Some(id(3, 3)) } }],
        exprs: vec![],
        return_type: Type { span: None, class_def: Some(id(4, 4)) },
        parent_class: Some(id(9, 9)),
    })])];
    let root = build(&files).unwrap();
    let diagnostics = apply(&mut files, &root);
    assert_eq!(diagnostics, vec![vec![]]);
    assert_eq!(
        files[0].unit.items,
        vec![CompilationUnitItem::Method(Method {
            name: span(1, 5, "m"),
            params: vec![Param {
                name: span(1, 7, "p"),
                tpe: Type { span: None, class_def: Some(id(3, 3)) },
            }],
            exprs: vec![],
            return_type: Type { span: None, class_def: Some(id(4, 4)) },
            parent_class: None,
        })]
    );
}

#[test]
fn methods_of_a_class_are_linked_to_it_and_see_its_parameters() {
    let mut files = vec![
        file(vec![CompilationUnitItem::Method(method(span(1, 5, "free"), vec![], vec![], no_tpe()))]),
        file(vec![
            CompilationUnitItem::Class(class(span(1, 7, "Number"), vec![], vec![])),
            CompilationUnitItem::Class(class(
                span(3, 7, "Point"),
                vec![
                    Param { name: span(3, 13, "x"), tpe: tpe(span(3, 16, "Number")) },
                    Param { name: span(3, 24, "y"), tpe: tpe(span(3, 27, "Missing")) },
                ],
                vec![
                    method(
                        span(4, 7, "norm"),
                        vec![Param { name: span(4, 12, "scale"), tpe: tpe(span(4, 19, "Number")) }],
                        vec![
                            var(span(5, 5, "x"), None),
                            var(span(6, 5, "scale"), None),
                            assign(span(7, 5, "y"), None, call(span(7, 9, "free"), None)),
                            var(span(8, 5, "y"), None),
                            call(span(9, 5, "norm"), None),
                        ],
                        tpe(span(4, 28, "Number")),
                    ),
                    method(
                        span(11, 7, "other"),
                        vec![],
                        vec![var(span(12, 5, "y"), None), var(span(13, 5, "scale"), None)],
                        no_tpe(),
                    ),
                ],
            )),
        ]),
    ];
    let root = build(&files).unwrap();
    let diagnostics = apply(&mut files, &root);
    assert_eq!(
        diagnostics,
        vec![
            vec![],
            vec![
                Diagnostic::UnresolvedType { name: "Missing".to_string(), location: at(3, 27) },
                Diagnostic::UnresolvedCall { name: "norm".to_string(), location: at(9, 5) },
                Diagnostic::UnresolvedVariable { name: "scale".to_string(), location: at(13, 5) },
            ],
        ]
    );
    assert_eq!(root.find_class("Point"), Some(id(1, 1)));
    assert_eq!(root.find_method("norm"), None);
    let number = Some(id(1, 0));
    let point = Some(id(1, 1));
    assert_eq!(
        files[1].unit.items[1],
        CompilationUnitItem::Class(class(
            span(3, 7, "Point"),
            vec![
                Param { name: span(3, 13, "x"), tpe: linked_tpe(span(3, 16, "Number"), number) },
                Param { name: span(3, 24, "y"), tpe: linked_tpe(span(3, 27, "Missing"), None) },
            ],
            vec![
                Method {
                    name: span(4, 7, "norm"),
                    params: vec![Param {
                        name: span(4, 12, "scale"),
                        tpe: linked_tpe(span(4, 19, "Number"), number),
                    }],
                    exprs: vec![
                        var(span(5, 5, "x"), Some(Def::Local(at(3, 13)))),
                        var(span(6, 5, "scale"), Some(Def::Local(at(4, 12)))),
                        assign(
                            span(7, 5, "y"),
                            Some(Def::Local(at(7, 5))),
                            call(span(7, 9, "free"), Some(id(0, 0))),
                        ),
                        var(span(8, 5, "y"), Some(Def::Local(at(7, 5)))),
                        call(span(9, 5, "norm"), None),
                    ],
                    return_type: linked_tpe(span(4, 28, "Number"), number),
                    parent_class: point,
                },
                Method {
                    name: span(11, 7, "other"),
                    params: vec![],
                    exprs: vec![
                        var(span(12, 5, "y"), Some(Def::Local(at(3, 24)))),
                        var(span(13, 5, "scale"), None),
                    ],
                    return_type: no_tpe(),
                    parent_class: point,
                },
            ],
        ))
    );
}

#[test]
fn a_call_resolves_its_receiver_first_and_by_name_alone() {
    let mut files = vec![file(vec![
        CompilationUnitItem::Method(method(span(1, 5, "go"), vec![], vec![], no_tpe())),
        CompilationUnitItem::Method(method(
            span(3, 5, "main"),
            vec![],
            vec![
                Expr::Invoke(Box::new(Invoke {
                    invoker_opt: Some(assign(span(4, 4, "go"), None, var(span(4, 9, "nobody"), None))),
                    name: span(4, 17, "go"),
                    args: vec![var(span(4, 20, "go"), None), call(span(4, 24, "missing"), None)],
                    method_def: None,
                })),
                Expr::Invoke(Box::new(Invoke {
                    invoker_opt: Some(num(5, 3, 7)),
                    name: span(5, 5, "main"),
                    args: vec![assign(span(5, 10, "late"), None, var(span(5, 17, "late"), None))],
                    method_def: None,
                })),
                var(span(6, 3, "late"), None),
            ],
            no_tpe(),
        )),
    ])];
    let root = build(&files).unwrap();
    let diagnostics = apply(&mut files, &root);
    assert_eq!(
        diagnostics,
        vec![vec![
            Diagnostic::UnresolvedVariable { name: "nobody".to_string(), location: at(4, 9) },
            Diagnostic::UnresolvedCall { name: "go".to_string(), location: at(4, 17) },
            Diagnostic::UnresolvedCall { name: "missing".to_string(), location: at(4, 24) },
            Diagnostic::UnresolvedVariable { name: "late".to_string(), location: at(5, 17) },
        ]]
    );
    assert_eq!(
        files[0].unit.items[1],
        CompilationUnitItem::Method(method(
            span(3, 5, "main"),
            vec![],
            vec![
                Expr::Invoke(Box::new(Invoke {
                    invoker_opt: Some(assign(
                        span(4, 4, "go"),
                        Some(Def::Local(at(4, 4))),
                        var(span(4, 9, "nobody"), None),
                    )),
                    name: span(4, 17, "go"),
                    args: vec![
                        var(span(4, 20, "go"), Some(Def::Local(at(4, 4)))),
                        call(span(4, 24, "missing"), None),
                    ],
                    method_def: None,
                })),
                Expr::Invoke(Box::new(Invoke {
                    invoker_opt: Some(num(5, 3, 7)),
                    name: span(5, 5, "main"),
                    args: vec![assign(
                        span(5, 10, "late"),
                        Some(Def::Local(at(5, 10))),
                        var(span(5, 17, "late"), None),
                    )],
                    method_def: Some(id(0, 1)),
                })),
                var(span(6, 3, "late"), Some(Def::Local(at(5, 10)))),
            ],
            no_tpe(),
        ))
    );
}

#[test]
fn scope_reads_the_innermost_binding() {
    let mut scope = Scope::new();
    assert_eq!(scope.depth(), 0);
    assert_eq!(scope.read("x"), None);
    scope.enter();
    assert_eq!(scope.depth(), 1);
    assert_eq!(scope.read("x"), None);
    scope.declare("x", Def::Local(at(1, 1)));
    scope.declare("y", Def::Class(id(0, 3)));
    assert_eq!(scope.read("x"), Some(Def::Local(at(1, 1))));
    assert_eq!(scope.read("y"), Some(Def::Class(id(0, 3))));
    scope.enter();
    assert_eq!(scope.depth(), 2);
    assert_eq!(scope.read("x"), Some(Def::Local(at(1, 1))));
    scope.declare("x", Def::Local(at(2, 2)));
    assert_eq!(scope.read("x"), Some(Def::Local(at(2, 2))));
    assert_eq!(scope.read("y"), Some(Def::Class(id(0, 3))));
    scope.declare("x", Def::Method(id(4, 5)));
    assert_eq!(scope.read("x"), Some(Def::Method(id(4, 5))));
    scope.declare("z", Def::Local(at(3, 3)));
    assert_eq!(scope.read("z"), Some(Def::Local(at(3, 3))));
    scope.leave();
    assert_eq!(scope.depth(), 1);
    assert_eq!(scope.read("x"), Some(Def::Local(at(1, 1))));
    assert_eq!(scope.read("z"), None);
    scope.leave();
    assert_eq!(scope.depth(), 0);
    assert_eq!(scope.read("x"), None);
    assert_eq!(scope.read("y"), None);
    scope.leave();
    assert_eq!(scope.depth(), 0);
}

#[test]
fn scope_root_level_holds_the_index() {
    let files = vec![file(vec![
        CompilationUnitItem::Class(class(span(1, 7, "Number"), vec![], vec![])),
        CompilationUnitItem::Method(method(span(3, 5, "main"), vec![], vec![], no_tpe())),
    ])];
    let root = build(&files).unwrap();
    let mut scope = Scope::new();
    scope.enter_root(&root);
    assert_eq!(scope.depth(), 1);
    assert_eq!(scope.read("Number"), Some(Def::Class(id(0, 0))));
    assert_eq!(scope.read("main"), Some(Def::Method(id(0, 1))));
    assert_eq!(scope.read("other"), None);
    scope.enter();
    scope.declare("main", Def::Local(at(4, 3)));
    assert_eq!(scope.read("main"), Some(Def::Local(at(4, 3))));
    assert_eq!(scope.read("Number"), Some(Def::Class(id(0, 0))));
    scope.leave();
    assert_eq!(scope.read("main"), Some(Def::Method(id(0, 1))));
    scope.leave();
    assert_eq!(scope.read("main"), None);
    assert_eq!(root.find_method("main"), Some(id(0, 1)));
}

#[test]
fn passes_leave_the_scope_as_they_found_it() {
    let files = vec![file(vec![CompilationUnitItem::Class(class(
        span(1, 7, "Number"),
        vec![],
        vec![],
    ))])];
    let root = build(&files).unwrap();
    let mut scope = Scope::new();
    scope.enter_root(&root);
    scope.enter();
    scope.declare("outer", Def::Local(at(1, 1)));
    let mut diagnostics = Vec::new();

    let mut m = method(
        span(2, 5, "m"),
        vec![Param { name: span(2, 7, "p"), tpe: tpe(span(2, 10, "Number")) }],
        vec![assign(span(3, 3, "t"), None, var(span(3, 7, "outer"), None))],
        tpe(span(2, 20, "Number")),
    );
    lilit::analyse::def::method::apply(&mut m, Some(id(8, 8)), &mut scope, &mut diagnostics);
    assert_eq!(diagnostics, vec![]);
    assert_eq!(m.parent_class, Some(id(8, 8)));
    assert_eq!(
        m.exprs,
        vec![assign(
            span(3, 3, "t"),
            Some(Def::Local(at(3, 3))),
            var(span(3, 7, "outer"), Some(Def::Local(at(1, 1)))),
        )]
    );
    assert_eq!(scope.depth(), 2);
    assert_eq!(scope.read("t"), None);
    assert_eq!(scope.read("p"), None);
    assert_eq!(scope.read("outer"), Some(Def::Local(at(1, 1))));

    let mut c = class(
        span(5, 7, "Unlisted"),
        vec![Param { name: span(5, 16, "field"), tpe: tpe(span(5, 23, "Number")) }],
        vec![method(span(6, 7, "get"), vec![], vec![var(span(7, 5, "field"), None)], no_tpe())],
    );
    lilit::analyse::def::class::apply(&mut c, &mut scope, &mut diagnostics);
    assert_eq!(diagnostics, vec![]);
    assert_eq!(c.methods[0].parent_class, None);
    assert_eq!(c.methods[0].exprs, vec![var(span(7, 5, "field"), Some(Def::Local(at(5, 16))))]);
    assert_eq!(scope.depth(), 2);
    assert_eq!(scope.read("field"), None);

    let mut e = assign(span(9, 1, "kept"), None, num(9, 8, 3));
    lilit::analyse::expr::apply(&mut e, &mut scope, &mut diagnostics);
    assert_eq!(scope.depth(), 2);
    assert_eq!(scope.read("kept"), Some(Def::Local(at(9, 1))));

    let mut t = tpe(span(10, 1, "outer"));
    lilit::analyse::tpe::apply(&mut t, &scope, &mut diagnostics);
    assert_eq!(t.class_def, None);
    assert_eq!(
        diagnostics,
        vec![Diagnostic::UnresolvedType { name: "outer".to_string(), location: at(10, 1) }]
    );
}
