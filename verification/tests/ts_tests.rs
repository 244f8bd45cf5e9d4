use affected::ts::{
    execute_common_js, execute_esm, Callee, Declarator, Expression, Finding, ImportDecl,
    ImportSpecifier, ModuleItem,
};

fn import(source: &str, specifiers: Vec<ImportSpecifier>) -> ModuleItem {
    ModuleItem::Import(ImportDecl { source: source.to_string(), specifiers })
}

fn call(name: &str, arguments: Vec<Expression>) -> Expression {
    Expression::Call {
        callee: Callee::Expression(Box::new(Expression::Identifier(name.to_string()))),
        arguments,
    }
}

fn text(value: &str) -> Expression {
    Expression::StringLiteral(value.to_string())
}

fn variable(init: Option<Expression>) -> ModuleItem {
    ModuleItem::Variables(vec![Declarator { init }])
}

fn shown(findings: Vec<Finding>) -> Vec<String> {
    findings.iter().map(|f| format!("{:?}", f)).collect()
}

#[test]
fn esm_lists_each_import_with_its_first_binding() {
    let module = vec![
        import("./a", vec![ImportSpecifier::Named("A".to_string())]),
        import("./b", vec![ImportSpecifier::Default("B".to_string())]),
        import(
            "./c",
            vec![ImportSpecifier::Namespace("C".to_string()), ImportSpecifier::Named("D".to_string())],
        ),
        import("./side-effect-only", Vec::new()),
        variable(Some(call("require", vec![text("uuid/v4")]))),
        ModuleItem::Other,
    ];
    assert_eq!(
        shown(execute_esm(&module)),
        vec![
            "Import(\"./a\")",
            "NamedImport(\"A\")",
            "Import(\"./b\")",
            "DefaultImport(\"B\")",
            "Import(\"./c\")",
            "NamespaceImport(\"C\")",
            "Import(\"./side-effect-only\")",
        ]
    );
}

#[test]
fn common_js_lists_imports_with_every_binding_and_requires() {
    let module = vec![
        import(
            "@angular/core",
            vec![
                ImportSpecifier::Named("Injectable".to_string()),
                ImportSpecifier::Default("core".to_string()),
            ],
        ),
        ModuleItem::Other,
        variable(Some(call("require", vec![text("uuid/v4")]))),
    ];
    assert_eq!(
        shown(execute_common_js(&module)),
        vec![
            "Import(\"@angular/core\")",
            "NamedImport(\"Injectable\")",
            "DefaultImport(\"core\")",
            "Require(\"uuid/v4\")",
        ]
    );
}

#[test]
fn only_a_call_of_require_on_a_string_counts() {
    let module = vec![
        variable(None),
        variable(Some(text("uuid"))),
        variable(Some(call("import", vec![text("a")]))),
        variable(Some(call("require", Vec::new()))),
        variable(Some(call("require", vec![Expression::Identifier("name".to_string())]))),
        variable(Some(Expression::Call { callee: Callee::Other, arguments: vec![text("b")] })),
        variable(Some(Expression::Call {
            callee: Callee::Expression(Box::new(call("require", vec![text("c")]))),
            arguments: vec![text("d")],
        })),
        variable(Some(call("require", vec![text("first"), text("second")]))),
    ];
    assert_eq!(shown(execute_common_js(&module)), vec!["Require(\"first\")"]);
}

#[test]
fn each_variable_of_a_declaration_is_read() {
    let module = vec![ModuleItem::Variables(vec![
        Declarator { init: Some(call("require", vec![text("a")])) },
        Declarator { init: None },
        Declarator { init: Some(call("require", vec![text("b")])) },
    ])];
    assert_eq!(shown(execute_common_js(&module)), vec!["Require(\"a\")", "Require(\"b\")"]);
}

#[test]
fn an_empty_module_depends_on_nothing() {
    assert!(execute_esm(&Vec::new()).is_empty());
    assert!(execute_common_js(&Vec::new()).is_empty());
}
