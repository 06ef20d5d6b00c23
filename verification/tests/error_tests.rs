use ts_type_resolver::TypeInfo;
use ts_type_resolver::analyzer::Analyzer;
use ts_type_resolver::ast::Expr;
use ts_type_resolver::ast::ExprKind;
use ts_type_resolver::ast::InterfaceMember;
use ts_type_resolver::ast::Module;
use ts_type_resolver::ast::ParamDecl;
use ts_type_resolver::ast::Statement;
use ts_type_resolver::ast::TsKeywordForm;
use ts_type_resolver::ast::TsTypeExpr;
use ts_type_resolver::ast::VariableBinding;
use ts_type_resolver::resolve::AnalyzeError;
use ts_type_resolver::tables::SymbolTable;

fn analyze(analyzer: &mut Analyzer, path: &str, module: &Module) -> Result<(), AnalyzeError> {
    analyzer.set_current_path(path.to_string());
    analyzer.visit_module(module)
}

/// A statement kind with no defined resolution rule is fatal for the whole
/// run; entries recorded by earlier statements keep their values.
#[test]
fn unsupported_statement_aborts_but_keeps_earlier_entries() {
    let module = Module {
        statements: vec![
            Statement::TypeAlias {
                node: 1,
                name: "Id".to_string(),
                ty: TsTypeExpr::Keyword(TsKeywordForm::StringType),
            },
            Statement::Unsupported,
            Statement::TypeAlias {
                node: 2,
                name: "Name".to_string(),
                ty: TsTypeExpr::Keyword(TsKeywordForm::StringType),
            },
        ],
    };
    let mut analyzer = Analyzer::new();
    assert_eq!(analyze(&mut analyzer, "a.ts", &module), Err(AnalyzeError::UnsupportedConstruct));
    assert!(analyzer.get_type_info(&"a.ts".to_string(), 1).is_some());
    assert_eq!(analyzer.get_type_info(&"a.ts".to_string(), 2), None);
}

/// A composite type form (here standing for a union type) has no resolution
/// rule yet and is fatal.
#[test]
fn composite_type_annotation_is_unsupported() {
    let module = Module {
        statements: vec![Statement::Variable {
            bindings: vec![VariableBinding {
                node: 1,
                annotation: Some(TsTypeExpr::Unsupported),
                initializer: None,
            }],
        }],
    };
    let mut analyzer = Analyzer::new();
    assert_eq!(analyze(&mut analyzer, "a.ts", &module), Err(AnalyzeError::UnsupportedConstruct));
}

/// A function parameter without an explicit annotation is an unsupported
/// condition, not inferred.
#[test]
fn parameter_without_annotation_is_unsupported() {
    let module = Module {
        statements: vec![Statement::Function {
            node: 1,
            name: "f".to_string(),
            params: vec![ParamDecl::Formal { name: "x".to_string(), annotation: None }],
            return_type: Some(TsTypeExpr::Keyword(TsKeywordForm::VoidType)),
        }],
    };
    let mut analyzer = Analyzer::new();
    assert_eq!(analyze(&mut analyzer, "a.ts", &module), Err(AnalyzeError::UnsupportedConstruct));
}

/// A function without a return type annotation is an unsupported condition.
#[test]
fn missing_return_annotation_is_unsupported() {
    let module = Module {
        statements: vec![Statement::Function {
            node: 1,
            name: "f".to_string(),
            params: vec![],
            return_type: None,
        }],
    };
    let mut analyzer = Analyzer::new();
    assert_eq!(analyze(&mut analyzer, "a.ts", &module), Err(AnalyzeError::UnsupportedConstruct));
}

/// An expression kind beyond literals and identifier references is fatal.
#[test]
fn unsupported_expression_is_fatal() {
    let module = Module {
        statements: vec![Statement::ExpressionStmt {
            expr: Expr { node: 1, kind: ExprKind::Unsupported },
        }],
    };
    let mut analyzer = Analyzer::new();
    assert_eq!(analyze(&mut analyzer, "a.ts", &module), Err(AnalyzeError::UnsupportedConstruct));
}

/// An interface member kind other than a property signature is fatal, and
/// nothing is recorded for the interface.
#[test]
fn unsupported_interface_member_is_fatal() {
    let module = Module {
        statements: vec![Statement::Interface {
            node: 1,
            name: "Odd".to_string(),
            members: vec![InterfaceMember::Unsupported],
        }],
    };
    let mut analyzer = Analyzer::new();
    assert_eq!(analyze(&mut analyzer, "a.ts", &module), Err(AnalyzeError::UnsupportedConstruct));
    assert_eq!(analyzer.get_type_info(&"a.ts".to_string(), 1), None);
}

/// The symbol table is exact-name, last-write-wins.
#[test]
fn symbol_table_overwrites_on_insert() {
    let mut table = SymbolTable::new();
    assert!(table.get(&"Id".to_string()).is_none());
    table.insert("Id".to_string(), TypeInfo::Unknown);
    table.insert(
        "Id".to_string(),
        TypeInfo::Literal { value: "1".to_string() },
    );
    assert_eq!(
        table.get(&"Id".to_string()),
        Some(TypeInfo::Literal { value: "1".to_string() })
    );
    assert!(table.get(&"id".to_string()).is_none());
}

/// An unresolved named type is not an error: the run succeeds and the
/// placeholder is recorded.
#[test]
fn unresolved_reference_is_not_an_error() {
    let module = Module {
        statements: vec![Statement::Variable {
            bindings: vec![VariableBinding {
                node: 1,
                annotation: Some(TsTypeExpr::Named { name: "Missing".to_string() }),
                initializer: None,
            }],
        }],
    };
    let mut analyzer = Analyzer::new();
    assert_eq!(analyze(&mut analyzer, "a.ts", &module), Ok(()));
    assert_eq!(
        analyzer.get_type_info(&"a.ts".to_string(), 1),
        Some(TypeInfo::Reference("Missing".to_string()))
    );
}
