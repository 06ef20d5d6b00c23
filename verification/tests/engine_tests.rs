use ts_type_resolver::TsKeywordType;
use ts_type_resolver::TypeInfo;
use ts_type_resolver::analyzer::Analyzer;
use ts_type_resolver::ast::Expr;
use ts_type_resolver::ast::ExprKind;
use ts_type_resolver::ast::InterfaceMember;
use ts_type_resolver::ast::Module;
use ts_type_resolver::ast::ParamDecl;
use ts_type_resolver::ast::Statement;
use ts_type_resolver::ast::TsKeywordForm;
use ts_type_resolver::ast::TsTypeExpr;
use ts_type_resolver::ast::VariableBinding;
use ts_type_resolver::resolve::AnalyzeError;

fn kw(f: TsKeywordForm) -> TsTypeExpr {
    TsTypeExpr::Keyword(f)
}

fn named(name: &str) -> TsTypeExpr {
    TsTypeExpr::Named { name: name.to_string() }
}

fn annotated_binding(node: u64, ty: TsTypeExpr) -> VariableBinding {
    VariableBinding { node, annotation: Some(ty), initializer: None }
}

fn analyze(analyzer: &mut Analyzer, path: &str, module: &Module) -> Result<(), AnalyzeError> {
    analyzer.set_current_path(path.to_string());
    analyzer.visit_module(module)
}

/// `interface Point { x: number; y: number }` followed later in the same
/// file by `let p: Point;`: the binding node gets the full interface value
/// substituted in place (structural inlining), not a reference.
#[test]
fn interface_then_reference_inlines_structurally() {
    let module = Module {
        statements: vec![
            Statement::Interface {
                node: 1,
                name: "Point".to_string(),
                members: vec![
                    InterfaceMember::Property {
                        name: "x".to_string(),
                        annotation: Some(kw(TsKeywordForm::NumberType)),
                    },
                    InterfaceMember::Property {
                        name: "y".to_string(),
                        annotation: Some(kw(TsKeywordForm::NumberType)),
                    },
                ],
            },
            Statement::Variable { bindings: vec![annotated_binding(2, named("Point"))] },
        ],
    };
    let mut analyzer = Analyzer::new();
    assert!(analyze(&mut analyzer, "a.ts", &module).is_ok());
    let expected = TypeInfo::Interface {
        name: "Point".to_string(),
        properties: vec![
            ("x".to_string(), TypeInfo::Keyword(TsKeywordType::TSNumberKeyword)),
            ("y".to_string(), TypeInfo::Keyword(TsKeywordType::TSNumberKeyword)),
        ],
    };
    assert_eq!(analyzer.get_type_info(&"a.ts".to_string(), 2), Some(expected.clone()));
    assert_eq!(analyzer.get_type_info(&"a.ts".to_string(), 1), Some(expected));
}

/// `let p: Point;` followed later by `interface Point {...}`: the reference
/// precedes the declaration, so the binding gets a `Reference` placeholder
/// (the documented single-pass ordering limitation).
#[test]
fn reference_before_declaration_stays_a_reference() {
    let module = Module {
        statements: vec![
            Statement::Variable { bindings: vec![annotated_binding(1, named("Point"))] },
            Statement::Interface {
                node: 2,
                name: "Point".to_string(),
                members: vec![InterfaceMember::Property {
                    name: "x".to_string(),
                    annotation: Some(kw(TsKeywordForm::NumberType)),
                }],
            },
        ],
    };
    let mut analyzer = Analyzer::new();
    assert!(analyze(&mut analyzer, "a.ts", &module).is_ok());
    assert_eq!(
        analyzer.get_type_info(&"a.ts".to_string(), 1),
        Some(TypeInfo::Reference("Point".to_string()))
    );
}

/// `function add(x: number, y: number): number { }` yields the full
/// `Function` value at the function's identifier node.
#[test]
fn function_declaration_records_function_type() {
    let module = Module {
        statements: vec![Statement::Function {
            node: 7,
            name: "add".to_string(),
            params: vec![
                ParamDecl::Formal {
                    name: "x".to_string(),
                    annotation: Some(kw(TsKeywordForm::NumberType)),
                },
                ParamDecl::Formal {
                    name: "y".to_string(),
                    annotation: Some(kw(TsKeywordForm::NumberType)),
                },
            ],
            return_type: Some(kw(TsKeywordForm::NumberType)),
        }],
    };
    let mut analyzer = Analyzer::new();
    assert!(analyze(&mut analyzer, "a.ts", &module).is_ok());
    let expected = TypeInfo::Function {
        params: vec![
            ("x".to_string(), TypeInfo::Keyword(TsKeywordType::TSNumberKeyword)),
            ("y".to_string(), TypeInfo::Keyword(TsKeywordType::TSNumberKeyword)),
        ],
        return_type: Box::new(TypeInfo::Keyword(TsKeywordType::TSNumberKeyword)),
    };
    assert_eq!(analyzer.get_type_info(&"a.ts".to_string(), 7), Some(expected));
}

/// `type Id = string;` yields `TypeAlias{name:"Id", aliased:Keyword(String)}`.
#[test]
fn type_alias_records_alias_value() {
    let module = Module {
        statements: vec![Statement::TypeAlias {
            node: 3,
            name: "Id".to_string(),
            ty: kw(TsKeywordForm::StringType),
        }],
    };
    let mut analyzer = Analyzer::new();
    assert!(analyze(&mut analyzer, "a.ts", &module).is_ok());
    let expected = TypeInfo::TypeAlias {
        name: "Id".to_string(),
        aliased_type: Box::new(TypeInfo::Keyword(TsKeywordType::TSStringKeyword)),
    };
    assert_eq!(analyzer.get_type_info(&"a.ts".to_string(), 3), Some(expected));
}

/// `let b = 42;` records `Literal{raw_text:"42"}` at the numeric-literal
/// expression node, not at the binding identifier node.
#[test]
fn initializer_literal_is_keyed_by_expression_node() {
    let module = Module {
        statements: vec![Statement::Variable {
            bindings: vec![VariableBinding {
                node: 1,
                annotation: None,
                initializer: Some(Expr {
                    node: 2,
                    kind: ExprKind::Literal { raw_text: "42".to_string() },
                }),
            }],
        }],
    };
    let mut analyzer = Analyzer::new();
    assert!(analyze(&mut analyzer, "a.ts", &module).is_ok());
    assert_eq!(analyzer.get_type_info(&"a.ts".to_string(), 1), None);
    assert_eq!(
        analyzer.get_type_info(&"a.ts".to_string(), 2),
        Some(TypeInfo::Literal { value: "42".to_string() })
    );
}

/// Literal raw text is preserved verbatim, not normalized: `0x1A` stays
/// `0x1A`, for a literal type annotation and for a literal expression alike.
#[test]
fn literal_raw_text_round_trips_verbatim() {
    let module = Module {
        statements: vec![
            Statement::Variable {
                bindings: vec![annotated_binding(
                    1,
                    TsTypeExpr::Literal { raw_text: "0x1A".to_string() },
                )],
            },
            Statement::ExpressionStmt {
                expr: Expr { node: 2, kind: ExprKind::Literal { raw_text: "0x1A".to_string() } },
            },
        ],
    };
    let mut analyzer = Analyzer::new();
    assert!(analyze(&mut analyzer, "a.ts", &module).is_ok());
    assert_eq!(
        analyzer.get_type_info(&"a.ts".to_string(), 1),
        Some(TypeInfo::Literal { value: "0x1A".to_string() })
    );
    assert_eq!(
        analyzer.get_type_info(&"a.ts".to_string(), 2),
        Some(TypeInfo::Literal { value: "0x1A".to_string() })
    );
}

/// A binding with neither annotation nor initializer records `Unknown` at
/// the binding identifier node.
#[test]
fn bare_binding_records_unknown() {
    let module = Module {
        statements: vec![Statement::Variable {
            bindings: vec![VariableBinding { node: 9, annotation: None, initializer: None }],
        }],
    };
    let mut analyzer = Analyzer::new();
    assert!(analyze(&mut analyzer, "a.ts", &module).is_ok());
    assert_eq!(analyzer.get_type_info(&"a.ts".to_string(), 9), Some(TypeInfo::Unknown));
}

/// An identifier in expression position resolves to a `Reference`
/// unconditionally, even when the global table holds the name: expression
/// position identifiers are not looked up.
#[test]
fn expression_identifier_is_not_looked_up() {
    let module = Module {
        statements: vec![
            Statement::Interface { node: 1, name: "Point".to_string(), members: vec![] },
            Statement::ExpressionStmt {
                expr: Expr { node: 2, kind: ExprKind::Identifier { name: "Point".to_string() } },
            },
        ],
    };
    let mut analyzer = Analyzer::new();
    assert!(analyze(&mut analyzer, "a.ts", &module).is_ok());
    assert_eq!(
        analyzer.get_type_info(&"a.ts".to_string(), 2),
        Some(TypeInfo::Reference("Point".to_string()))
    );
}

/// The keyword mapping is total over the twelve keyword forms and no two
/// forms give the same tag.
#[test]
fn keyword_mapping_is_total_and_injective() {
    let forms = vec![
        TsKeywordForm::AnyType,
        TsKeywordForm::NumberType,
        TsKeywordForm::BooleanType,
        TsKeywordForm::UnknownType,
        TsKeywordForm::VoidType,
        TsKeywordForm::UndefinedType,
        TsKeywordForm::NullLiteralType,
        TsKeywordForm::NeverType,
        TsKeywordForm::BigintType,
        TsKeywordForm::StringType,
        TsKeywordForm::SymbolType,
        TsKeywordForm::NonPrimitiveType,
    ];
    let expected = vec![
        TsKeywordType::TSAnyKeyword,
        TsKeywordType::TSNumberKeyword,
        TsKeywordType::TSBooleanKeyword,
        TsKeywordType::TSUnknownKeyword,
        TsKeywordType::TSVoidKeyword,
        TsKeywordType::TSUndefinedKeyword,
        TsKeywordType::TSNullKeyword,
        TsKeywordType::TSNeverKeyword,
        TsKeywordType::TSBigIntKeyword,
        TsKeywordType::TSStringKeyword,
        TsKeywordType::TSSymbolKeyword,
        TsKeywordType::TSObjectKeyword,
    ];
    let mut seen: Vec<TsKeywordType> = Vec::new();
    for (i, f) in forms.iter().enumerate() {
        let mut analyzer = Analyzer::new();
        let module = Module {
            statements: vec![Statement::Variable { bindings: vec![annotated_binding(1, kw(*f))] }],
        };
        assert!(analyze(&mut analyzer, "a.ts", &module).is_ok());
        let got = analyzer.get_type_info(&"a.ts".to_string(), 1);
        assert_eq!(got, Some(TypeInfo::Keyword(expected[i])));
        assert!(!seen.contains(&expected[i]));
        seen.push(expected[i]);
    }
    assert_eq!(seen.len(), 12);
}

/// A member without an annotation resolves to `Unknown`; member order is
/// declaration order.
#[test]
fn interface_member_without_annotation_is_unknown() {
    let module = Module {
        statements: vec![Statement::Interface {
            node: 1,
            name: "Box".to_string(),
            members: vec![
                InterfaceMember::Property {
                    name: "tag".to_string(),
                    annotation: Some(kw(TsKeywordForm::StringType)),
                },
                InterfaceMember::Property { name: "holds".to_string(), annotation: None },
            ],
        }],
    };
    let mut analyzer = Analyzer::new();
    assert!(analyze(&mut analyzer, "a.ts", &module).is_ok());
    assert_eq!(
        analyzer.get_type_info(&"a.ts".to_string(), 1),
        Some(TypeInfo::Interface {
            name: "Box".to_string(),
            properties: vec![
                ("tag".to_string(), TypeInfo::Keyword(TsKeywordType::TSStringKeyword)),
                ("holds".to_string(), TypeInfo::Unknown),
            ],
        })
    );
}

/// Re-running analysis on an unchanged file (no forward references) yields
/// identical cache contents; analyzing another file leaves the first file's
/// entries untouched.
#[test]
fn rerun_is_idempotent_and_other_files_are_untouched() {
    let module_a = Module {
        statements: vec![
            Statement::Interface {
                node: 1,
                name: "Point".to_string(),
                members: vec![InterfaceMember::Property {
                    name: "x".to_string(),
                    annotation: Some(kw(TsKeywordForm::NumberType)),
                }],
            },
            Statement::Variable { bindings: vec![annotated_binding(2, named("Point"))] },
        ],
    };
    let module_b = Module {
        statements: vec![Statement::TypeAlias {
            node: 1,
            name: "Id".to_string(),
            ty: kw(TsKeywordForm::StringType),
        }],
    };
    let mut analyzer = Analyzer::new();
    assert!(analyze(&mut analyzer, "a.ts", &module_a).is_ok());
    let first_run: Vec<Option<TypeInfo>> = (0u64..4)
        .map(|n| analyzer.get_type_info(&"a.ts".to_string(), n))
        .collect();
    assert!(analyze(&mut analyzer, "a.ts", &module_a).is_ok());
    let second_run: Vec<Option<TypeInfo>> = (0u64..4)
        .map(|n| analyzer.get_type_info(&"a.ts".to_string(), n))
        .collect();
    assert_eq!(first_run, second_run);

    assert!(analyze(&mut analyzer, "b.ts", &module_b).is_ok());
    let after_b: Vec<Option<TypeInfo>> = (0u64..4)
        .map(|n| analyzer.get_type_info(&"a.ts".to_string(), n))
        .collect();
    assert_eq!(first_run, after_b);
}

/// Two distinct files declaring an interface named `Shape` with different
/// members: the second analyzed file's global registration overwrites the
/// first's (last-write-wins), observable by re-resolving a reference after
/// the second file has been analyzed.
#[test]
fn second_file_overwrites_global_registration() {
    let shape_a = Module {
        statements: vec![Statement::Interface {
            node: 1,
            name: "Shape".to_string(),
            members: vec![InterfaceMember::Property {
                name: "x".to_string(),
                annotation: Some(kw(TsKeywordForm::NumberType)),
            }],
        }],
    };
    let shape_b = Module {
        statements: vec![Statement::Interface {
            node: 1,
            name: "Shape".to_string(),
            members: vec![InterfaceMember::Property {
                name: "label".to_string(),
                annotation: Some(kw(TsKeywordForm::StringType)),
            }],
        }],
    };
    let reference = Module {
        statements: vec![Statement::Variable { bindings: vec![annotated_binding(1, named("Shape"))] }],
    };
    let mut analyzer = Analyzer::new();
    assert!(analyze(&mut analyzer, "a.ts", &shape_a).is_ok());
    assert!(analyze(&mut analyzer, "b.ts", &shape_b).is_ok());
    assert!(analyze(&mut analyzer, "c.ts", &reference).is_ok());
    assert_eq!(
        analyzer.get_type_info(&"c.ts".to_string(), 1),
        Some(TypeInfo::Interface {
            name: "Shape".to_string(),
            properties: vec![
                ("label".to_string(), TypeInfo::Keyword(TsKeywordType::TSStringKeyword)),
            ],
        })
    );
}

/// A node from one file is never confused with a node from another file,
/// even when the numeric identifiers coincide.
#[test]
fn node_identity_is_per_file() {
    let module_a = Module {
        statements: vec![Statement::Variable {
            bindings: vec![annotated_binding(1, kw(TsKeywordForm::NumberType))],
        }],
    };
    let module_b = Module {
        statements: vec![Statement::Variable {
            bindings: vec![annotated_binding(1, kw(TsKeywordForm::StringType))],
        }],
    };
    let mut analyzer = Analyzer::new();
    assert!(analyze(&mut analyzer, "a.ts", &module_a).is_ok());
    assert!(analyze(&mut analyzer, "b.ts", &module_b).is_ok());
    assert_eq!(
        analyzer.get_type_info(&"a.ts".to_string(), 1),
        Some(TypeInfo::Keyword(TsKeywordType::TSNumberKeyword))
    );
    assert_eq!(
        analyzer.get_type_info(&"b.ts".to_string(), 1),
        Some(TypeInfo::Keyword(TsKeywordType::TSStringKeyword))
    );
}
