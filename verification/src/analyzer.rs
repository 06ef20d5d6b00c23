//! The resolution engine: walks a file's statements top to bottom, resolves
//! annotations and expressions to types, and populates the type cache and
//! the symbol tables.
//!
//! Every traversal method is verified against the transition functions of
//! [`crate::engine`].

use vstd::prelude::*;

use crate::ast::Expr;
use crate::ast::ExprKind;
use crate::ast::InterfaceMember;
use crate::ast::Module;
use crate::ast::NodeId;
use crate::ast::ParamDecl;
use crate::ast::Statement;
use crate::ast::TsTypeExpr;
use crate::ast::VariableBinding;
use crate::engine::StateV;
use crate::engine::lemma_bindings_err_prefix;
use crate::engine::lemma_members_err_prefix;
use crate::engine::lemma_params_err_prefix;
use crate::engine::lemma_run_err_prefix;
use crate::engine::resolve_members_spec;
use crate::engine::resolve_params_spec;
use crate::engine::run_statements;
use crate::engine::step_bindings;
use crate::engine::step_expr;
use crate::engine::step_statement;
use crate::resolve::AnalyzeError;
use crate::resolve::resolve_keyword;
use crate::resolve::resolve_type_expr_spec;
use crate::tables::LocalTables;
use crate::tables::SymbolTable;
use crate::tables::TypeCache;
use crate::type_info::TypeInfo;
use crate::type_info::TypeInfoV;
use crate::type_info::entries_model;

verus! {

/// The type-resolution engine. Its state — an active file path, the type
/// cache, the global symbol table and the per-file local tables — is created
/// empty and grows monotonically for the engine's lifetime; re-running
/// analysis re-applies the same inserts (later wins), there is no eviction.
pub struct Analyzer {
    current_path: String,
    type_info_table: TypeCache,
    global_symbols: SymbolTable,
    local_symbols: LocalTables,
}

impl View for Analyzer {
    type V = StateV;

    closed spec fn view(&self) -> StateV {
        StateV {
            current_path: self.current_path@,
            cache: self.type_info_table@,
            global: self.global_symbols@,
            locals: self.local_symbols@,
        }
    }
}

impl Analyzer {
    /// A fresh engine: empty path, empty cache, empty tables.
    pub fn new() -> (r: Analyzer)
        ensures
            r@ == StateV::empty(),
    {
        let r = Analyzer {
            current_path: String::new(),
            type_info_table: TypeCache::new(),
            global_symbols: SymbolTable::new(),
            local_symbols: LocalTables::new(),
        };
        proof {
            assert(r@ == StateV::empty());
        }
        r
    }

    /// The whole type cache, for point queries per (file, node) pair.
    pub fn type_info_table(&self) -> (r: &TypeCache)
        ensures
            r@ == self@.cache,
    {
        &self.type_info_table
    }

    /// The type recorded for `node` of the file at `path`, or `None` if that
    /// pair was never recorded (not yet analyzed, or no entry for the node).
    pub fn get_type_info(&self, path: &String, node: NodeId) -> (r: Option<TypeInfo>)
        ensures
            match r {
                Some(t) => self@.cache.contains_key(path@) && self@.cache[path@].contains_key(node)
                    && t@ == self@.cache[path@][node],
                None => !(self@.cache.contains_key(path@)
                    && self@.cache[path@].contains_key(node)),
            },
    {
        self.type_info_table.get(path, node)
    }

    /// Sets the active file: subsequent cache and local-table inserts go to
    /// this file's entries.
    pub fn set_current_path(&mut self, path: String)
        ensures
            final(self)@ == (StateV { current_path: path@, ..old(self)@ }),
    {
        self.current_path = path;
    }

    /// Records `type_info` for `node` of the active file.
    fn insert_cache(&mut self, node: NodeId, type_info: TypeInfo)
        ensures
            final(self)@ == old(self)@.cache_insert(node, type_info@),
    {
        let path = self.current_path.clone();
        self.type_info_table.insert(path, node, type_info);
    }

    /// Registers `type_info` under `name` in the global symbol table.
    fn insert_global(&mut self, name: String, type_info: TypeInfo)
        ensures
            final(self)@ == old(self)@.global_insert(name@, type_info@),
    {
        self.global_symbols.insert(name, type_info);
    }

    /// Binds `type_info` under `name` in the active file's local table.
    fn insert_local(&mut self, name: String, type_info: TypeInfo)
        ensures
            final(self)@ == old(self)@.local_insert(name@, type_info@),
    {
        let path = self.current_path.clone();
        self.local_symbols.insert(path, name, type_info);
    }

    /// Resolves a type-annotation expression against the global symbol
    /// table; see [`resolve_type_expr_spec`].
    fn analyze_type_annotation(&self, node: &TsTypeExpr) -> (r: Result<TypeInfo, AnalyzeError>)
        ensures
            match r {
                Ok(t) => resolve_type_expr_spec(self@.global, *node) == Ok::<
                    TypeInfoV,
                    AnalyzeError,
                >(t@),
                Err(e) => resolve_type_expr_spec(self@.global, *node) == Err::<
                    TypeInfoV,
                    AnalyzeError,
                >(e),
            },
    {
        match node {
            TsTypeExpr::Keyword(f) => Ok(TypeInfo::Keyword(resolve_keyword(*f))),
            TsTypeExpr::Literal { raw_text } => Ok(
                TypeInfo::Literal { value: raw_text.clone() },
            ),
            TsTypeExpr::Named { name } => match self.global_symbols.get(name) {
                Some(referenced_ty) => Ok(referenced_ty),
                None => Ok(TypeInfo::Reference(name.clone())),
            },
            TsTypeExpr::Unsupported => Err(AnalyzeError::UnsupportedConstruct),
        }
    }

    /// Resolves an expression and records its type at the expression node;
    /// see [`step_expr`].
    fn visit_expression(&mut self, expr: &Expr) -> (r: Result<(), AnalyzeError>)
        ensures
            ({
                let (st, rr) = step_expr(old(self)@, *expr);
                final(self)@ == st && r == rr
            }),
    {
        match &expr.kind {
            ExprKind::Literal { raw_text } => {
                self.insert_cache(expr.node, TypeInfo::Literal { value: raw_text.clone() });
                Ok(())
            },
            ExprKind::Identifier { name } => {
                self.insert_cache(expr.node, TypeInfo::Reference(name.clone()));
                Ok(())
            },
            ExprKind::Unsupported => Err(AnalyzeError::UnsupportedConstruct),
        }
    }

    /// Handles each binding of a variable statement in order; see
    /// [`step_bindings`].
    fn visit_variable_statement(&mut self, bindings: &Vec<VariableBinding>) -> (r: Result<
        (),
        AnalyzeError,
    >)
        ensures
            ({
                let (st, rr) = step_bindings(old(self)@, bindings@);
                final(self)@ == st && r == rr
            }),
    {
        let n = bindings.len();
        let mut i: usize = 0;
        while i < n
            invariant
                n == bindings@.len(),
                i <= n,
                step_bindings(old(self)@, bindings@.take(i as int)) == (
                    self@,
                    Ok::<(), AnalyzeError>(()),
                ),
            decreases n - i,
        {
            let b = &bindings[i];
            proof {
                assert(bindings@.take(i + 1).drop_last() =~= bindings@.take(i as int));
                assert(bindings@.take(i + 1).last() == bindings@[i as int]);
            }
            let step_result: Result<(), AnalyzeError> = match &b.annotation {
                Some(t) => match self.analyze_type_annotation(t) {
                    Ok(ty) => {
                        self.insert_cache(b.node, ty);
                        Ok(())
                    },
                    Err(e) => Err(e),
                },
                None => match &b.initializer {
                    Some(init) => self.visit_expression(init),
                    None => {
                        self.insert_cache(b.node, TypeInfo::Unknown);
                        Ok(())
                    },
                },
            };
            if let Err(e) = step_result {
                proof {
                    lemma_bindings_err_prefix(old(self)@, bindings@, i + 1);
                }
                return Err(e);
            }
            i = i + 1;
        }
        proof {
            assert(bindings@.take(n as int) =~= bindings@);
        }
        Ok(())
    }

    /// Collects an interface's property signatures in declaration order,
    /// records the resolved `Interface` at the identifier node and registers
    /// it in the global symbol table, so later same-file or other-file
    /// references resolve eagerly (declare-before-use).
    fn visit_interface_declaration(
        &mut self,
        node: NodeId,
        name: &String,
        members: &Vec<InterfaceMember>,
    ) -> (r: Result<(), AnalyzeError>)
        ensures
            ({
                match resolve_members_spec(old(self)@.global, members@) {
                    Ok(props) => {
                        let ty = TypeInfoV::Interface { name: name@, properties: props };
                        final(self)@ == old(self)@.cache_insert(node, ty).global_insert(name@, ty)
                            && r == Ok::<(), AnalyzeError>(())
                    },
                    Err(e) => final(self)@ == old(self)@ && r == Err::<(), AnalyzeError>(e),
                }
            }),
    {
        let n = members.len();
        let mut mem: Vec<(String, TypeInfo)> = Vec::new();
        let mut i: usize = 0;
        while i < n
            invariant
                n == members@.len(),
                i <= n,
                *self == *old(self),
                resolve_members_spec(self@.global, members@.take(i as int)) == Ok::<
                    Seq<(Seq<char>, TypeInfoV)>,
                    AnalyzeError,
                >(entries_model(mem@)),
            decreases n - i,
        {
            proof {
                assert(members@.take(i + 1).drop_last() =~= members@.take(i as int));
                assert(members@.take(i + 1).last() == members@[i as int]);
            }
            let ghost old_mem = mem@;
            match &members[i] {
                InterfaceMember::Property { name: prop_name, annotation } => match annotation {
                    Some(t) => match self.analyze_type_annotation(t) {
                        Ok(ty) => {
                            mem.push((prop_name.clone(), ty));
                        },
                        Err(e) => {
                            proof {
                                lemma_members_err_prefix(self@.global, members@, i + 1);
                            }
                            return Err(e);
                        },
                    },
                    None => {
                        mem.push((prop_name.clone(), TypeInfo::Unknown));
                    },
                },
                InterfaceMember::Unsupported => {
                    proof {
                        lemma_members_err_prefix(self@.global, members@, i + 1);
                    }
                    return Err(AnalyzeError::UnsupportedConstruct);
                },
            }
            proof {
                assert(mem@.drop_last() =~= old_mem);
                assert(entries_model(mem@) == entries_model(old_mem).push(
                    (mem@.last().0@, mem@.last().1@),
                ));
                assert(resolve_members_spec(self@.global, members@.take(i + 1))
                    == Ok::<Seq<(Seq<char>, TypeInfoV)>, AnalyzeError>(entries_model(mem@)));
            }
            i = i + 1;
        }
        proof {
            assert(members@.take(n as int) =~= members@);
        }
        let ty = TypeInfo::Interface { name: name.clone(), properties: mem };
        let registered = ty.clone();
        self.insert_cache(node, ty);
        self.insert_global(name.clone(), registered);
        Ok(())
    }

    /// Resolves the aliased type expression, records the `TypeAlias` at the
    /// identifier node and registers it in the global symbol table.
    fn visit_type_alias_declaration(&mut self, node: NodeId, name: &String, ty: &TsTypeExpr) -> (r:
        Result<(), AnalyzeError>)
        ensures
            ({
                match resolve_type_expr_spec(old(self)@.global, *ty) {
                    Ok(a) => {
                        let v = TypeInfoV::TypeAlias { name: name@, aliased_type: Box::new(a) };
                        final(self)@ == old(self)@.cache_insert(node, v).global_insert(name@, v)
                            && r == Ok::<(), AnalyzeError>(())
                    },
                    Err(e) => final(self)@ == old(self)@ && r == Err::<(), AnalyzeError>(e),
                }
            }),
    {
        match self.analyze_type_annotation(ty) {
            Ok(aliased) => {
                let v = TypeInfo::TypeAlias { name: name.clone(), aliased_type: Box::new(aliased) };
                let registered = v.clone();
                self.insert_cache(node, v);
                self.insert_global(name.clone(), registered);
                Ok(())
            },
            Err(e) => Err(e),
        }
    }

    /// Resolves each formal parameter's required annotation, in order; see
    /// [`resolve_params_spec`].
    fn analyze_params(&self, params: &Vec<ParamDecl>) -> (r: Result<
        Vec<(String, TypeInfo)>,
        AnalyzeError,
    >)
        ensures
            match r {
                Ok(ps) => resolve_params_spec(self@.global, params@) == Ok::<
                    Seq<(Seq<char>, TypeInfoV)>,
                    AnalyzeError,
                >(entries_model(ps@)),
                Err(e) => resolve_params_spec(self@.global, params@) == Err::<
                    Seq<(Seq<char>, TypeInfoV)>,
                    AnalyzeError,
                >(e),
            },
    {
        let n = params.len();
        let mut res: Vec<(String, TypeInfo)> = Vec::new();
        let mut i: usize = 0;
        while i < n
            invariant
                n == params@.len(),
                i <= n,
                resolve_params_spec(self@.global, params@.take(i as int)) == Ok::<
                    Seq<(Seq<char>, TypeInfoV)>,
                    AnalyzeError,
                >(entries_model(res@)),
            decreases n - i,
        {
            proof {
                assert(params@.take(i + 1).drop_last() =~= params@.take(i as int));
                assert(params@.take(i + 1).last() == params@[i as int]);
            }
            let ghost old_res = res@;
            match &params[i] {
                ParamDecl::Formal { name, annotation } => match annotation {
                    Some(t) => match self.analyze_type_annotation(t) {
                        Ok(ty) => {
                            res.push((name.clone(), ty));
                        },
                        Err(e) => {
                            proof {
                                lemma_params_err_prefix(self@.global, params@, i + 1);
                            }
                            return Err(e);
                        },
                    },
                    None => {
                        proof {
                            lemma_params_err_prefix(self@.global, params@, i + 1);
                        }
                        return Err(AnalyzeError::UnsupportedConstruct);
                    },
                },
                ParamDecl::Unsupported => {
                    proof {
                        lemma_params_err_prefix(self@.global, params@, i + 1);
                    }
                    return Err(AnalyzeError::UnsupportedConstruct);
                },
            }
            proof {
                assert(res@.drop_last() =~= old_res);
            }
            i = i + 1;
        }
        proof {
            assert(params@.take(n as int) =~= params@);
        }
        Ok(res)
    }

    /// Resolves a function declaration's parameter and return annotations
    /// (both required), records the `Function` at the identifier node and
    /// binds it in the active file's local table.
    fn visit_function_declaration(
        &mut self,
        node: NodeId,
        name: &String,
        params: &Vec<ParamDecl>,
        return_type: &Option<TsTypeExpr>,
    ) -> (r: Result<(), AnalyzeError>)
        ensures
            ({
                let (st, rr) = step_statement(
                    old(self)@,
                    Statement::Function {
                        node,
                        name: *name,
                        params: *params,
                        return_type: *return_type,
                    },
                );
                final(self)@ == st && r == rr
            }),
    {
        let param_types = match self.analyze_params(params) {
            Ok(ps) => ps,
            Err(e) => {
                return Err(e);
            },
        };
        let ret_ty = match return_type {
            Some(rt) => match self.analyze_type_annotation(rt) {
                Ok(t) => t,
                Err(e) => {
                    return Err(e);
                },
            },
            None => {
                return Err(AnalyzeError::UnsupportedConstruct);
            },
        };
        let function_type = TypeInfo::Function {
            params: param_types,
            return_type: Box::new(ret_ty),
        };
        let registered = function_type.clone();
        self.insert_cache(node, function_type);
        self.insert_local(name.clone(), registered);
        Ok(())
    }

    /// Dispatches one top-level statement on its syntax kind; a kind with no
    /// defined rule is a fatal, unsupported-construct condition.
    fn visit_statement(&mut self, statement: &Statement) -> (r: Result<(), AnalyzeError>)
        ensures
            ({
                let (st, rr) = step_statement(old(self)@, *statement);
                final(self)@ == st && r == rr
            }),
    {
        match statement {
            Statement::Variable { bindings } => self.visit_variable_statement(bindings),
            Statement::ExpressionStmt { expr } => self.visit_expression(expr),
            Statement::Interface { node, name, members } => self.visit_interface_declaration(
                *node,
                name,
                members,
            ),
            Statement::TypeAlias { node, name, ty } => self.visit_type_alias_declaration(
                *node,
                name,
                ty,
            ),
            Statement::Function { node, name, params, return_type } => self
                .visit_function_declaration(*node, name, params, return_type),
            Statement::Unsupported => Err(AnalyzeError::UnsupportedConstruct),
        }
    }

    /// Traverses a module's statements in source order, recording types in
    /// the cache and the symbol tables; see [`run_statements`]. A statement
    /// kind with no defined rule aborts the run, keeping what earlier
    /// statements recorded.
    pub fn visit_module(&mut self, module: &Module) -> (r: Result<(), AnalyzeError>)
        ensures
            ({
                let (st, rr) = run_statements(old(self)@, module.statements@);
                final(self)@ == st && r == rr
            }),
    {
        let n = module.statements.len();
        let mut i: usize = 0;
        while i < n
            invariant
                n == module.statements@.len(),
                i <= n,
                run_statements(old(self)@, module.statements@.take(i as int)) == (
                    self@,
                    Ok::<(), AnalyzeError>(()),
                ),
            decreases n - i,
        {
            proof {
                assert(module.statements@.take(i + 1).drop_last() =~= module.statements@.take(
                    i as int,
                ));
                assert(module.statements@.take(i + 1).last() == module.statements@[i as int]);
            }
            if let Err(e) = self.visit_statement(&module.statements[i]) {
                proof {
                    lemma_run_err_prefix(old(self)@, module.statements@, i + 1);
                }
                return Err(e);
            }
            i = i + 1;
        }
        proof {
            assert(module.statements@.take(n as int) =~= module.statements@);
        }
        Ok(())
    }
}

} // verus!
