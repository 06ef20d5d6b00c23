//! The resolution engine's semantics: a state machine over the analyzer's
//! state, one transition per top-level statement, applied in source order.
//!
//! These functions are the specification that `Analyzer`'s executable
//! traversal is verified against.

use vstd::prelude::*;

use crate::ast::Expr;
use crate::ast::ExprKind;
use crate::ast::InterfaceMember;
use crate::ast::NodeId;
use crate::ast::ParamDecl;
use crate::ast::Statement;
use crate::ast::VariableBinding;
use crate::ast::TsTypeExpr;
use crate::resolve::AnalyzeError;
use crate::resolve::lemma_resolve_depends_only_on_name;
use crate::resolve::resolve_type_expr_spec;
use crate::tables::file_at;
use crate::type_info::TypeInfoV;

verus! {

/// The model of the analyzer's whole state: the active file path, the type
/// cache, the global symbol table and the per-file local tables.
pub struct StateV {
    pub current_path: Seq<char>,
    pub cache: Map<Seq<char>, Map<NodeId, TypeInfoV>>,
    pub global: Map<Seq<char>, TypeInfoV>,
    pub locals: Map<Seq<char>, Map<Seq<char>, TypeInfoV>>,
}

impl StateV {
    /// The state of a freshly constructed engine: everything empty.
    pub open spec fn empty() -> StateV {
        StateV {
            current_path: Seq::empty(),
            cache: Map::empty(),
            global: Map::empty(),
            locals: Map::empty(),
        }
    }

    /// Records `t` for node `n` of the active file.
    pub open spec fn cache_insert(self, n: NodeId, t: TypeInfoV) -> StateV {
        StateV {
            cache: self.cache.insert(
                self.current_path,
                file_at(self.cache, self.current_path).insert(n, t),
            ),
            ..self
        }
    }

    /// Binds `name` in the global symbol table.
    pub open spec fn global_insert(self, name: Seq<char>, t: TypeInfoV) -> StateV {
        StateV { global: self.global.insert(name, t), ..self }
    }

    /// Binds `name` in the active file's local symbol table.
    pub open spec fn local_insert(self, name: Seq<char>, t: TypeInfoV) -> StateV {
        StateV {
            locals: self.locals.insert(
                self.current_path,
                file_at(self.locals, self.current_path).insert(name, t),
            ),
            ..self
        }
    }
}

/// Resolving an expression records its type at the expression node itself:
/// a literal expression keeps its exact source text; an identifier
/// reference becomes a `Reference` placeholder unconditionally (expression
/// position identifiers are not looked up against the global table); any
/// other expression kind has no rule and is fatal.
pub open spec fn step_expr(st: StateV, e: Expr) -> (StateV, Result<(), AnalyzeError>) {
    match e.kind {
        ExprKind::Literal { raw_text } => (
            st.cache_insert(e.node, TypeInfoV::Literal { value: raw_text@ }),
            Ok(()),
        ),
        ExprKind::Identifier { name } => (
            st.cache_insert(e.node, TypeInfoV::Reference(name@)),
            Ok(()),
        ),
        ExprKind::Unsupported => (st, Err(AnalyzeError::UnsupportedConstruct)),
    }
}

/// One binding of a variable statement: an explicit annotation is resolved
/// and recorded at the binding identifier node; otherwise an initializer is
/// resolved as an expression (recorded at the expression node, not the
/// binding); with neither, `Unknown` is recorded at the binding node.
pub open spec fn step_binding(st: StateV, b: VariableBinding) -> (StateV, Result<
    (),
    AnalyzeError,
>) {
    match b.annotation {
        Some(t) => match resolve_type_expr_spec(st.global, t) {
            Ok(v) => (st.cache_insert(b.node, v), Ok(())),
            Err(e) => (st, Err(e)),
        },
        None => match b.initializer {
            Some(e) => step_expr(st, e),
            None => (st.cache_insert(b.node, TypeInfoV::Unknown), Ok(())),
        },
    }
}

/// The bindings of one variable statement, in source order; a failing
/// binding aborts, keeping the entries recorded before it.
pub open spec fn step_bindings(st: StateV, bs: Seq<VariableBinding>) -> (StateV, Result<
    (),
    AnalyzeError,
>)
    decreases bs.len(),
{
    if bs.len() == 0 {
        (st, Ok(()))
    } else {
        let (st1, r) = step_bindings(st, bs.drop_last());
        if r is Err {
            (st1, r)
        } else {
            step_binding(st1, bs.last())
        }
    }
}

/// The resolved property list of an interface declaration, in declaration
/// order: a property without an annotation resolves to `Unknown`; a member
/// kind with no rule is fatal.
pub open spec fn resolve_members_spec(
    global: Map<Seq<char>, TypeInfoV>,
    members: Seq<InterfaceMember>,
) -> Result<Seq<(Seq<char>, TypeInfoV)>, AnalyzeError>
    decreases members.len(),
{
    if members.len() == 0 {
        Ok(Seq::empty())
    } else {
        match resolve_members_spec(global, members.drop_last()) {
            Ok(props) => match members.last() {
                InterfaceMember::Property { name, annotation } => match annotation {
                    Some(t) => match resolve_type_expr_spec(global, t) {
                        Ok(v) => Ok(props.push((name@, v))),
                        Err(e) => Err(e),
                    },
                    None => Ok(props.push((name@, TypeInfoV::Unknown))),
                },
                InterfaceMember::Unsupported => Err(AnalyzeError::UnsupportedConstruct),
            },
            Err(e) => Err(e),
        }
    }
}

/// The resolved parameter list of a function declaration, in declaration
/// order. Every parameter must be a formal parameter with an explicit
/// annotation: absence is an unsupported condition, not inferred.
pub open spec fn resolve_params_spec(
    global: Map<Seq<char>, TypeInfoV>,
    params: Seq<ParamDecl>,
) -> Result<Seq<(Seq<char>, TypeInfoV)>, AnalyzeError>
    decreases params.len(),
{
    if params.len() == 0 {
        Ok(Seq::empty())
    } else {
        match resolve_params_spec(global, params.drop_last()) {
            Ok(ps) => match params.last() {
                ParamDecl::Formal { name, annotation } => match annotation {
                    Some(t) => match resolve_type_expr_spec(global, t) {
                        Ok(v) => Ok(ps.push((name@, v))),
                        Err(e) => Err(e),
                    },
                    None => Err(AnalyzeError::UnsupportedConstruct),
                },
                ParamDecl::Unsupported => Err(AnalyzeError::UnsupportedConstruct),
            },
            Err(e) => Err(e),
        }
    }
}

/// One top-level statement:
/// - a variable statement handles each binding in order;
/// - an expression statement resolves its expression;
/// - an interface declaration records its resolved `Interface` value at the
///   identifier node and registers it in the global table under its name;
/// - a type alias records its `TypeAlias` value at the identifier node and
///   registers it in the global table;
/// - a function declaration records its `Function` value at the identifier
///   node and binds it in the active file's local table;
/// - a statement kind with no rule is fatal.
pub open spec fn step_statement(st: StateV, s: Statement) -> (StateV, Result<(), AnalyzeError>) {
    match s {
        Statement::Variable { bindings } => step_bindings(st, bindings@),
        Statement::ExpressionStmt { expr } => step_expr(st, expr),
        Statement::Interface { node, name, members } => match resolve_members_spec(
            st.global,
            members@,
        ) {
            Ok(props) => {
                let ty = TypeInfoV::Interface { name: name@, properties: props };
                (st.cache_insert(node, ty).global_insert(name@, ty), Ok(()))
            },
            Err(e) => (st, Err(e)),
        },
        Statement::TypeAlias { node, name, ty } => match resolve_type_expr_spec(st.global, ty) {
            Ok(a) => {
                let v = TypeInfoV::TypeAlias { name: name@, aliased_type: Box::new(a) };
                (st.cache_insert(node, v).global_insert(name@, v), Ok(()))
            },
            Err(e) => (st, Err(e)),
        },
        Statement::Function { node, name, params, return_type } => match resolve_params_spec(
            st.global,
            params@,
        ) {
            Ok(ps) => match return_type {
                Some(rt) => match resolve_type_expr_spec(st.global, rt) {
                    Ok(r) => {
                        let v = TypeInfoV::Function { params: ps, return_type: Box::new(r) };
                        (st.cache_insert(node, v).local_insert(name@, v), Ok(()))
                    },
                    Err(e) => (st, Err(e)),
                },
                None => (st, Err(AnalyzeError::UnsupportedConstruct)),
            },
            Err(e) => (st, Err(e)),
        },
        Statement::Unsupported => (st, Err(AnalyzeError::UnsupportedConstruct)),
    }
}

/// A module's statements in source order. A fatal statement aborts the run:
/// entries recorded by earlier statements keep their values, nothing further
/// is recorded.
pub open spec fn run_statements(st: StateV, stmts: Seq<Statement>) -> (StateV, Result<
    (),
    AnalyzeError,
>)
    decreases stmts.len(),
{
    if stmts.len() == 0 {
        (st, Ok(()))
    } else {
        let (st1, r) = run_statements(st, stmts.drop_last());
        if r is Err {
            (st1, r)
        } else {
            step_statement(st1, stmts.last())
        }
    }
}

/// Two nested tables agree at key `p`: same presence, same value.
pub open spec fn entry_eq<K, V>(m1: Map<K, V>, m2: Map<K, V>, p: K) -> bool {
    m1.contains_key(p) == m2.contains_key(p) && (m1.contains_key(p) ==> m1[p] == m2[p])
}

/// A binding list never changes the active path, the global table, the local
/// tables, or any other file's cache entries.
pub proof fn lemma_bindings_frame(st: StateV, bs: Seq<VariableBinding>, p: Seq<char>)
    requires
        p != st.current_path,
    ensures
        ({
            let (st1, r) = step_bindings(st, bs);
            st1.current_path == st.current_path && st1.global == st.global && st1.locals
                == st.locals && entry_eq(st.cache, st1.cache, p)
        }),
    decreases bs.len(),
{
    if bs.len() > 0 {
        lemma_bindings_frame(st, bs.drop_last(), p);
    }
}

/// One statement never changes the active path, and never changes another
/// file's cache entries or local table.
pub proof fn lemma_step_frame(st: StateV, s: Statement, p: Seq<char>)
    requires
        p != st.current_path,
    ensures
        ({
            let (st1, r) = step_statement(st, s);
            st1.current_path == st.current_path && entry_eq(st.cache, st1.cache, p) && entry_eq(
                st.locals,
                st1.locals,
                p,
            )
        }),
{
    match s {
        Statement::Variable { bindings } => lemma_bindings_frame(st, bindings@, p),
        _ => (),
    }
}

/// Analyzing a file writes only that file's cache entries and local table:
/// every other file's entries are left untouched, whether the run succeeds
/// or aborts. (Re-running after changing one file's content can update only
/// that file's entries.)
pub proof fn lemma_run_frame(st: StateV, stmts: Seq<Statement>, p: Seq<char>)
    requires
        p != st.current_path,
    ensures
        ({
            let (st1, r) = run_statements(st, stmts);
            st1.current_path == st.current_path && entry_eq(st.cache, st1.cache, p) && entry_eq(
                st.locals,
                st1.locals,
                p,
            )
        }),
    decreases stmts.len(),
{
    if stmts.len() > 0 {
        lemma_run_frame(st, stmts.drop_last(), p);
        let (st1, r) = run_statements(st, stmts.drop_last());
        if !(r is Err) {
            lemma_step_frame(st1, stmts.last(), p);
        }
    }
}

/// The name a statement registers in the global symbol table, if any: an
/// interface or type-alias declaration registers its name; nothing else
/// writes the global table.
pub open spec fn declared_global_name(s: Statement) -> Option<Seq<char>> {
    match s {
        Statement::Interface { name, .. } => Some(name@),
        Statement::TypeAlias { name, .. } => Some(name@),
        _ => None,
    }
}

/// Whether some statement of the module registers `n` in the global table.
pub open spec fn declares_global(stmts: Seq<Statement>, n: Seq<char>) -> bool {
    exists|i: int| 0 <= i < stmts.len() && declared_global_name(stmts[i]) == Some(n)
}

/// A run changes the global symbol table only at the names the module's
/// interface and type-alias declarations register: any other name keeps its
/// binding (or stays absent).
pub proof fn lemma_run_global_domain(st: StateV, stmts: Seq<Statement>, n: Seq<char>)
    requires
        !declares_global(stmts, n),
    ensures
        entry_eq(st.global, run_statements(st, stmts).0.global, n),
    decreases stmts.len(),
{
    if stmts.len() > 0 {
        assert(!declares_global(stmts.drop_last(), n)) by {
            assert(forall|i: int|
                0 <= i < stmts.drop_last().len() ==> stmts.drop_last()[i] == stmts[i]);
        }
        lemma_run_global_domain(st, stmts.drop_last(), n);
        let (st1, r) = run_statements(st, stmts.drop_last());
        if !(r is Err) {
            assert(declared_global_name(stmts.last()) != Some(n)) by {
                assert(stmts[stmts.len() - 1] == stmts.last());
            }
            match stmts.last() {
                Statement::Variable { bindings } => lemma_bindings_frame_global(st1, bindings@),
                _ => (),
            }
        }
    }
}

/// Bindings never write the global table, the local tables or the active
/// path.
proof fn lemma_bindings_frame_global(st: StateV, bs: Seq<VariableBinding>)
    ensures
        step_bindings(st, bs).0.global == st.global,
        step_bindings(st, bs).0.locals == st.locals,
        step_bindings(st, bs).0.current_path == st.current_path,
    decreases bs.len(),
{
    if bs.len() > 0 {
        lemma_bindings_frame_global(st, bs.drop_last());
    }
}

/// Re-recording a cache entry with the value it already holds is the
/// identity on the state: the kernel of re-analysis idempotence
/// (last-write-wins, no accumulation).
pub proof fn lemma_cache_insert_absorbed(st: StateV, n: NodeId, t: TypeInfoV)
    requires
        st.cache.contains_key(st.current_path),
        st.cache[st.current_path].contains_key(n),
        st.cache[st.current_path][n] == t,
    ensures
        st.cache_insert(n, t) == st,
{
    assert(file_at(st.cache, st.current_path).insert(n, t) =~= st.cache[st.current_path]);
    assert(st.cache.insert(st.current_path, st.cache[st.current_path]) =~= st.cache);
}

/// Whether a type expression reads the global table at all: only a named
/// type does.
pub open spec fn type_expr_ref_free(t: TsTypeExpr) -> bool {
    !(t matches TsTypeExpr::Named { .. })
}

/// Whether an optional annotation reads the global table.
pub open spec fn opt_ref_free(t: Option<TsTypeExpr>) -> bool {
    match t {
        Some(t) => type_expr_ref_free(t),
        None => true,
    }
}

/// Whether a statement resolves without reading the global table: none of
/// its annotations is a named type.
pub open spec fn stmt_ref_free(s: Statement) -> bool {
    match s {
        Statement::Variable { bindings } => forall|a: int|
            0 <= a < bindings@.len() ==> opt_ref_free(#[trigger] bindings@[a].annotation),
        Statement::ExpressionStmt { .. } => true,
        Statement::Interface { members, .. } => forall|a: int|
            0 <= a < members@.len() ==> match #[trigger] members@[a] {
                InterfaceMember::Property { annotation, .. } => opt_ref_free(annotation),
                InterfaceMember::Unsupported => true,
            },
        Statement::TypeAlias { ty, .. } => type_expr_ref_free(ty),
        Statement::Function { params, return_type, .. } => opt_ref_free(return_type)
            && forall|a: int|
                0 <= a < params@.len() ==> match #[trigger] params@[a] {
                    ParamDecl::Formal { annotation, .. } => opt_ref_free(annotation),
                    ParamDecl::Unsupported => true,
                },
        Statement::Unsupported => true,
    }
}

/// The one cache node a binding writes: the binding identifier node, except
/// that a binding without an annotation but with an initializer writes the
/// initializer expression node.
pub open spec fn binding_write_node(b: VariableBinding) -> NodeId {
    match b.annotation {
        Some(_) => b.node,
        None => match b.initializer {
            Some(e) => e.node,
            None => b.node,
        },
    }
}

/// Whether the bindings of a variable statement write pairwise-distinct
/// cache nodes (true of any real tree, where node identity is positional).
pub open spec fn stmt_write_nodes_distinct(s: Statement) -> bool {
    match s {
        Statement::Variable { bindings } => forall|a: int, b: int|
            0 <= a < b < bindings@.len() ==> binding_write_node(#[trigger] bindings@[a])
                != binding_write_node(#[trigger] bindings@[b]),
        _ => true,
    }
}

/// Re-binding a global name to the value it already has is the identity.
proof fn lemma_global_insert_absorbed(st: StateV, name: Seq<char>, t: TypeInfoV)
    requires
        st.global.contains_key(name),
        st.global[name] == t,
    ensures
        st.global_insert(name, t) == st,
{
    assert(st.global.insert(name, t) =~= st.global);
}

/// Re-binding a local name to the value it already has is the identity.
proof fn lemma_local_insert_absorbed(st: StateV, name: Seq<char>, t: TypeInfoV)
    requires
        st.locals.contains_key(st.current_path),
        st.locals[st.current_path].contains_key(name),
        st.locals[st.current_path][name] == t,
    ensures
        st.local_insert(name, t) == st,
{
    assert(file_at(st.locals, st.current_path).insert(name, t) =~= st.locals[st.current_path]);
    assert(st.locals.insert(st.current_path, st.locals[st.current_path]) =~= st.locals);
}

/// Ref-free member lists resolve alike under any two global tables.
proof fn lemma_members_free(
    g1: Map<Seq<char>, TypeInfoV>,
    g2: Map<Seq<char>, TypeInfoV>,
    members: Seq<InterfaceMember>,
)
    requires
        forall|a: int|
            0 <= a < members.len() ==> match #[trigger] members[a] {
                InterfaceMember::Property { annotation, .. } => opt_ref_free(annotation),
                InterfaceMember::Unsupported => true,
            },
    ensures
        resolve_members_spec(g1, members) == resolve_members_spec(g2, members),
    decreases members.len(),
{
    if members.len() > 0 {
        lemma_members_free(g1, g2, members.drop_last());
        match members.last() {
            InterfaceMember::Property { annotation, .. } => match annotation {
                Some(t) => {
                    assert(members[members.len() - 1] == members.last());
                    lemma_resolve_depends_only_on_name(g1, g2, t);
                },
                None => (),
            },
            InterfaceMember::Unsupported => (),
        }
    }
}

/// Ref-free parameter lists resolve alike under any two global tables.
proof fn lemma_params_free(
    g1: Map<Seq<char>, TypeInfoV>,
    g2: Map<Seq<char>, TypeInfoV>,
    params: Seq<ParamDecl>,
)
    requires
        forall|a: int|
            0 <= a < params.len() ==> match #[trigger] params[a] {
                ParamDecl::Formal { annotation, .. } => opt_ref_free(annotation),
                ParamDecl::Unsupported => true,
            },
    ensures
        resolve_params_spec(g1, params) == resolve_params_spec(g2, params),
    decreases params.len(),
{
    if params.len() > 0 {
        lemma_params_free(g1, g2, params.drop_last());
        match params.last() {
            ParamDecl::Formal { annotation, .. } => match annotation {
                Some(t) => {
                    assert(params[params.len() - 1] == params.last());
                    lemma_resolve_depends_only_on_name(g1, g2, t);
                },
                None => (),
            },
            ParamDecl::Unsupported => (),
        }
    }
}

/// Whether re-running one binding on `st1` is the identity: it succeeds and
/// re-records at its write node the value `st1` already holds there.
pub open spec fn binding_absorbed(st1: StateV, b: VariableBinding) -> bool {
    let (w, r) = step_binding(st1, b);
    r is Ok && file_at(st1.cache, st1.current_path).contains_key(binding_write_node(b)) && w
        == st1.cache_insert(
        binding_write_node(b),
        file_at(st1.cache, st1.current_path)[binding_write_node(b)],
    )
}

/// The entry a ref-free binding writes does not depend on the state: the
/// resolution of a keyword or literal annotation, a literal or identifier
/// initializer, or `Unknown`, always at [`binding_write_node`].
pub open spec fn binding_value(b: VariableBinding) -> Result<TypeInfoV, AnalyzeError> {
    match b.annotation {
        Some(t) => resolve_type_expr_spec(Map::empty(), t),
        None => match b.initializer {
            Some(e) => match e.kind {
                ExprKind::Literal { raw_text } => Ok(TypeInfoV::Literal { value: raw_text@ }),
                ExprKind::Identifier { name } => Ok(TypeInfoV::Reference(name@)),
                ExprKind::Unsupported => Err(AnalyzeError::UnsupportedConstruct),
            },
            None => Ok(TypeInfoV::Unknown),
        },
    }
}

/// A ref-free binding makes exactly one cache insert, of its
/// state-independent value, at its write node.
proof fn lemma_step_binding_free(st: StateV, b: VariableBinding)
    requires
        opt_ref_free(b.annotation),
    ensures
        step_binding(st, b) == (match binding_value(b) {
            Ok(v) => (st.cache_insert(binding_write_node(b), v), Ok::<(), AnalyzeError>(())),
            Err(e) => (st, Err::<(), AnalyzeError>(e)),
        }),
{
    match b.annotation {
        Some(t) => {
            lemma_resolve_depends_only_on_name(st.global, Map::empty(), t);
        },
        None => (),
    }
}

/// After a successful ref-free binding list with distinct write nodes, the
/// reached state holds each binding's entry, and nothing but the active
/// file's cache changed.
proof fn lemma_bindings_writes(st: StateV, bs: Seq<VariableBinding>)
    requires
        step_bindings(st, bs).1 is Ok,
        forall|a: int| 0 <= a < bs.len() ==> opt_ref_free(#[trigger] bs[a].annotation),
        forall|a: int, b: int|
            0 <= a < b < bs.len() ==> binding_write_node(#[trigger] bs[a]) != binding_write_node(
                #[trigger] bs[b],
            ),
    ensures
        ({
            let st1 = step_bindings(st, bs).0;
            st1.current_path == st.current_path && st1.global == st.global && st1.locals
                == st.locals && forall|a: int|
                0 <= a < bs.len() ==> binding_absorbed(st1, #[trigger] bs[a])
        }),
    decreases bs.len(),
{
    if bs.len() > 0 {
        let mid = step_bindings(st, bs.drop_last()).0;
        lemma_bindings_writes(st, bs.drop_last());
        let st1 = step_bindings(st, bs).0;
        let last = bs.last();
        assert(bs[bs.len() - 1] == last);
        // The last binding makes one insert, of a state-independent value,
        // which is what distinguishes st1 from mid.
        lemma_step_binding_free(mid, last);
        let k_last = binding_write_node(last);
        let v_last = binding_value(last)->Ok_0;
        assert(st1 == mid.cache_insert(k_last, v_last));
        // Earlier bindings' entries survive the last insert (distinct write
        // nodes), and their values do not depend on the state.
        assert forall|a: int| 0 <= a < bs.len() implies binding_absorbed(
            st1,
            #[trigger] bs[a],
        ) by {
            let k = binding_write_node(bs[a]);
            lemma_step_binding_free(st1, bs[a]);
            if a < bs.len() - 1 {
                assert(bs.drop_last()[a] == bs[a]);
                lemma_step_binding_free(mid, bs[a]);
                let v = binding_value(bs[a])->Ok_0;
                // binding_absorbed(mid, bs[a]) equates two states reached by
                // inserting at k; their entries at k agree, so the value mid
                // holds at k is exactly v.
                assert(mid.cache_insert(k, v).cache[mid.current_path][k] == v);
                assert(file_at(mid.cache, mid.current_path)[k] == v);
                assert(file_at(st1.cache, st1.current_path)[k] == v);
            } else {
                assert(file_at(st1.cache, st1.current_path)[k] == v_last);
            }
        }
    }
}

/// Re-running a successful ref-free binding list on the state it produced
/// changes nothing: every insert re-records the value already held.
proof fn lemma_bindings_rerun(st1: StateV, bs: Seq<VariableBinding>)
    requires
        forall|a: int| 0 <= a < bs.len() ==> binding_absorbed(st1, #[trigger] bs[a]),
    ensures
        step_bindings(st1, bs) == (st1, Ok::<(), AnalyzeError>(())),
    decreases bs.len(),
{
    if bs.len() > 0 {
        assert(forall|a: int| 0 <= a < bs.drop_last().len() ==> bs.drop_last()[a] == bs[a]);
        lemma_bindings_rerun(st1, bs.drop_last());
        let last = bs.last();
        assert(bs[bs.len() - 1] == last);
        let k = binding_write_node(last);
        lemma_cache_insert_absorbed(st1, k, file_at(st1.cache, st1.current_path)[k]);
    }
}

/// Re-running one successful statement on the state it produced changes
/// nothing, provided the statement's annotations name no global type and its
/// bindings write distinct nodes: every cache, global and local insert
/// re-records the value already held (last-write-wins idempotence, one
/// statement at a time).
pub proof fn lemma_step_rerun(st: StateV, s: Statement)
    requires
        step_statement(st, s).1 is Ok,
        stmt_ref_free(s),
        stmt_write_nodes_distinct(s),
    ensures
        step_statement(step_statement(st, s).0, s) == (
            step_statement(st, s).0,
            Ok::<(), AnalyzeError>(()),
        ),
{
    let st1 = step_statement(st, s).0;
    match s {
        Statement::Variable { bindings } => {
            lemma_bindings_writes(st, bindings@);
            lemma_bindings_rerun(st1, bindings@);
        },
        Statement::ExpressionStmt { expr } => {
            lemma_cache_insert_absorbed(
                st1,
                expr.node,
                file_at(st1.cache, st1.current_path)[expr.node],
            );
        },
        Statement::Interface { node, name, members } => {
            lemma_members_free(st.global, st1.global, members@);
            let props = resolve_members_spec(st.global, members@)->Ok_0;
            let ty = TypeInfoV::Interface { name: name@, properties: props };
            lemma_cache_insert_absorbed(st1, node, ty);
            lemma_global_insert_absorbed(st1, name@, ty);
        },
        Statement::TypeAlias { node, name, ty } => {
            lemma_resolve_depends_only_on_name(st.global, st1.global, ty);
            let a = resolve_type_expr_spec(st.global, ty)->Ok_0;
            let v = TypeInfoV::TypeAlias { name: name@, aliased_type: Box::new(a) };
            lemma_cache_insert_absorbed(st1, node, v);
            lemma_global_insert_absorbed(st1, name@, v);
        },
        Statement::Function { node, name, params, return_type } => {
            lemma_params_free(st.global, st1.global, params@);
            let ps = resolve_params_spec(st.global, params@)->Ok_0;
            let rt = resolve_type_expr_spec(st.global, return_type->0)->Ok_0;
            lemma_resolve_depends_only_on_name(st.global, st1.global, return_type->0);
            let v = TypeInfoV::Function { params: ps, return_type: Box::new(rt) };
            lemma_cache_insert_absorbed(st1, node, v);
            lemma_local_insert_absorbed(st1, name@, v);
        },
        Statement::Unsupported => (),
    }
}

/// Whether a statement may write cache node `k` of the active file.
pub open spec fn stmt_writes_node(s: Statement, k: NodeId) -> bool {
    match s {
        Statement::Variable { bindings } => exists|a: int|
            0 <= a < bindings@.len() && binding_write_node(#[trigger] bindings@[a]) == k,
        Statement::ExpressionStmt { expr } => expr.node == k,
        Statement::Interface { node, .. } => node == k,
        Statement::TypeAlias { node, .. } => node == k,
        Statement::Function { node, .. } => node == k,
        Statement::Unsupported => false,
    }
}

/// The name a statement binds in the active file's local table, if any.
pub open spec fn declared_local_name(s: Statement) -> Option<Seq<char>> {
    match s {
        Statement::Function { name, .. } => Some(name@),
        _ => None,
    }
}

/// Whether re-running a statement on `u` changes nothing and succeeds.
pub open spec fn stmt_absorbed(u: StateV, s: Statement) -> bool {
    step_statement(u, s) == (u, Ok::<(), AnalyzeError>(()))
}

/// A ref-free binding list leaves every cache node it does not write, the
/// global and local tables, and the active path untouched.
proof fn lemma_bindings_preserve(u: StateV, bs: Seq<VariableBinding>, k: NodeId)
    requires
        forall|a: int| 0 <= a < bs.len() ==> opt_ref_free(#[trigger] bs[a].annotation),
        forall|a: int| 0 <= a < bs.len() ==> binding_write_node(#[trigger] bs[a]) != k,
    ensures
        ({
            let u1 = step_bindings(u, bs).0;
            u1.current_path == u.current_path && u1.global == u.global && u1.locals == u.locals
                && entry_eq(
                file_at(u.cache, u.current_path),
                file_at(u1.cache, u1.current_path),
                k,
            )
        }),
    decreases bs.len(),
{
    if bs.len() > 0 {
        assert(forall|a: int| 0 <= a < bs.drop_last().len() ==> bs.drop_last()[a] == bs[a]);
        lemma_bindings_preserve(u, bs.drop_last(), k);
        let mid = step_bindings(u, bs.drop_last()).0;
        if !(step_bindings(u, bs.drop_last()).1 is Err) {
            assert(bs[bs.len() - 1] == bs.last());
            lemma_step_binding_free(mid, bs.last());
        }
    }
}

/// One ref-free statement leaves every cache node it does not write, every
/// global name it does not declare, and every local name it does not bind
/// untouched, and never changes the active path.
proof fn lemma_step_preserves(u: StateV, s: Statement, k: NodeId, ng: Seq<char>, nl: Seq<char>)
    requires
        stmt_ref_free(s),
    ensures
        ({
            let u1 = step_statement(u, s).0;
            u1.current_path == u.current_path && (!stmt_writes_node(s, k) ==> entry_eq(
                file_at(u.cache, u.current_path),
                file_at(u1.cache, u1.current_path),
                k,
            )) && (declared_global_name(s) != Some(ng) ==> entry_eq(u.global, u1.global, ng)) && (
            declared_local_name(s) != Some(nl) ==> entry_eq(
                file_at(u.locals, u.current_path),
                file_at(u1.locals, u1.current_path),
                nl,
            ))
        }),
{
    match s {
        Statement::Variable { bindings } => {
            lemma_bindings_frame_global(u, bindings@);
            if !stmt_writes_node(s, k) {
                assert(forall|a: int|
                    0 <= a < bindings@.len() ==> binding_write_node(#[trigger] bindings@[a]) != k);
                lemma_bindings_preserve(u, bindings@, k);
            }
        },
        _ => (),
    }
}

/// Once a statement is absorbed by a state, it stays absorbed after any
/// further successful ref-free statement that writes none of its cache
/// nodes, redeclares none of its global names and rebinds none of its local
/// names.
proof fn lemma_stmt_absorbed_step(u: StateV, s: Statement, s2: Statement)
    requires
        stmt_absorbed(u, s),
        stmt_ref_free(s),
        stmt_write_nodes_distinct(s),
        stmt_ref_free(s2),
        step_statement(u, s2).1 is Ok,
        forall|k: NodeId| stmt_writes_node(s, k) ==> !stmt_writes_node(s2, k),
        declared_global_name(s) matches Some(n) ==> declared_global_name(s2) != Some(n),
        declared_local_name(s) matches Some(n) ==> declared_local_name(s2) != Some(n),
    ensures
        stmt_absorbed(step_statement(u, s2).0, s),
{
    let u1 = step_statement(u, s2).0;
    match s {
        Statement::Variable { bindings } => {
            lemma_bindings_writes(u, bindings@);
            assert forall|a: int| 0 <= a < bindings@.len() implies binding_absorbed(
                u1,
                #[trigger] bindings@[a],
            ) by {
                let b = bindings@[a];
                let k = binding_write_node(b);
                lemma_step_binding_free(u, b);
                lemma_step_binding_free(u1, b);
                let v = binding_value(b)->Ok_0;
                assert(u.cache_insert(k, v).cache[u.current_path][k] == v);
                assert(file_at(u.cache, u.current_path)[k] == v);
                lemma_step_preserves(u, s2, k, Seq::empty(), Seq::empty());
                assert(file_at(u1.cache, u1.current_path)[k] == v);
            }
            lemma_bindings_rerun(u1, bindings@);
        },
        Statement::ExpressionStmt { expr } => {
            let k = expr.node;
            match expr.kind {
                ExprKind::Literal { raw_text } => {
                    let v = TypeInfoV::Literal { value: raw_text@ };
                    assert(u.cache_insert(k, v).cache[u.current_path][k] == v);
                    lemma_step_preserves(u, s2, k, Seq::empty(), Seq::empty());
                    lemma_cache_insert_absorbed(u1, k, v);
                },
                ExprKind::Identifier { name } => {
                    let v = TypeInfoV::Reference(name@);
                    assert(u.cache_insert(k, v).cache[u.current_path][k] == v);
                    lemma_step_preserves(u, s2, k, Seq::empty(), Seq::empty());
                    lemma_cache_insert_absorbed(u1, k, v);
                },
                ExprKind::Unsupported => (),
            }
        },
        Statement::Interface { node, name, members } => {
            lemma_members_free(u.global, u1.global, members@);
            let props = resolve_members_spec(u.global, members@)->Ok_0;
            let ty = TypeInfoV::Interface { name: name@, properties: props };
            assert(u.cache_insert(node, ty).global_insert(name@, ty).cache[u.current_path][node]
                == ty);
            assert(u.cache_insert(node, ty).global_insert(name@, ty).global[name@] == ty);
            lemma_step_preserves(u, s2, node, name@, Seq::empty());
            lemma_cache_insert_absorbed(u1, node, ty);
            lemma_global_insert_absorbed(u1.cache_insert(node, ty), name@, ty);
        },
        Statement::TypeAlias { node, name, ty } => {
            lemma_resolve_depends_only_on_name(u.global, u1.global, ty);
            let a = resolve_type_expr_spec(u.global, ty)->Ok_0;
            let v = TypeInfoV::TypeAlias { name: name@, aliased_type: Box::new(a) };
            assert(u.cache_insert(node, v).global_insert(name@, v).cache[u.current_path][node]
                == v);
            assert(u.cache_insert(node, v).global_insert(name@, v).global[name@] == v);
            lemma_step_preserves(u, s2, node, name@, Seq::empty());
            lemma_cache_insert_absorbed(u1, node, v);
            lemma_global_insert_absorbed(u1.cache_insert(node, v), name@, v);
        },
        Statement::Function { node, name, params, return_type } => {
            lemma_params_free(u.global, u1.global, params@);
            lemma_resolve_depends_only_on_name(u.global, u1.global, return_type->0);
            let ps = resolve_params_spec(u.global, params@)->Ok_0;
            let rt = resolve_type_expr_spec(u.global, return_type->0)->Ok_0;
            let v = TypeInfoV::Function { params: ps, return_type: Box::new(rt) };
            assert(u.cache_insert(node, v).local_insert(name@, v).cache[u.current_path][node]
                == v);
            assert(u.cache_insert(node, v).local_insert(name@, v).locals[u.current_path][name@]
                == v);
            lemma_step_preserves(u, s2, node, Seq::empty(), name@);
            lemma_cache_insert_absorbed(u1, node, v);
            lemma_local_insert_absorbed(u1.cache_insert(node, v), name@, v);
        },
        Statement::Unsupported => (),
    }
}

/// A module is safe to re-run when its annotations name no global types, its
/// statements write pairwise-distinct cache nodes, and no two statements
/// register the same global name or bind the same local name.
pub open spec fn module_rerun_safe(stmts: Seq<Statement>) -> bool {
    (forall|i: int|
        0 <= i < stmts.len() ==> stmt_ref_free(#[trigger] stmts[i]) && stmt_write_nodes_distinct(
            stmts[i],
        )) && (forall|i: int, j: int, k: NodeId|
        0 <= i < j < stmts.len() ==> !(#[trigger] stmt_writes_node(stmts[i], k)
            && #[trigger] stmt_writes_node(stmts[j], k))) && (forall|i: int, j: int|
        0 <= i < j < stmts.len() && declared_global_name(stmts[i]) is Some
            ==> declared_global_name(#[trigger] stmts[i]) != declared_global_name(
            #[trigger] stmts[j],
        )) && (forall|i: int, j: int|
        0 <= i < j < stmts.len() && declared_local_name(stmts[i]) is Some ==> declared_local_name(
            #[trigger] stmts[i],
        ) != declared_local_name(#[trigger] stmts[j]))
}

/// After a successful run of a re-run-safe module, the reached state absorbs
/// every one of its statements.
proof fn lemma_run_absorbed(st: StateV, stmts: Seq<Statement>)
    requires
        run_statements(st, stmts).1 is Ok,
        module_rerun_safe(stmts),
    ensures
        forall|i: int|
            0 <= i < stmts.len() ==> stmt_absorbed(run_statements(st, stmts).0, #[trigger] stmts[i]),
    decreases stmts.len(),
{
    if stmts.len() > 0 {
        assert(forall|i: int| 0 <= i < stmts.drop_last().len() ==> stmts.drop_last()[i] == stmts[i]);
        lemma_run_absorbed(st, stmts.drop_last());
        let mid = run_statements(st, stmts.drop_last()).0;
        let last = stmts.last();
        assert(stmts[stmts.len() - 1] == last);
        let st1 = run_statements(st, stmts).0;
        lemma_step_rerun(mid, last);
        assert forall|i: int| 0 <= i < stmts.len() implies stmt_absorbed(
            st1,
            #[trigger] stmts[i],
        ) by {
            if i < stmts.len() - 1 {
                lemma_stmt_absorbed_step(mid, stmts[i], last);
            }
        }
    }
}

/// A state that absorbs every statement of a module absorbs the whole run.
proof fn lemma_run_from_absorbed(u: StateV, stmts: Seq<Statement>)
    requires
        forall|i: int| 0 <= i < stmts.len() ==> stmt_absorbed(u, #[trigger] stmts[i]),
    ensures
        run_statements(u, stmts) == (u, Ok::<(), AnalyzeError>(())),
    decreases stmts.len(),
{
    if stmts.len() > 0 {
        assert(forall|i: int| 0 <= i < stmts.drop_last().len() ==> stmts.drop_last()[i] == stmts[i]);
        lemma_run_from_absorbed(u, stmts.drop_last());
        assert(stmts[stmts.len() - 1] == stmts.last());
    }
}

/// Re-running analysis on an unchanged, re-run-safe module yields exactly
/// the state the first run reached: every insert of the second run
/// re-records the value already held (idempotence). Without the
/// [`module_rerun_safe`] bound this fails: a module that references a name
/// it declares only later is re-resolved against the now-filled global
/// table, so the second run records a different value.
pub proof fn lemma_run_rerun(st: StateV, stmts: Seq<Statement>)
    requires
        run_statements(st, stmts).1 is Ok,
        module_rerun_safe(stmts),
    ensures
        run_statements(run_statements(st, stmts).0, stmts) == (
            run_statements(st, stmts).0,
            Ok::<(), AnalyzeError>(()),
        ),
{
    lemma_run_absorbed(st, stmts);
    lemma_run_from_absorbed(run_statements(st, stmts).0, stmts);
}

/// Every (file, node) cache entry, global name and (file, name) local
/// binding of `a` is still present in `b` (its value possibly overwritten,
/// never removed).
pub open spec fn state_grows(a: StateV, b: StateV) -> bool {
    (forall|p: Seq<char>, k: NodeId|
        #[trigger] file_at(a.cache, p).contains_key(k) ==> file_at(b.cache, p).contains_key(k))
        && (forall|n: Seq<char>| #[trigger] a.global.contains_key(n) ==> b.global.contains_key(n))
        && (forall|p: Seq<char>, n: Seq<char>|
        #[trigger] file_at(a.locals, p).contains_key(n) ==> file_at(b.locals, p).contains_key(n))
}

/// An insert never removes a key.
proof fn lemma_inserts_grow(st: StateV, k: NodeId, n: Seq<char>, t: TypeInfoV)
    ensures
        state_grows(st, st.cache_insert(k, t)),
        state_grows(st, st.global_insert(n, t)),
        state_grows(st, st.local_insert(n, t)),
{
    assert forall|p: Seq<char>, k2: NodeId| #[trigger]
        file_at(st.cache, p).contains_key(k2) implies file_at(
        st.cache_insert(k, t).cache,
        p,
    ).contains_key(k2) by {
        if p == st.current_path {
            assert(file_at(st.cache_insert(k, t).cache, p) == file_at(st.cache, p).insert(k, t));
        }
    }
    assert forall|p: Seq<char>, n2: Seq<char>| #[trigger]
        file_at(st.locals, p).contains_key(n2) implies file_at(
        st.local_insert(n, t).locals,
        p,
    ).contains_key(n2) by {
        if p == st.current_path {
            assert(file_at(st.local_insert(n, t).locals, p) == file_at(st.locals, p).insert(n, t));
        }
    }
}

/// A binding list only adds entries.
proof fn lemma_bindings_monotonic(st: StateV, bs: Seq<VariableBinding>)
    ensures
        state_grows(st, step_bindings(st, bs).0),
    decreases bs.len(),
{
    if bs.len() > 0 {
        lemma_bindings_monotonic(st, bs.drop_last());
        let mid = step_bindings(st, bs.drop_last()).0;
        let b = bs.last();
        match b.annotation {
            Some(t) => match resolve_type_expr_spec(mid.global, t) {
                Ok(v) => lemma_inserts_grow(mid, b.node, Seq::empty(), v),
                Err(_) => (),
            },
            None => match b.initializer {
                Some(e) => match e.kind {
                    ExprKind::Literal { raw_text } => lemma_inserts_grow(
                        mid,
                        e.node,
                        Seq::empty(),
                        TypeInfoV::Literal { value: raw_text@ },
                    ),
                    ExprKind::Identifier { name } => lemma_inserts_grow(
                        mid,
                        e.node,
                        Seq::empty(),
                        TypeInfoV::Reference(name@),
                    ),
                    ExprKind::Unsupported => (),
                },
                None => lemma_inserts_grow(mid, b.node, Seq::empty(), TypeInfoV::Unknown),
            },
        }
    }
}

/// One statement only adds entries.
proof fn lemma_step_monotonic(st: StateV, s: Statement)
    ensures
        state_grows(st, step_statement(st, s).0),
{
    match s {
        Statement::Variable { bindings } => lemma_bindings_monotonic(st, bindings@),
        Statement::ExpressionStmt { expr } => match expr.kind {
            ExprKind::Literal { raw_text } => lemma_inserts_grow(
                st,
                expr.node,
                Seq::empty(),
                TypeInfoV::Literal { value: raw_text@ },
            ),
            ExprKind::Identifier { name } => lemma_inserts_grow(
                st,
                expr.node,
                Seq::empty(),
                TypeInfoV::Reference(name@),
            ),
            ExprKind::Unsupported => (),
        },
        Statement::Interface { node, name, members } => match resolve_members_spec(
            st.global,
            members@,
        ) {
            Ok(props) => {
                let ty = TypeInfoV::Interface { name: name@, properties: props };
                lemma_inserts_grow(st, node, name@, ty);
                lemma_inserts_grow(st.cache_insert(node, ty), node, name@, ty);
            },
            Err(_) => (),
        },
        Statement::TypeAlias { node, name, ty } => match resolve_type_expr_spec(st.global, ty) {
            Ok(a) => {
                let v = TypeInfoV::TypeAlias { name: name@, aliased_type: Box::new(a) };
                lemma_inserts_grow(st, node, name@, v);
                lemma_inserts_grow(st.cache_insert(node, v), node, name@, v);
            },
            Err(_) => (),
        },
        Statement::Function { node, name, params, return_type } => match resolve_params_spec(
            st.global,
            params@,
        ) {
            Ok(ps) => match return_type {
                Some(rt) => match resolve_type_expr_spec(st.global, rt) {
                    Ok(r) => {
                        let v = TypeInfoV::Function { params: ps, return_type: Box::new(r) };
                        lemma_inserts_grow(st, node, name@, v);
                        lemma_inserts_grow(st.cache_insert(node, v), node, name@, v);
                    },
                    Err(_) => (),
                },
                None => (),
            },
            Err(_) => (),
        },
        Statement::Unsupported => (),
    }
}

/// The state grows monotonically across a run, whether it succeeds or
/// aborts: every (file, node) cache entry, global name and local binding
/// mapped before is still mapped after — a value may be overwritten on a
/// re-visit, never removed (no eviction, invalidation or removal).
pub proof fn lemma_run_monotonic(st: StateV, stmts: Seq<Statement>)
    ensures
        state_grows(st, run_statements(st, stmts).0),
    decreases stmts.len(),
{
    if stmts.len() > 0 {
        lemma_run_monotonic(st, stmts.drop_last());
        let (mid, r) = run_statements(st, stmts.drop_last());
        if !(r is Err) {
            lemma_step_monotonic(mid, stmts.last());
        }
    }
}

/// A literal expression records its exact source text, preserved verbatim,
/// at the expression node of the active file, and always succeeds.
pub proof fn lemma_literal_expr_round_trip(st: StateV, e: Expr)
    requires
        e.kind matches ExprKind::Literal { .. },
    ensures
        ({
            let (st1, r) = step_expr(st, e);
            r == Ok::<(), AnalyzeError>(()) && file_at(st1.cache, st1.current_path).contains_key(
                e.node,
            ) && file_at(st1.cache, st1.current_path)[e.node] == (TypeInfoV::Literal {
                value: e.kind->Literal_raw_text@,
            })
        }),
{
}

/// Structural inlining: a named-type annotation whose name the global table
/// holds resolves to exactly the table's value, a full copy in place, never
/// a `Reference`.
pub proof fn lemma_reference_inlines_registration(g: Map<Seq<char>, TypeInfoV>, name: String)
    requires
        g.contains_key(name@),
    ensures
        resolve_type_expr_spec(g, TsTypeExpr::Named { name }) == Ok::<TypeInfoV, AnalyzeError>(
            g[name@],
        ),
{
}

/// Last-write-wins across registrations: a successful interface or alias
/// declaration of a ref-free statement rebinds its name in the global table
/// to its own freshly resolved value — whatever an earlier file or statement
/// had registered under that name — and leaves every other name as it was.
/// A reference resolved afterwards therefore inlines the latest
/// registration (see [`lemma_reference_inlines_registration`]).
pub proof fn lemma_second_registration_wins(u: StateV, s: Statement, n: Seq<char>)
    requires
        declared_global_name(s) == Some(n),
        stmt_ref_free(s),
        step_statement(u, s).1 is Ok,
    ensures
        ({
            let b = step_statement(u, s).0;
            b.global.contains_key(n) && b.global == u.global.insert(n, b.global[n])
                // The registered value is the statement's own, not a merge:
                // it is what the statement registers from an empty table.
                && b.global[n] == step_statement(
                StateV { global: Map::empty(), ..u },
                s,
            ).0.global[n]
        }),
{
    match s {
        Statement::Interface { members, .. } => {
            lemma_members_free(u.global, Map::<Seq<char>, TypeInfoV>::empty(), members@);
        },
        Statement::TypeAlias { ty, .. } => {
            lemma_resolve_depends_only_on_name(
                u.global,
                Map::<Seq<char>, TypeInfoV>::empty(),
                ty,
            );
        },
        _ => (),
    }
}

/// A fatal statement decides the whole run: the statements after it change
/// nothing.
pub proof fn lemma_run_err_prefix(st: StateV, stmts: Seq<Statement>, k: int)
    requires
        0 <= k <= stmts.len(),
        run_statements(st, stmts.take(k)).1 is Err,
    ensures
        run_statements(st, stmts) == run_statements(st, stmts.take(k)),
    decreases stmts.len(),
{
    if stmts.len() > k {
        assert(stmts.drop_last().take(k) =~= stmts.take(k));
        lemma_run_err_prefix(st, stmts.drop_last(), k);
        assert(stmts.take(stmts.len() as int) =~= stmts);
    } else {
        assert(stmts.take(k) =~= stmts);
    }
}

/// A fatal binding decides the whole binding list.
pub proof fn lemma_bindings_err_prefix(st: StateV, bs: Seq<VariableBinding>, k: int)
    requires
        0 <= k <= bs.len(),
        step_bindings(st, bs.take(k)).1 is Err,
    ensures
        step_bindings(st, bs) == step_bindings(st, bs.take(k)),
    decreases bs.len(),
{
    if bs.len() > k {
        assert(bs.drop_last().take(k) =~= bs.take(k));
        lemma_bindings_err_prefix(st, bs.drop_last(), k);
    } else {
        assert(bs.take(k) =~= bs);
    }
}

/// A fatal member decides the whole member list.
pub proof fn lemma_members_err_prefix(
    global: Map<Seq<char>, TypeInfoV>,
    members: Seq<InterfaceMember>,
    k: int,
)
    requires
        0 <= k <= members.len(),
        resolve_members_spec(global, members.take(k)) is Err,
    ensures
        resolve_members_spec(global, members) == resolve_members_spec(global, members.take(k)),
    decreases members.len(),
{
    if members.len() > k {
        assert(members.drop_last().take(k) =~= members.take(k));
        lemma_members_err_prefix(global, members.drop_last(), k);
    } else {
        assert(members.take(k) =~= members);
    }
}

/// A fatal parameter decides the whole parameter list.
pub proof fn lemma_params_err_prefix(
    global: Map<Seq<char>, TypeInfoV>,
    params: Seq<ParamDecl>,
    k: int,
)
    requires
        0 <= k <= params.len(),
        resolve_params_spec(global, params.take(k)) is Err,
    ensures
        resolve_params_spec(global, params) == resolve_params_spec(global, params.take(k)),
    decreases params.len(),
{
    if params.len() > k {
        assert(params.drop_last().take(k) =~= params.take(k));
        lemma_params_err_prefix(global, params.drop_last(), k);
    } else {
        assert(params.take(k) =~= params);
    }
}

} // verus!
