//! The traversal protocol: how a consumer walks a parsed syntax tree.

use vstd::prelude::*;

use crate::analyzer::Analyzer;
use crate::ast::Module;
use crate::engine::run_statements;
use crate::resolve::AnalyzeError;

verus! {

/// A consumer of parsed syntax trees. The resolution engine implements this
/// protocol; the orchestrator drives it once per file, in caller order.
pub trait AstVisitor {
    fn visit(&mut self, ast: &Module) -> Result<(), AnalyzeError>;
}

impl AstVisitor for Analyzer {
    /// Traverses the module's statements in source order, populating the
    /// type cache and the symbol tables; see [`run_statements`].
    fn visit(&mut self, ast: &Module) -> (r: Result<(), AnalyzeError>)
        ensures
            ({
                let (st, rr) = run_statements(old(self)@, ast.statements@);
                final(self)@ == st && r == rr
            }),
    {
        self.visit_module(ast)
    }
}

} // verus!
