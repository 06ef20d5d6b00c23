//! Type-expression resolution: the mapping from annotation forms to resolved
//! type values, against a global symbol table.

use vstd::prelude::*;

use crate::ast::TsKeywordForm;
use crate::ast::TsTypeExpr;
use crate::type_info::TsKeywordType;
use crate::type_info::TypeInfoV;

verus! {

/// The ways an analysis run can fail.
///
/// An unresolved named type is *not* an error: it resolves to
/// `TypeInfo::Reference` and the run continues. Only a syntax kind with no
/// defined resolution rule is fatal, and it aborts the whole run.
#[derive(Debug, Clone, Copy, PartialEq, Eq, Structural)]
pub enum AnalyzeError {
    UnsupportedConstruct,
}

/// The keyword-type mapping: each primitive keyword form of the grammar maps
/// to exactly one keyword tag. The mapping is total (this match is
/// exhaustive over the grammar's keyword forms) and injective (see
/// [`lemma_keyword_tag_injective`]).
pub open spec fn keyword_tag(f: TsKeywordForm) -> TsKeywordType {
    match f {
        TsKeywordForm::AnyType => TsKeywordType::TSAnyKeyword,
        TsKeywordForm::NumberType => TsKeywordType::TSNumberKeyword,
        TsKeywordForm::BooleanType => TsKeywordType::TSBooleanKeyword,
        TsKeywordForm::UnknownType => TsKeywordType::TSUnknownKeyword,
        TsKeywordForm::VoidType => TsKeywordType::TSVoidKeyword,
        TsKeywordForm::UndefinedType => TsKeywordType::TSUndefinedKeyword,
        TsKeywordForm::NullLiteralType => TsKeywordType::TSNullKeyword,
        TsKeywordForm::NeverType => TsKeywordType::TSNeverKeyword,
        TsKeywordForm::BigintType => TsKeywordType::TSBigIntKeyword,
        TsKeywordForm::StringType => TsKeywordType::TSStringKeyword,
        TsKeywordForm::SymbolType => TsKeywordType::TSSymbolKeyword,
        TsKeywordForm::NonPrimitiveType => TsKeywordType::TSObjectKeyword,
    }
}

/// Maps a primitive keyword form to its keyword tag.
pub fn resolve_keyword(f: TsKeywordForm) -> (t: TsKeywordType)
    ensures
        t == keyword_tag(f),
{
    match f {
        TsKeywordForm::AnyType => TsKeywordType::TSAnyKeyword,
        TsKeywordForm::NumberType => TsKeywordType::TSNumberKeyword,
        TsKeywordForm::BooleanType => TsKeywordType::TSBooleanKeyword,
        TsKeywordForm::UnknownType => TsKeywordType::TSUnknownKeyword,
        TsKeywordForm::VoidType => TsKeywordType::TSVoidKeyword,
        TsKeywordForm::UndefinedType => TsKeywordType::TSUndefinedKeyword,
        TsKeywordForm::NullLiteralType => TsKeywordType::TSNullKeyword,
        TsKeywordForm::NeverType => TsKeywordType::TSNeverKeyword,
        TsKeywordForm::BigintType => TsKeywordType::TSBigIntKeyword,
        TsKeywordForm::StringType => TsKeywordType::TSStringKeyword,
        TsKeywordForm::SymbolType => TsKeywordType::TSSymbolKeyword,
        TsKeywordForm::NonPrimitiveType => TsKeywordType::TSObjectKeyword,
    }
}

/// No two distinct keyword forms map to the same keyword tag.
pub proof fn lemma_keyword_tag_injective(a: TsKeywordForm, b: TsKeywordForm)
    ensures
        keyword_tag(a) == keyword_tag(b) ==> a == b,
{
}

/// What a type-annotation expression resolves to against a global symbol
/// table:
/// - a keyword form maps one-to-one onto the keyword tags;
/// - a literal type form keeps the literal's exact source text;
/// - a named type found in the table is substituted in place (structural
///   inlining); one not found yields a `Reference` placeholder;
/// - a composite form has no resolution rule and is a fatal condition.
pub open spec fn resolve_type_expr_spec(
    global: Map<Seq<char>, TypeInfoV>,
    t: TsTypeExpr,
) -> Result<TypeInfoV, AnalyzeError> {
    match t {
        TsTypeExpr::Keyword(f) => Ok(TypeInfoV::Keyword(keyword_tag(f))),
        TsTypeExpr::Literal { raw_text } => Ok(TypeInfoV::Literal { value: raw_text@ }),
        TsTypeExpr::Named { name } => Ok(
            if global.contains_key(name@) {
                global[name@]
            } else {
                TypeInfoV::Reference(name@)
            },
        ),
        TsTypeExpr::Unsupported => Err(AnalyzeError::UnsupportedConstruct),
    }
}

/// A literal type resolves to the literal's exact source text, preserved
/// verbatim, whatever the global table holds.
pub proof fn lemma_literal_type_round_trip(global: Map<Seq<char>, TypeInfoV>, raw_text: String)
    ensures
        resolve_type_expr_spec(global, TsTypeExpr::Literal { raw_text }) == Ok::<
            TypeInfoV,
            AnalyzeError,
        >(TypeInfoV::Literal { value: raw_text@ }),
{
}

/// Resolution never reads any part of the global table but the named type's
/// own entry: two tables that agree on a type expression's named type (if
/// any) resolve it alike.
pub proof fn lemma_resolve_depends_only_on_name(
    g1: Map<Seq<char>, TypeInfoV>,
    g2: Map<Seq<char>, TypeInfoV>,
    t: TsTypeExpr,
)
    requires
        t matches TsTypeExpr::Named { name } ==> g1.contains_key(name@) == g2.contains_key(name@)
            && (g1.contains_key(name@) ==> g1[name@] == g2[name@]),
    ensures
        resolve_type_expr_spec(g1, t) == resolve_type_expr_spec(g2, t),
{
}

} // verus!
