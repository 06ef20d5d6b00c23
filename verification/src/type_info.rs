//! The type model: canonical representations of resolved types.

use vstd::prelude::*;

verus! {

/// The fixed enumeration of primitive keyword types.
#[derive(Debug, Clone, Copy, PartialEq, Eq, Structural)]
pub enum TsKeywordType {
    TSAnyKeyword,
    TSBigIntKeyword,
    TSBooleanKeyword,
    TSNeverKeyword,
    TSNullKeyword,
    TSNumberKeyword,
    TSObjectKeyword,
    TSStringKeyword,
    TSSymbolKeyword,
    TSUndefinedKeyword,
    TSUnknownKeyword,
    TSVoidKeyword,
}

/// A resolved type value.
///
/// `Literal` stores the raw source text of the literal, preserved verbatim
/// (`0x1A` stays `0x1A`); consumers needing a parsed value must reparse.
/// `Reference` is not an error: it is the expected placeholder for a named
/// type whose definition was not yet resolvable when the annotation was
/// processed.
#[derive(Debug, PartialEq, Eq)]
pub enum TypeInfo {
    Keyword(TsKeywordType),
    Interface { name: String, properties: Vec<(String, TypeInfo)> },
    TypeAlias { name: String, aliased_type: Box<TypeInfo> },
    Literal { value: String },
    Function { params: Vec<(String, TypeInfo)>, return_type: Box<TypeInfo> },
    Reference(String),
    Unknown,
}

/// The mathematical model of a [`TypeInfo`] value: names and literal texts
/// are character sequences, property and parameter lists are sequences in
/// declaration order (order is significant, these are not sets).
pub enum TypeInfoV {
    Keyword(TsKeywordType),
    Interface { name: Seq<char>, properties: Seq<(Seq<char>, TypeInfoV)> },
    TypeAlias { name: Seq<char>, aliased_type: Box<TypeInfoV> },
    Literal { value: Seq<char> },
    Function { params: Seq<(Seq<char>, TypeInfoV)>, return_type: Box<TypeInfoV> },
    Reference(Seq<char>),
    Unknown,
}

/// The model of a [`TypeInfo`] value; [`TypeInfo`]'s `view` is this function.
pub open spec fn type_info_model(t: TypeInfo) -> TypeInfoV
    decreases t, 1nat,
{
    match t {
        TypeInfo::Keyword(k) => TypeInfoV::Keyword(k),
        TypeInfo::Interface { name, properties } => TypeInfoV::Interface {
            name: name@,
            properties: entries_model(properties@),
        },
        TypeInfo::TypeAlias { name, aliased_type } => TypeInfoV::TypeAlias {
            name: name@,
            aliased_type: Box::new(type_info_model(*aliased_type)),
        },
        TypeInfo::Literal { value } => TypeInfoV::Literal { value: value@ },
        TypeInfo::Function { params, return_type } => TypeInfoV::Function {
            params: entries_model(params@),
            return_type: Box::new(type_info_model(*return_type)),
        },
        TypeInfo::Reference(name) => TypeInfoV::Reference(name@),
        TypeInfo::Unknown => TypeInfoV::Unknown,
    }
}

/// The model of a named-entry list (interface properties, function
/// parameters), in declaration order.
pub open spec fn entries_model(entries: Seq<(String, TypeInfo)>) -> Seq<(Seq<char>, TypeInfoV)>
    decreases entries, 0nat,
{
    if entries.len() == 0 {
        Seq::empty()
    } else {
        entries_model(entries.drop_last()).push(
            (entries.last().0@, type_info_model(entries.last().1)),
        )
    }
}

impl View for TypeInfo {
    type V = TypeInfoV;

    open spec fn view(&self) -> TypeInfoV {
        type_info_model(*self)
    }
}

impl Clone for TypeInfo {
    /// A deep copy whose model is exactly the model of the original.
    fn clone(&self) -> (r: TypeInfo)
        ensures
            r@ == self@,
        decreases self,
    {
        match self {
            TypeInfo::Keyword(k) => TypeInfo::Keyword(*k),
            TypeInfo::Interface { name, properties } => {
                let props = clone_entries(properties);
                proof {
                    lemma_entries_model_congruence(props@, properties@);
                }
                TypeInfo::Interface { name: name.clone(), properties: props }
            },
            TypeInfo::TypeAlias { name, aliased_type } => TypeInfo::TypeAlias {
                name: name.clone(),
                aliased_type: Box::new((**aliased_type).clone()),
            },
            TypeInfo::Literal { value } => TypeInfo::Literal { value: value.clone() },
            TypeInfo::Function { params, return_type } => {
                let ps = clone_entries(params);
                proof {
                    lemma_entries_model_congruence(ps@, params@);
                }
                TypeInfo::Function { params: ps, return_type: Box::new((**return_type).clone()) }
            },
            TypeInfo::Reference(name) => TypeInfo::Reference(name.clone()),
            TypeInfo::Unknown => TypeInfo::Unknown,
        }
    }
}

/// Entry lists whose elements have equal models have equal models as lists.
proof fn lemma_entries_model_congruence(a: Seq<(String, TypeInfo)>, b: Seq<(String, TypeInfo)>)
    requires
        a.len() == b.len(),
        forall|i: int| 0 <= i < a.len() ==> a[i].0@ == b[i].0@ && a[i].1@ == b[i].1@,
    ensures
        entries_model(a) == entries_model(b),
    decreases a.len(),
{
    if a.len() > 0 {
        lemma_entries_model_congruence(a.drop_last(), b.drop_last());
        assert(entries_model(a) == entries_model(b));
    } else {
        assert(entries_model(a) == entries_model(b));
    }
}

/// Deep-copies a named-entry list (interface properties, function
/// parameters), preserving names, types and order.
fn clone_entries(entries: &Vec<(String, TypeInfo)>) -> (r: Vec<(String, TypeInfo)>)
    ensures
        r@.len() == entries@.len(),
        forall|i: int|
            0 <= i < entries@.len() ==> r@[i].0@ == entries@[i].0@ && r@[i].1@ == entries@[i].1@,
    decreases entries,
{
    let mut r: Vec<(String, TypeInfo)> = Vec::new();
    let mut i: usize = 0;
    while i < entries.len()
        invariant
            0 <= i <= entries@.len(),
            r@.len() == i,
            forall|j: int|
                0 <= j < i ==> r@[j].0@ == entries@[j].0@ && r@[j].1@ == entries@[j].1@,
        decreases entries@.len() - i,
    {
        proof {
            assert(decreases_to!(entries => entries@[i as int].1));
        }
        let name = entries[i].0.clone();
        let ty = entries[i].1.clone();
        r.push((name, ty));
        i = i + 1;
    }
    r
}

} // verus!
