//! The engine's stores: the symbol table (name to type), the type cache
//! (file path and node to type) and the per-file local tables.
//!
//! Each store is a record of inserts; its model is the mapping the inserts
//! build up, where a later insert of the same key overwrites an earlier one
//! (last-write-wins, no merge). Lookups return the latest entry.

use vstd::prelude::*;

use crate::type_info::TypeInfo;
use crate::type_info::TypeInfoV;
use crate::ast::NodeId;

verus! {

/// The mapping built by a sequence of (name, type) inserts, later wins.
pub open spec fn symbols_model(s: Seq<(String, TypeInfo)>) -> Map<Seq<char>, TypeInfoV>
    decreases s.len(),
{
    if s.len() == 0 {
        Map::empty()
    } else {
        symbols_model(s.drop_last()).insert(s.last().0@, s.last().1@)
    }
}

/// A name-to-type mapping with unconditional-overwrite insert and
/// exact-name lookup; no scoping chain, no shadowing rules.
pub struct SymbolTable {
    entries: Vec<(String, TypeInfo)>,
}

impl View for SymbolTable {
    type V = Map<Seq<char>, TypeInfoV>;

    closed spec fn view(&self) -> Map<Seq<char>, TypeInfoV> {
        symbols_model(self.entries@)
    }
}

impl SymbolTable {
    /// The empty table.
    pub fn new() -> (r: SymbolTable)
        ensures
            r@ == Map::<Seq<char>, TypeInfoV>::empty(),
    {
        SymbolTable { entries: Vec::new() }
    }

    /// Binds `name` to `type_info`, overwriting any earlier binding.
    pub fn insert(&mut self, name: String, type_info: TypeInfo)
        ensures
            final(self)@ == old(self)@.insert(name@, type_info@),
    {
        let ghost old_entries = self.entries@;
        let ghost nv = name@;
        let ghost tv = type_info@;
        self.entries.push((name, type_info));
        proof {
            assert(self.entries@.drop_last() =~= old_entries);
            assert(self.entries@.last().0@ == nv && self.entries@.last().1@ == tv);
        }
    }

    /// Looks `name` up; returns the latest binding, or `None` if the name
    /// was never bound.
    pub fn get(&self, name: &String) -> (r: Option<TypeInfo>)
        ensures
            match r {
                Some(t) => self@.contains_key(name@) && t@ == self@[name@],
                None => !self@.contains_key(name@),
            },
    {
        let mut i: usize = self.entries.len();
        while i > 0
            invariant
                i <= self.entries@.len(),
                forall|j: int| i <= j < self.entries@.len() ==> self.entries@[j].0@ != name@,
            decreases i,
        {
            i = i - 1;
            if self.entries[i].0 == *name {
                proof {
                    lemma_symbols_model_found(self.entries@, name@, i as int);
                }
                return Some(self.entries[i].1.clone());
            }
        }
        proof {
            lemma_symbols_model_absent(self.entries@, name@);
        }
        None
    }
}

/// The latest entry with a given key decides the model's value at that key.
proof fn lemma_symbols_model_found(s: Seq<(String, TypeInfo)>, key: Seq<char>, k: int)
    requires
        0 <= k < s.len(),
        s[k].0@ == key,
        forall|j: int| k < j < s.len() ==> s[j].0@ != key,
    ensures
        symbols_model(s).contains_key(key),
        symbols_model(s)[key] == s[k].1@,
    decreases s.len(),
{
    if k == s.len() - 1 {
    } else {
        lemma_symbols_model_found(s.drop_last(), key, k);
    }
}

/// A key no entry carries is not in the model.
proof fn lemma_symbols_model_absent(s: Seq<(String, TypeInfo)>, key: Seq<char>)
    requires
        forall|j: int| 0 <= j < s.len() ==> s[j].0@ != key,
    ensures
        !symbols_model(s).contains_key(key),
    decreases s.len(),
{
    if s.len() > 0 {
        lemma_symbols_model_absent(s.drop_last(), key);
    }
}

/// The file-level mapping of a nested model at `p`, or empty if the file has
/// no entry yet.
pub open spec fn file_at<K>(m: Map<Seq<char>, Map<K, TypeInfoV>>, p: Seq<char>) -> Map<K, TypeInfoV> {
    if m.contains_key(p) {
        m[p]
    } else {
        Map::empty()
    }
}

/// The nested mapping built by a sequence of (path, node, type) inserts,
/// later wins per (path, node) pair.
pub open spec fn cache_model(s: Seq<(String, NodeId, TypeInfo)>) -> Map<
    Seq<char>,
    Map<NodeId, TypeInfoV>,
>
    decreases s.len(),
{
    if s.len() == 0 {
        Map::empty()
    } else {
        let m = cache_model(s.drop_last());
        let e = s.last();
        m.insert(e.0@, file_at(m, e.0@).insert(e.1, e.2@))
    }
}

/// The type cache: per file path, a mapping from syntax-node identity to
/// resolved type. At most one type per (file, node) pair; a later visit to
/// the same node overwrites the earlier value.
pub struct TypeCache {
    entries: Vec<(String, NodeId, TypeInfo)>,
}

impl View for TypeCache {
    type V = Map<Seq<char>, Map<NodeId, TypeInfoV>>;

    closed spec fn view(&self) -> Map<Seq<char>, Map<NodeId, TypeInfoV>> {
        cache_model(self.entries@)
    }
}

impl TypeCache {
    /// The empty cache.
    pub fn new() -> (r: TypeCache)
        ensures
            r@ == Map::<Seq<char>, Map<NodeId, TypeInfoV>>::empty(),
    {
        TypeCache { entries: Vec::new() }
    }

    /// Records `type_info` for `node` of the file at `path`, overwriting an
    /// earlier entry for the same pair and leaving every other file's
    /// entries untouched.
    pub fn insert(&mut self, path: String, node: NodeId, type_info: TypeInfo)
        ensures
            final(self)@ == old(self)@.insert(
                path@,
                file_at(old(self)@, path@).insert(node, type_info@),
            ),
    {
        let ghost old_entries = self.entries@;
        self.entries.push((path, node, type_info));
        proof {
            assert(self.entries@.drop_last() =~= old_entries);
        }
    }

    /// Returns the type recorded for the exact (path, node) pair, or `None`
    /// if that node was never recorded.
    pub fn get(&self, path: &String, node: NodeId) -> (r: Option<TypeInfo>)
        ensures
            match r {
                Some(t) => self@.contains_key(path@) && self@[path@].contains_key(node)
                    && t@ == self@[path@][node],
                None => !(self@.contains_key(path@) && self@[path@].contains_key(node)),
            },
    {
        let mut i: usize = self.entries.len();
        while i > 0
            invariant
                i <= self.entries@.len(),
                forall|j: int| i <= j < self.entries@.len()
                    ==> !(self.entries@[j].0@ == path@ && self.entries@[j].1 == node),
            decreases i,
        {
            i = i - 1;
            if self.entries[i].0 == *path && self.entries[i].1 == node {
                proof {
                    lemma_cache_model_found(self.entries@, path@, node, i as int);
                }
                return Some(self.entries[i].2.clone());
            }
        }
        proof {
            lemma_cache_model_absent(self.entries@, path@, node);
        }
        None
    }
}

/// The latest entry with a given (path, node) pair decides the model's value
/// at that pair.
proof fn lemma_cache_model_found(s: Seq<(String, NodeId, TypeInfo)>, p: Seq<char>, n: NodeId, k: int)
    requires
        0 <= k < s.len(),
        s[k].0@ == p,
        s[k].1 == n,
        forall|j: int| k < j < s.len() ==> !(s[j].0@ == p && s[j].1 == n),
    ensures
        cache_model(s).contains_key(p),
        cache_model(s)[p].contains_key(n),
        cache_model(s)[p][n] == s[k].2@,
    decreases s.len(),
{
    if k == s.len() - 1 {
    } else {
        lemma_cache_model_found(s.drop_last(), p, n, k);
    }
}

/// A (path, node) pair no entry carries is not in the model.
proof fn lemma_cache_model_absent(s: Seq<(String, NodeId, TypeInfo)>, p: Seq<char>, n: NodeId)
    requires
        forall|j: int| 0 <= j < s.len() ==> !(s[j].0@ == p && s[j].1 == n),
    ensures
        !(cache_model(s).contains_key(p) && cache_model(s)[p].contains_key(n)),
    decreases s.len(),
{
    if s.len() > 0 {
        lemma_cache_model_absent(s.drop_last(), p, n);
    }
}

/// The nested mapping built by a sequence of (path, name, type) inserts,
/// later wins per (path, name) pair.
pub open spec fn locals_model(s: Seq<(String, String, TypeInfo)>) -> Map<
    Seq<char>,
    Map<Seq<char>, TypeInfoV>,
>
    decreases s.len(),
{
    if s.len() == 0 {
        Map::empty()
    } else {
        let m = locals_model(s.drop_last());
        let e = s.last();
        m.insert(e.0@, file_at(m, e.0@).insert(e.1@, e.2@))
    }
}

/// The per-file local symbol tables: function bindings visible within their
/// file, an extension point for future call-site resolution.
pub struct LocalTables {
    entries: Vec<(String, String, TypeInfo)>,
}

impl View for LocalTables {
    type V = Map<Seq<char>, Map<Seq<char>, TypeInfoV>>;

    closed spec fn view(&self) -> Map<Seq<char>, Map<Seq<char>, TypeInfoV>> {
        locals_model(self.entries@)
    }
}

impl LocalTables {
    /// The empty collection of local tables.
    pub fn new() -> (r: LocalTables)
        ensures
            r@ == Map::<Seq<char>, Map<Seq<char>, TypeInfoV>>::empty(),
    {
        LocalTables { entries: Vec::new() }
    }

    /// Binds `name` to `type_info` in the local table of the file at `path`,
    /// overwriting an earlier binding of the same name in that file.
    pub fn insert(&mut self, path: String, name: String, type_info: TypeInfo)
        ensures
            final(self)@ == old(self)@.insert(
                path@,
                file_at(old(self)@, path@).insert(name@, type_info@),
            ),
    {
        let ghost old_entries = self.entries@;
        self.entries.push((path, name, type_info));
        proof {
            assert(self.entries@.drop_last() =~= old_entries);
        }
    }
}

} // verus!
