//! The symbol table of one generation pass: a flat map from declared
//! variable names to their storage descriptors. Redeclaration
//! overwrites; there is no nested scoping.

use vstd::prelude::*;
use crate::errors::CompileError;
use crate::text::str_eq;

verus! {

/// Where a variable lives: bound to a named register for its whole
/// lifetime, or to a named memory slot.
#[derive(Debug, PartialEq, Eq)]
pub enum Storage {
    /// The register alias the declaration's type tag named, kept
    /// verbatim (sigil included).
    Register(String),
    /// A memory slot addressed by the variable's own name.
    MemorySlot(String),
}

/// The mathematical model of a storage descriptor.
pub enum SpecStorage {
    Register(Seq<char>),
    MemorySlot(Seq<char>),
}

impl View for Storage {
    type V = SpecStorage;

    open spec fn view(&self) -> SpecStorage {
        match self {
            Storage::Register(r) => SpecStorage::Register(r@),
            Storage::MemorySlot(n) => SpecStorage::MemorySlot(n@),
        }
    }
}

/// The map a sequence of declarations denotes: later entries win.
pub open spec fn entries_map(s: Seq<(String, Storage)>) -> Map<Seq<char>, SpecStorage>
    decreases s.len(),
{
    if s.len() == 0 {
        Map::empty()
    } else {
        entries_map(s.drop_last()).insert(s.last().0@, s.last().1@)
    }
}

/// Variable bindings of the current generation pass, modelled as a map
/// from names to storage descriptors.
#[derive(Debug)]
pub struct SymbolTable {
    entries: Vec<(String, Storage)>,
}

impl View for SymbolTable {
    type V = Map<Seq<char>, SpecStorage>;

    closed spec fn view(&self) -> Map<Seq<char>, SpecStorage> {
        entries_map(self.entries@)
    }
}

impl SymbolTable {
    /// An empty table.
    pub fn new() -> (r: SymbolTable)
        ensures
            r@ == Map::<Seq<char>, SpecStorage>::empty(),
    {
        SymbolTable { entries: Vec::new() }
    }

    /// Inserts a binding, overwriting any earlier one of the same name.
    pub fn declare(&mut self, name: String, storage: Storage)
        ensures
            final(self)@ == old(self)@.insert(name@, storage@),
    {
        let ghost before = self.entries@;
        self.entries.push((name, storage));
        proof {
            assert(self.entries@.drop_last() =~= before);
        }
    }

    /// Looks a name up; absent names fail with `UnknownVariable`.
    pub fn resolve(&self, name: &str) -> (r: Result<&Storage, CompileError>)
        ensures
            match r {
                Ok(st) => self@.contains_key(name@) && st@ == self@[name@],
                Err(e) => !self@.contains_key(name@) && e == CompileError::UnknownVariable,
            },
    {
        let mut i: usize = self.entries.len();
        while i > 0
            invariant
                i <= self.entries@.len(),
                forall|j: int| i <= j < self.entries@.len() ==> self.entries@[j].0@ != name@,
            decreases i,
        {
            i = i - 1;
            if str_eq(self.entries[i].0.as_str(), name) {
                proof {
                    lemma_entries_map_match(self.entries@, name@, i as int);
                }
                return Ok(&self.entries[i].1);
            }
        }
        proof {
            lemma_entries_map_no_match(self.entries@, name@);
        }
        Err(CompileError::UnknownVariable)
    }

    /// Drops every binding; used when generation of a function body
    /// completes.
    pub fn clear(&mut self)
        ensures
            final(self)@ == Map::<Seq<char>, SpecStorage>::empty(),
    {
        self.entries = Vec::new();
    }
}

/// A name no entry declares is absent from the denoted map.
proof fn lemma_entries_map_no_match(s: Seq<(String, Storage)>, name: Seq<char>)
    requires
        forall|j: int| 0 <= j < s.len() ==> s[j].0@ != name,
    ensures
        !entries_map(s).contains_key(name),
    decreases s.len(),
{
    if s.len() > 0 {
        lemma_entries_map_no_match(s.drop_last(), name);
    }
}

/// The denoted map sends a name to the storage of its last declaration.
proof fn lemma_entries_map_match(s: Seq<(String, Storage)>, name: Seq<char>, i: int)
    requires
        0 <= i < s.len(),
        s[i].0@ == name,
        forall|j: int| i < j < s.len() ==> s[j].0@ != name,
    ensures
        entries_map(s).contains_key(name),
        entries_map(s)[name] == s[i].1@,
    decreases s.len(),
{
    if i == s.len() - 1 {
    } else {
        lemma_entries_map_match(s.drop_last(), name, i);
    }
}

/// The effect of a sequence of later declarations on a map.
pub open spec fn apply_declares(
    m: Map<Seq<char>, SpecStorage>,
    ds: Seq<(Seq<char>, SpecStorage)>,
) -> Map<Seq<char>, SpecStorage>
    decreases ds.len(),
{
    if ds.len() == 0 {
        m
    } else {
        apply_declares(m.insert(ds[0].0, ds[0].1), ds.drop_first())
    }
}

/// A declared binding persists: after binding a name to a storage
/// descriptor, any sequence of declarations of other names leaves every
/// later lookup of that name resolving to that same descriptor,
/// whatever the declaration order.
pub proof fn lemma_declared_binding_persists(
    m: Map<Seq<char>, SpecStorage>,
    name: Seq<char>,
    d: SpecStorage,
    later: Seq<(Seq<char>, SpecStorage)>,
)
    requires
        forall|k: int| 0 <= k < later.len() ==> later[k].0 != name,
    ensures
        apply_declares(m.insert(name, d), later).contains_key(name),
        apply_declares(m.insert(name, d), later)[name] == d,
    decreases later.len(),
{
    if later.len() > 0 {
        let m2 = m.insert(name, d).insert(later[0].0, later[0].1);
        assert(m2 == m.insert(later[0].0, later[0].1).insert(name, d)) by {
            assert(m2 =~= m.insert(later[0].0, later[0].1).insert(name, d));
        }
        lemma_declared_binding_persists(
            m.insert(later[0].0, later[0].1),
            name,
            d,
            later.drop_first(),
        );
    }
}

} // verus!
