//! The identifier table and the scoped resolver.
//!
//! The identifier table is an append-only store of descriptors, keyed by
//! consecutive numbered identifiers starting at 1. The scoped resolver
//! maintains a stack of lexical scopes over it, each scope a list of
//! name-to-identifier bindings; name resolution is lexical and shadowing.

use vstd::prelude::*;
use crate::ast::{SpirvWord, StateSpace, Type};
use crate::error::TranslateError;
use crate::util::bytes_eq;

verus! {

/// The largest number of identifiers the table can hold: one less than
/// `u32::MAX`, so that the next fresh identifier always fits in a word.
pub const IDENT_LIMIT: usize = 0xFFFF_FFFE;

/// A descriptor in the identifier table: the source name, if any, and the
/// declared type and state space for variables.
#[derive(Debug)]
pub struct IdentEntry {
    pub name: Option<Vec<u8>>,
    pub type_space: Option<(Type, StateSpace)>,
}

/// The identifier table: an append-only store keyed by consecutive
/// identifiers starting at 1. Entries are never mutated or removed, so
/// identifiers stay valid across all passes.
#[derive(Debug)]
pub struct IdentityTable {
    pub entries: Vec<IdentEntry>,
}

impl IdentityTable {
    /// The identifier the next allocation will receive.
    pub open spec fn fresh_id(&self) -> int {
        self.entries@.len() as int + 1
    }

    /// Whether `id` has been allocated.
    pub open spec fn contains_id(&self, id: SpirvWord) -> bool {
        1 <= id <= self.entries@.len()
    }

    /// The descriptor of an allocated identifier.
    pub open spec fn spec_entry(&self, id: SpirvWord) -> IdentEntry {
        self.entries@[id - 1]
    }

    /// Looks up the source name recorded for `id`, if `id` is allocated and
    /// carries one.
    pub fn ident_name(&self, id: SpirvWord) -> (r: Option<&Vec<u8>>)
        ensures
            match r {
                Some(name) => self.contains_id(id) && self.spec_entry(id).name == Some(*name),
                None => !self.contains_id(id) || self.spec_entry(id).name is None,
            },
    {
        if id == 0 {
            return None;
        }
        let idx = (id - 1) as usize;
        if idx >= self.entries.len() {
            return None;
        }
        match &self.entries[idx].name {
            Some(name) => Some(name),
            None => None,
        }
    }
}

/// One name-to-identifier binding of a scope.
#[derive(Debug)]
pub struct Binding {
    pub name: Vec<u8>,
    pub id: SpirvWord,
}

/// Looks `name` up in a single scope, innermost binding first.
pub open spec fn lookup_in_scope(s: Seq<Binding>, name: Seq<u8>) -> Option<SpirvWord>
    decreases s.len(),
{
    if s.len() == 0 {
        None
    } else if s.last().name@ == name {
        Some(s.last().id)
    } else {
        lookup_in_scope(s.drop_last(), name)
    }
}

/// Looks `name` up through a stack of scopes, innermost scope first.
pub open spec fn scopes_lookup(ss: Seq<Vec<Binding>>, name: Seq<u8>) -> Option<SpirvWord>
    decreases ss.len(),
{
    if ss.len() == 0 {
        None
    } else {
        match lookup_in_scope(ss.last()@, name) {
            Some(id) => Some(id),
            None => scopes_lookup(ss.drop_last(), name),
        }
    }
}

/// No two bindings of the scope share a name.
pub open spec fn scope_names_unique(s: Seq<Binding>) -> bool {
    forall|i: int, j: int| 0 <= i < j < s.len() ==> s[i].name@ != s[j].name@
}

/// A scope's lookup fails exactly when no binding carries the name.
pub proof fn lemma_lookup_absent(s: Seq<Binding>, name: Seq<u8>)
    ensures
        (lookup_in_scope(s, name) == None::<SpirvWord>) <==> (forall|j: int|
            0 <= j < s.len() ==> s[j].name@ != name),
    decreases s.len(),
{
    if s.len() > 0 {
        lemma_lookup_absent(s.drop_last(), name);
        assert(forall|j: int| 0 <= j < s.len() - 1 ==> s[j] == s.drop_last()[j]);
    }
}

/// A successful scope lookup returns the id of a binding that carries the
/// name.
pub proof fn lemma_lookup_present(s: Seq<Binding>, name: Seq<u8>, id: SpirvWord)
    requires
        lookup_in_scope(s, name) == Some(id),
    ensures
        exists|j: int| 0 <= j < s.len() && s[j].name@ == name && #[trigger] s[j].id == id,
    decreases s.len(),
{
    if s.len() > 0 {
        if s.last().name@ == name {
            assert(s[s.len() - 1].name@ == name && s[s.len() - 1].id == id);
        } else {
            lemma_lookup_present(s.drop_last(), name, id);
            let j = choose|j: int|
                0 <= j < s.drop_last().len() && s.drop_last()[j].name@ == name
                    && #[trigger] s.drop_last()[j].id == id;
            assert(s[j].name@ == name && s[j].id == id);
        }
    }
}

/// Label hoisting, resolver half: a binding present in a scope survives any
/// later additions to that scope, because a name can be bound at most once
/// per scope. An instruction that refers to a label before its textual
/// definition therefore resolves to the very id the hoisted label binding
/// carries.
pub proof fn lemma_binding_persists(s1: Seq<Binding>, s2: Seq<Binding>, name: Seq<u8>, id: SpirvWord)
    requires
        s1.is_prefix_of(s2),
        scope_names_unique(s2),
        lookup_in_scope(s1, name) == Some(id),
    ensures
        lookup_in_scope(s2, name) == Some(id),
    decreases s2.len() - s1.len(),
{
    if s1.len() == s2.len() {
        assert(s1 =~= s2);
    } else {
        lemma_lookup_present(s1, name, id);
        let j = choose|j: int|
            0 <= j < s1.len() && s1[j].name@ == name && #[trigger] s1[j].id == id;
        assert(s2[j].name@ == name);
        assert(s2.last().name@ != name);
        assert(s2.drop_last().len() >= s1.len());
        assert(forall|k: int| 0 <= k < s1.len() ==> s1[k] == s2.drop_last()[k]);
        lemma_binding_persists(s1, s2.drop_last(), name, id);
    }
}

/// Label hoisting, stack half: a binding in the innermost scope decides the
/// whole lookup, so `get` and `get_in_current_scope` agree on hoisted
/// labels.
pub proof fn lemma_label_hoisting(ss: Seq<Vec<Binding>>, name: Seq<u8>, id: SpirvWord)
    requires
        ss.len() > 0,
        lookup_in_scope(ss.last()@, name) == Some(id),
    ensures
        scopes_lookup(ss, name) == Some(id),
{
}

/// Scope discipline: a lookup over a stack of scopes succeeds exactly when
/// some scope binds the name, and then returns the innermost such binding.
/// After `end_scope` pops a scope, a name bound only there falls back to
/// the enclosing scopes, or fails when none of them binds it.
pub proof fn lemma_scope_discipline(ss: Seq<Vec<Binding>>, name: Seq<u8>)
    ensures
        (scopes_lookup(ss, name) == None::<SpirvWord>) <==> (forall|i: int|
            0 <= i < ss.len() ==> lookup_in_scope(ss[i]@, name) == None::<SpirvWord>),
        forall|i: int|
            0 <= i < ss.len() && lookup_in_scope(ss[i]@, name) != None::<SpirvWord> && (forall|
                k: int,
            | i < k < ss.len() ==> lookup_in_scope(ss[k]@, name) == None::<SpirvWord>)
                ==> scopes_lookup(ss, name) == lookup_in_scope(ss[i]@, name),
    decreases ss.len(),
{
    if ss.len() > 0 {
        lemma_scope_discipline(ss.drop_last(), name);
        assert(forall|i: int| 0 <= i < ss.len() - 1 ==> ss[i] == ss.drop_last()[i]);
        if lookup_in_scope(ss.last()@, name) == None::<SpirvWord> {
            assert forall|i: int|
                0 <= i < ss.len() && lookup_in_scope(ss[i]@, name) != None::<SpirvWord> && (forall|
                    k: int,
                | i < k < ss.len() ==> lookup_in_scope(ss[k]@, name) == None::<SpirvWord>) implies scopes_lookup(
                ss,
                name,
            ) == lookup_in_scope(ss[i]@, name) by {
                assert(i < ss.len() - 1);
                assert(forall|k: int|
                    i < k < ss.len() - 1 ==> lookup_in_scope(ss.drop_last()[k]@, name)
                        == None::<SpirvWord>);
            }
        }
    }
}

/// The scoped resolver: the identifier table plus a stack of scopes.
#[derive(Debug)]
pub struct ScopedResolver {
    pub table: IdentityTable,
    pub scopes: Vec<Vec<Binding>>,
}

impl ScopedResolver {
    /// Well-formedness: every bound identifier has been allocated in the
    /// table, and no scope binds a name twice.
    pub open spec fn inv(&self) -> bool {
        &&& forall|i: int, j: int|
            0 <= i < self.scopes@.len() && 0 <= j < self.scopes@[i]@.len()
                ==> 1 <= #[trigger] self.scopes@[i]@[j].id <= self.table.entries@.len()
        &&& forall|i: int| 0 <= i < self.scopes@.len() ==> scope_names_unique(#[trigger] self.scopes@[i]@)
    }

    /// Whether at least one scope is open.
    pub open spec fn has_scope(&self) -> bool {
        self.scopes@.len() > 0
    }

    /// The innermost scope.
    pub open spec fn current_scope(&self) -> Seq<Binding> {
        self.scopes@.last()@
    }

    /// The identifier the next allocation will receive.
    pub open spec fn fresh_id(&self) -> int {
        self.table.fresh_id()
    }

    /// What `get` returns.
    pub open spec fn spec_get(&self, name: Seq<u8>) -> Result<SpirvWord, TranslateError> {
        match scopes_lookup(self.scopes@, name) {
            Some(id) => Ok(id),
            None => Err(TranslateError::UnknownSymbol),
        }
    }

    /// What `get_in_current_scope` returns.
    pub open spec fn spec_get_in_current_scope(&self, name: Seq<u8>) -> Result<
        SpirvWord,
        TranslateError,
    > {
        match lookup_in_scope(self.current_scope(), name) {
            Some(id) => Ok(id),
            None => Err(TranslateError::UnknownSymbol),
        }
    }

    /// Creates a resolver with an empty table and no open scope.
    pub fn new() -> (r: Self)
        ensures
            r.inv(),
            r.table.entries@.len() == 0,
            r.scopes@.len() == 0,
    {
        ScopedResolver { table: IdentityTable { entries: Vec::new() }, scopes: Vec::new() }
    }

    /// Opens a fresh innermost scope.
    pub fn start_scope(&mut self)
        ensures
            final(self).table == old(self).table,
            final(self).scopes@.len() == old(self).scopes@.len() + 1,
            forall|i: int|
                0 <= i < old(self).scopes@.len() ==> final(self).scopes@[i] == old(self).scopes@[i],
            final(self).current_scope() == Seq::<Binding>::empty(),
            old(self).inv() ==> final(self).inv(),
    {
        self.scopes.push(Vec::new());
        proof {
            assert(final(self).current_scope() =~= Seq::<Binding>::empty());
        }
    }

    /// Closes the innermost scope, discarding only its bindings; the table
    /// entries allocated while it was open persist.
    pub fn end_scope(&mut self)
        requires
            old(self).has_scope(),
        ensures
            final(self).table == old(self).table,
            final(self).scopes@ == old(self).scopes@.drop_last(),
            old(self).inv() ==> final(self).inv(),
    {
        let _ = self.scopes.pop();
    }

    /// Resolves `name` through the scope stack, innermost scope first.
    pub fn get(&self, name: &Vec<u8>) -> (r: Result<SpirvWord, TranslateError>)
        ensures
            r == self.spec_get(name@),
    {
        let n = self.scopes.len();
        proof {
            assert(self.scopes@.take(n as int) =~= self.scopes@);
        }
        self.get_prefix(n, name)
    }

    /// Resolves `name` through the outermost `n` scopes.
    fn get_prefix(&self, n: usize, name: &Vec<u8>) -> (r: Result<SpirvWord, TranslateError>)
        requires
            n <= self.scopes@.len(),
        ensures
            r == match scopes_lookup(self.scopes@.take(n as int), name@) {
                Some(id) => Ok::<SpirvWord, TranslateError>(id),
                None => Err::<SpirvWord, TranslateError>(TranslateError::UnknownSymbol),
            },
        decreases n,
    {
        if n == 0 {
            Err(TranslateError::UnknownSymbol)
        } else {
            let scope = &self.scopes[n - 1];
            let found = find_in_scope(scope, scope.len(), name);
            proof {
                assert(scope@.take(scope@.len() as int) =~= scope@);
                assert(self.scopes@.take(n as int).last() == self.scopes@[n - 1]);
                assert(self.scopes@.take(n as int).drop_last() =~= self.scopes@.take(n - 1 as int));
            }
            match found {
                Some(id) => Ok(id),
                None => self.get_prefix(n - 1, name),
            }
        }
    }

    /// Resolves `name` in the innermost scope only.
    pub fn get_in_current_scope(&self, name: &Vec<u8>) -> (r: Result<SpirvWord, TranslateError>)
        requires
            self.has_scope(),
        ensures
            r == self.spec_get_in_current_scope(name@),
    {
        let scope = &self.scopes[self.scopes.len() - 1];
        let found = find_in_scope(scope, scope.len(), name);
        proof {
            assert(scope@.take(scope@.len() as int) =~= scope@);
        }
        match found {
            Some(id) => Ok(id),
            None => Err(TranslateError::UnknownSymbol),
        }
    }

    /// Introduces `name` in the innermost scope: allocates a fresh
    /// identifier, records the descriptor in the table, and binds the name.
    /// Fails when the innermost scope already binds the name.
    ///
    /// Identifier freshness: the returned id is `fresh_id`, one past the
    /// table length, while every id bound in any scope is at most the table
    /// length — so the result collides with no id any earlier call, in this
    /// or any other scope, has produced.
    pub fn add(&mut self, name: Vec<u8>, type_space: Option<(Type, StateSpace)>) -> (r: Result<
        SpirvWord,
        TranslateError,
    >)
        requires
            old(self).inv(),
            old(self).has_scope(),
        ensures
            final(self).inv(),
            final(self).scopes@.len() == old(self).scopes@.len(),
            match r {
                Ok(id) => {
                    &&& lookup_in_scope(old(self).current_scope(), name@) == None::<SpirvWord>
                    &&& id == old(self).fresh_id()
                    &&& forall|i: int, j: int|
                        0 <= i < old(self).scopes@.len() && 0 <= j < old(self).scopes@[i]@.len()
                            ==> #[trigger] old(self).scopes@[i]@[j].id < id
                    &&& final(self).table.entries@.len() == old(self).table.entries@.len() + 1
                    &&& old(self).table.entries@.is_prefix_of(final(self).table.entries@)
                    &&& final(self).table.entries@.last().name matches Some(n) && n@ == name@
                    &&& final(self).table.entries@.last().type_space == type_space
                    &&& forall|i: int|
                        0 <= i < old(self).scopes@.len() - 1
                            ==> final(self).scopes@[i] == old(self).scopes@[i]
                    &&& final(self).current_scope().len() == old(self).current_scope().len() + 1
                    &&& old(self).current_scope().is_prefix_of(final(self).current_scope())
                    &&& final(self).current_scope().last().name@ == name@
                    &&& final(self).current_scope().last().id == id
                },
                Err(e) => {
                    &&& *final(self) == *old(self)
                    &&& (e == TranslateError::SymbolRedefinition) <==> lookup_in_scope(
                        old(self).current_scope(),
                        name@,
                    ) != None::<SpirvWord>
                    &&& (e == TranslateError::Unreachable) ==> old(self).table.entries@.len()
                        > IDENT_LIMIT
                    &&& (e == TranslateError::SymbolRedefinition || e
                        == TranslateError::Unreachable)
                },
            },
    {
        let top_index = self.scopes.len() - 1;
        let already = {
            let scope = &self.scopes[top_index];
            let found = find_in_scope(scope, scope.len(), &name);
            proof {
                assert(scope@.take(scope@.len() as int) =~= scope@);
            }
            match found {
                Some(_) => true,
                None => false,
            }
        };
        if already {
            return Err(TranslateError::SymbolRedefinition);
        }
        if self.table.entries.len() > IDENT_LIMIT {
            return Err(TranslateError::Unreachable);
        }
        let id: SpirvWord = (self.table.entries.len() + 1) as u32;
        let binding_name = crate::util::bytes_clone(&name);
        self.table.entries.push(IdentEntry { name: Some(name), type_space });
        let mut top = match self.scopes.pop() {
            Some(t) => t,
            None => {
                return Err(TranslateError::Unreachable);
            },
        };
        top.push(Binding { name: binding_name, id });
        self.scopes.push(top);
        proof {
            let oldtop = old(self).current_scope();
            let newtop = self.current_scope();
            assert(newtop.drop_last() =~= oldtop);
            assert(oldtop.is_prefix_of(newtop));
            lemma_lookup_absent(oldtop, name@);
            assert forall|i: int, j: int|
                0 <= i < self.scopes@.len() && 0 <= j < self.scopes@[i]@.len() implies 1
                <= #[trigger] self.scopes@[i]@[j].id <= self.table.entries@.len() by {
                if i < top_index as int || j < oldtop.len() {
                    assert(self.scopes@[i]@[j] == old(self).scopes@[i]@[j]);
                    assert(old(self).scopes@[i]@[j].id >= 1);
                }
            }
            assert forall|i: int| 0 <= i < self.scopes@.len() implies scope_names_unique(
                #[trigger] self.scopes@[i]@,
            ) by {
                if i == top_index as int {
                    assert forall|a: int, b: int| 0 <= a < b < newtop.len() implies newtop[a].name@
                        != newtop[b].name@ by {
                        if b < newtop.len() - 1 {
                            assert(newtop[a] == oldtop[a] && newtop[b] == oldtop[b]);
                            assert(scope_names_unique(oldtop));
                        } else {
                            assert(newtop[a] == oldtop[a]);
                        }
                    }
                } else {
                    assert(self.scopes@[i]@ == old(self).scopes@[i]@);
                }
            }
        }
        Ok(id)
    }

    /// Introduces `name` in the innermost scope like `add`, but returns the
    /// existing binding when the scope already holds one. Used for device
    /// function declarations that a later definition re-opens.
    pub fn add_or_get_in_current_scope_untyped(&mut self, name: Vec<u8>) -> (r: Result<
        SpirvWord,
        TranslateError,
    >)
        requires
            old(self).inv(),
            old(self).has_scope(),
        ensures
            final(self).inv(),
            final(self).scopes@.len() == old(self).scopes@.len(),
            match lookup_in_scope(old(self).current_scope(), name@) {
                Some(id) => r == Ok::<SpirvWord, TranslateError>(id) && *final(self) == *old(self),
                None => match r {
                    Ok(id) => {
                        &&& id == old(self).fresh_id()
                        &&& final(self).table.entries@.len() == old(self).table.entries@.len() + 1
                        &&& old(self).table.entries@.is_prefix_of(final(self).table.entries@)
                        &&& final(self).table.entries@.last().name matches Some(n) && n@ == name@
                        &&& final(self).table.entries@.last().type_space is None
                        &&& forall|i: int|
                            0 <= i < old(self).scopes@.len() - 1
                                ==> final(self).scopes@[i] == old(self).scopes@[i]
                        &&& old(self).current_scope().is_prefix_of(final(self).current_scope())
                        &&& final(self).current_scope().len() == old(self).current_scope().len()
                            + 1
                        &&& final(self).current_scope().last().name@ == name@
                        &&& final(self).current_scope().last().id == id
                    },
                    Err(e) => e == TranslateError::Unreachable && *final(self) == *old(self)
                        && old(self).table.entries@.len() > IDENT_LIMIT,
                },
            },
    {
        let existing = self.get_in_current_scope(&name);
        match existing {
            Ok(id) => Ok(id),
            Err(_) => {
                let r = self.add(name, None);
                match r {
                    Ok(id) => Ok(id),
                    Err(e) => Err(e),
                }
            },
        }
    }
}

/// Searches the first `n` bindings of a scope, newest first.
fn find_in_scope(scope: &Vec<Binding>, n: usize, name: &Vec<u8>) -> (r: Option<SpirvWord>)
    requires
        n <= scope@.len(),
    ensures
        r == lookup_in_scope(scope@.take(n as int), name@),
    decreases n,
{
    if n == 0 {
        None
    } else {
        let b = &scope[n - 1];
        proof {
            assert(scope@.take(n as int).last() == scope@[n - 1]);
            assert(scope@.take(n as int).drop_last() =~= scope@.take(n - 1 as int));
        }
        if bytes_eq(&b.name, name) {
            Some(b.id)
        } else {
            find_in_scope(scope, n - 1, name)
        }
    }
}

/// Any id a lookup returns on a well-formed resolver has been allocated in
/// the table.
pub proof fn lemma_lookup_id_allocated(r: ScopedResolver, name: Seq<u8>, id: SpirvWord)
    requires
        r.inv(),
        scopes_lookup(r.scopes@, name) == Some(id) || (r.has_scope() && lookup_in_scope(
            r.current_scope(),
            name,
        ) == Some(id)),
    ensures
        1 <= id <= r.table.entries@.len(),
{
    if r.has_scope() && lookup_in_scope(r.current_scope(), name) == Some(id) {
        lemma_lookup_present(r.current_scope(), name, id);
    }
    if scopes_lookup(r.scopes@, name) == Some(id) {
        assert(r.scopes@.take(r.scopes@.len() as int) =~= r.scopes@);
        lemma_scopes_lookup_id_allocated(r, r.scopes@.len() as int, name, id);
    }
}

/// Helper for `lemma_lookup_id_allocated`, by induction over the stack.
proof fn lemma_scopes_lookup_id_allocated(r: ScopedResolver, n: int, name: Seq<u8>, id: SpirvWord)
    requires
        r.inv(),
        0 <= n <= r.scopes@.len(),
        scopes_lookup(r.scopes@.take(n), name) == Some(id),
    ensures
        1 <= id <= r.table.entries@.len(),
    decreases n,
{
    if n > 0 {
        let ss = r.scopes@.take(n);
        assert(ss.last() == r.scopes@[n - 1]);
        if lookup_in_scope(ss.last()@, name) == Some(id) {
            lemma_lookup_present(ss.last()@, name, id);
        } else {
            assert(ss.drop_last() =~= r.scopes@.take(n - 1));
            lemma_scopes_lookup_id_allocated(r, n - 1, name, id);
        }
    }
}

/// Identifier freshness: every id bound in any scope of a well-formed
/// resolver lies strictly below `fresh_id`, the id the next `add` returns.
/// Together with the postcondition of `add` — the table only grows, and the
/// returned id is one past its length — ids returned by successive `add`
/// calls are pairwise distinct, across scopes as well as within one.
pub proof fn lemma_identifier_freshness(r: ScopedResolver, i: int, j: int)
    requires
        r.inv(),
        0 <= i < r.scopes@.len(),
        0 <= j < r.scopes@[i]@.len(),
    ensures
        r.scopes@[i]@[j].id < r.fresh_id(),
{
}

} // verus!
