//! Nested scopes of identifiers.
use crate::lex::raw::bytes_eq;
use vstd::prelude::*;
use vstd::string::StringSliceAdditionalSpecFns;

verus! {

/// Names of a scope's identifiers.
pub open spec fn names(s: Seq<Vec<u8>>) -> Seq<Seq<u8>> {
    s.map_values(|v: Vec<u8>| v@)
}

/// The innermost scope of a stack of scopes.
pub open spec fn innermost(v: Seq<Set<Seq<u8>>>) -> Set<Seq<u8>> {
    v[v.len() - 1]
}

/// Some scope of the stack holds the identifier.
pub open spec fn is_defined(v: Seq<Set<Seq<u8>>>, ident: Seq<u8>) -> bool {
    exists|i: int| 0 <= i < v.len() && #[trigger] v[i].contains(ident)
}

/// The stack after `ident` is inserted into its innermost scope.
pub open spec fn defined(v: Seq<Set<Seq<u8>>>, ident: Seq<u8>) -> Seq<Set<Seq<u8>>> {
    v.update(v.len() - 1, innermost(v).insert(ident))
}

/// The stack after `ident` is removed from its innermost scope.
pub open spec fn undefined(v: Seq<Set<Seq<u8>>>, ident: Seq<u8>) -> Seq<Set<Seq<u8>>> {
    v.update(v.len() - 1, innermost(v).remove(ident))
}

/// A stack of scopes, the outermost (the root) first. Each scope holds a set
/// of identifiers.
pub struct Context {
    scopes: Vec<Vec<Vec<u8>>>,
}

impl View for Context {
    type V = Seq<Set<Seq<u8>>>;

    closed spec fn view(&self) -> Seq<Set<Seq<u8>>> {
        Seq::new(self.scopes@.len(), |i: int| names(self.scopes@[i]@).to_set())
    }
}

impl Context {
    /// There is a root scope, and no scope holds an identifier twice.
    pub closed spec fn wf(&self) -> bool {
        &&& self.scopes@.len() >= 1
        &&& forall|i: int| 0 <= i < self.scopes@.len() ==> #[trigger] names(self.scopes@[i]@).no_duplicates()
    }

    /// A context with an empty root scope.
    pub fn new() -> (r: Self)
        ensures
            r.wf(),
            r@ == seq![Set::<Seq<u8>>::empty()],
    {
        let mut scopes: Vec<Vec<Vec<u8>>> = Vec::new();
        scopes.push(Vec::new());
        let r = Context { scopes };
        assert(names(r.scopes@[0]@) =~= Seq::<Seq<u8>>::empty());
        assert(r@ =~= seq![Set::<Seq<u8>>::empty()]) by {
            assert(names(r.scopes@[0]@).to_set() =~= Set::<Seq<u8>>::empty());
        }
        r
    }

    /// Nested level: zero at the root scope.
    pub fn level(&self) -> (r: usize)
        requires
            self.wf(),
        ensures
            r == self@.len() - 1,
    {
        self.scopes.len() - 1
    }

    /// Inserts identifier to the current scope.
    pub fn define(&mut self, ident: &str)
        requires
            old(self).wf(),
        ensures
            final(self).wf(),
            final(self)@ == defined(old(self)@, ident.spec_bytes()),
    {
        let text = ident.as_bytes();
        let last = self.scopes.len() - 1;
        let mut scope = self.scopes.pop().unwrap();
        let ghost before = names(scope@);
        assert(before == names(old(self).scopes@[last as int]@));
        if let Some(_) = find(&scope, text) {
            self.scopes.push(scope);
            assert(self.scopes@ =~= old(self).scopes@);
            assert(self@ =~= defined(old(self)@, text@)) by {
                assert(before.to_set().insert(text@) =~= before.to_set());
            }
        } else {
            let mut name: Vec<u8> = Vec::new();
            let mut i: usize = 0;
            while i < text.len()
                invariant
                    i <= text@.len(),
                    name@ == text@.subrange(0, i as int),
                decreases text.len() - i,
            {
                name.push(text[i]);
                i = i + 1;
                assert(name@ =~= text@.subrange(0, i as int));
            }
            assert(text@.subrange(0, i as int) =~= text@);
            scope.push(name);
            let ghost after = names(scope@);
            assert(after =~= before.push(text@));
            proof {
                assert(before.no_duplicates());
                assert forall|a: int, b: int| 0 <= a < after.len() && 0 <= b < after.len() && a != b implies after[a]
                    != after[b] by {
                    if a == before.len() {
                        assert(before[b] != text@);
                    } else if b == before.len() {
                        assert(before[a] != text@);
                    } else {
                        assert(before[a] != before[b]);
                    }
                }
                assert forall|y: Seq<u8>| after.to_set().contains(y) == before.to_set().insert(text@).contains(y) by {
                    if after.contains(y) {
                        let j = choose|j: int| 0 <= j < after.len() && after[j] == y;
                        if j < before.len() {
                            assert(before[j] == y);
                        }
                    }
                    if before.contains(y) {
                        let j = choose|j: int| 0 <= j < before.len() && before[j] == y;
                        assert(after[j] == y);
                    }
                    if y == text@ {
                        assert(after[before.len() as int] == y);
                    }
                }
                assert(after.to_set() =~= before.to_set().insert(text@));
            }
            self.scopes.push(scope);
            assert(self@ =~= defined(old(self)@, text@));
        }
    }

    /// Remove identifier from current scope.
    /// Returns `true` if the item exists in the current scope.
    pub fn undefine(&mut self, ident: &str) -> (r: bool)
        requires
            old(self).wf(),
        ensures
            final(self).wf(),
            r == innermost(old(self)@).contains(ident.spec_bytes()),
            final(self)@ == undefined(old(self)@, ident.spec_bytes()),
    {
        let text = ident.as_bytes();
        let last = self.scopes.len() - 1;
        let mut scope = self.scopes.pop().unwrap();
        let ghost before = names(scope@);
        assert(before == names(old(self).scopes@[last as int]@));
        match find(&scope, text) {
            Some(k) => {
                scope.remove(k);
                let ghost after = names(scope@);
                assert(after =~= before.remove(k as int));
                proof {
                    assert(before.no_duplicates());
                    assert forall|a: int, b: int| 0 <= a < after.len() && 0 <= b < after.len() && a != b implies after[a]
                        != after[b] by {
                        let a1 = if a < k { a } else { a + 1 };
                        let b1 = if b < k { b } else { b + 1 };
                        assert(after[a] == before[a1]);
                        assert(after[b] == before[b1]);
                        assert(before[a1] != before[b1]);
                    }
                    assert forall|y: Seq<u8>| after.to_set().contains(y) == before.to_set().remove(text@).contains(y) by {
                        if after.contains(y) {
                            let j = choose|j: int| 0 <= j < after.len() && after[j] == y;
                            let j1 = if j < k { j } else { j + 1 };
                            assert(before[j1] == y);
                            assert(before[k as int] == text@);
                            assert(j1 != k);
                            assert(before[j1] != before[k as int]);
                        }
                        if before.contains(y) && y != text@ {
                            let j = choose|j: int| 0 <= j < before.len() && before[j] == y;
                            assert(j != k);
                            if j < k {
                                assert(after[j] == y);
                            } else {
                                assert(after[j - 1] == y);
                            }
                        }
                    }
                    assert(after.to_set() =~= before.to_set().remove(text@));
                }
                self.scopes.push(scope);
                assert(self@ =~= undefined(old(self)@, text@));
                assert(before.to_set().contains(text@)) by {
                    assert(before[k as int] == text@);
                }
                true
            },
            None => {
                self.scopes.push(scope);
                assert(self.scopes@ =~= old(self).scopes@);
                assert(self@ =~= undefined(old(self)@, text@)) by {
                    assert(before.to_set().remove(text@) =~= before.to_set());
                }
                false
            },
        }
    }

    /// Check if the current scope, or a scope around it, contains the given
    /// identifier.
    pub fn contains(&self, ident: &str) -> (r: bool)
        requires
            self.wf(),
        ensures
            r == is_defined(self@, ident.spec_bytes()),
    {
        let text = ident.as_bytes();
        let mut i: usize = self.scopes.len();
        while i > 0
            invariant
                i <= self.scopes@.len(),
                text@ == ident.spec_bytes(),
                forall|j: int| i <= j < self.scopes@.len() ==> !(#[trigger] self@[j]).contains(text@),
            decreases i,
        {
            i = i - 1;
            match find(&self.scopes[i], text) {
                Some(k) => {
                    assert(self@[i as int].contains(text@)) by {
                        assert(names(self.scopes@[i as int]@)[k as int] == text@);
                    }
                    return true;
                },
                None => {
                    assert(!self@[i as int].contains(text@));
                },
            }
        }
        false
    }

    /// Create new scope.
    pub fn push(&mut self)
        requires
            old(self).wf(),
        ensures
            final(self).wf(),
            final(self)@ == old(self)@.push(Set::<Seq<u8>>::empty()),
    {
        self.scopes.push(Vec::new());
        let ghost n = self.scopes@.len() - 1;
        assert(names(self.scopes@[n]@) =~= Seq::<Seq<u8>>::empty());
        assert(self@ =~= old(self)@.push(Set::<Seq<u8>>::empty())) by {
            assert(names(self.scopes@[n]@).to_set() =~= Set::<Seq<u8>>::empty());
        }
    }

    /// Pop current scope. The root scope cannot be popped.
    pub fn pop(&mut self)
        requires
            old(self).wf(),
            old(self)@.len() > 1,
        ensures
            final(self).wf(),
            final(self)@ == old(self)@.drop_last(),
    {
        self.scopes.pop();
        assert(self@ =~= old(self)@.drop_last());
    }
}

/// Position of `text` in a scope.
fn find(scope: &Vec<Vec<u8>>, text: &[u8]) -> (r: Option<usize>)
    ensures
        r is Some ==> r->0 < scope@.len() && names(scope@)[r->0 as int] == text@,
        r is None ==> !names(scope@).contains(text@),
{
    let mut i: usize = 0;
    while i < scope.len()
        invariant
            i <= scope@.len(),
            forall|j: int| 0 <= j < i ==> names(scope@)[j] != text@,
        decreases scope.len() - i,
    {
        if bytes_eq(scope[i].as_slice(), text) {
            return Some(i);
        }
        i = i + 1;
    }
    None
}

/// A scope pushed and popped again leaves the context as it was.
pub proof fn lemma_push_pop(v: Seq<Set<Seq<u8>>>)
    ensures
        v.push(Set::<Seq<u8>>::empty()).drop_last() == v,
{
    assert(v.push(Set::<Seq<u8>>::empty()).drop_last() =~= v);
}

/// An identifier defined in the innermost scope is found, and found in no
/// other scope than before after it is undefined there again.
pub proof fn lemma_define_contains(v: Seq<Set<Seq<u8>>>, ident: Seq<u8>, other: Seq<u8>)
    requires
        v.len() >= 1,
    ensures
        is_defined(defined(v, ident), ident),
        other != ident ==> (is_defined(defined(v, ident), other) == is_defined(v, other)),
        !innermost(undefined(defined(v, ident), ident)).contains(ident),
{
    let d = defined(v, ident);
    assert(d[v.len() - 1].contains(ident));
    if other != ident {
        if is_defined(d, other) {
            let i = choose|i: int| 0 <= i < d.len() && #[trigger] d[i].contains(other);
            assert(v[i].contains(other));
        }
        if is_defined(v, other) {
            let i = choose|i: int| 0 <= i < v.len() && #[trigger] v[i].contains(other);
            assert(d[i].contains(other));
        }
    }
}

/// Defining an identifier that the innermost scope does not hold, then
/// undefining it, leaves the context as it was.
pub proof fn lemma_define_undefine(v: Seq<Set<Seq<u8>>>, ident: Seq<u8>)
    requires
        v.len() >= 1,
        !innermost(v).contains(ident),
    ensures
        undefined(defined(v, ident), ident) == v,
{
    assert(innermost(v).insert(ident).remove(ident) =~= innermost(v));
    assert(undefined(defined(v, ident), ident) =~= v);
}

} // verus!
