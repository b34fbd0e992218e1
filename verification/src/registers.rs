//! Storage of virtual registers.
use vstd::prelude::*;

verus! {

/// Storage of virtual registers.
#[derive(Debug, Clone)]
pub struct Registers<T> {
    store: Vec<T>,
}

impl<T> View for Registers<T> {
    type V = Seq<T>;

    closed spec fn view(&self) -> Seq<T> {
        self.store@
    }
}

impl<T: Copy + Default> Registers<T> {
    /// Create virtual register storage with the given capacity, every register
    /// holding the default value of `T`.
    /// Any register that exceed this capacity, will be considered spilled.
    pub fn with_capacity(cap: usize) -> (r: Self)
        ensures
            r@.len() == cap,
            forall|i: int| 0 <= i < cap ==> call_ensures(T::default, (), #[trigger] r@[i]),
    {
        let value = T::default();
        let mut store: Vec<T> = Vec::new();
        let mut i: usize = 0;
        while i < cap
            invariant
                i <= cap,
                store@.len() == i,
                call_ensures(T::default, (), value),
                forall|j: int| 0 <= j < i ==> store@[j] == value,
            decreases cap - i,
        {
            store.push(value);
            i = i + 1;
        }
        Registers { store }
    }
}

impl<T: Copy> Registers<T> {
    /// Set register.
    pub fn set(&mut self, register: usize, value: T)
        requires
            register < old(self)@.len(),
        ensures
            final(self)@ == old(self)@.update(register as int, value),
    {
        self.store.set(register, value);
    }

    /// Get register.
    pub fn get(&self, register: usize) -> (r: T)
        requires
            register < self@.len(),
        ensures
            r == self@[register as int],
    {
        self.store[register]
    }
}

impl<T> Registers<T> {
    /// The registers, in order.
    pub fn as_slice(&self) -> (r: &[T])
        ensures
            r@ == self@,
    {
        self.store.as_slice()
    }
}

/// Reading a register gives the value last written to it; writing one
/// register leaves the others as they were.
pub proof fn lemma_get_after_set<T>(regs: Seq<T>, register: int, value: T, other: int)
    requires
        0 <= register < regs.len(),
        0 <= other < regs.len(),
    ensures
        regs.update(register, value)[register] == value,
        other != register ==> regs.update(register, value)[other] == regs[other],
        regs.update(register, value).len() == regs.len(),
{
}

} // verus!
