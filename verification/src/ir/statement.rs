//! The statements, or instruction set, of the intermediate representation.
use vstd::prelude::*;

verus! {

/// Virtual memory address type.
pub type Address = u16;

/// Virtual register index.
pub type Register = usize;

/// Virtual memory pointers.
#[derive(Debug, Clone, Copy, PartialEq, Eq, Structural)]
pub enum Pointer {
    /// Absolute pointer.
    Absolute(Address),
    /// Pointer in virtual static memory.
    Static(Address),
    /// Pointer in virtual const (ROM) memory.
    Const(Address),
    /// Pointer in virtual stack memory.
    Stack(Address),
}

/// The address of a pointer.
pub open spec fn pointer_address(p: Pointer) -> Address {
    match p {
        Pointer::Absolute(a) => a,
        Pointer::Static(a) => a,
        Pointer::Const(a) => a,
        Pointer::Stack(a) => a,
    }
}

/// The same memory space as `p`, at address `a`.
pub open spec fn with_address(p: Pointer, a: Address) -> Pointer {
    match p {
        Pointer::Absolute(_) => Pointer::Absolute(a),
        Pointer::Static(_) => Pointer::Static(a),
        Pointer::Const(_) => Pointer::Const(a),
        Pointer::Stack(_) => Pointer::Stack(a),
    }
}

impl Pointer {
    /// The pointer `offset` bytes further, in the same memory space.
    pub fn offset(self, offset: Address) -> (r: Self)
        requires
            pointer_address(self) + offset <= Address::MAX,
        ensures
            r == with_address(self, (pointer_address(self) + offset) as Address),
    {
        match self {
            Pointer::Absolute(a) => Pointer::Absolute(a + offset),
            Pointer::Static(a) => Pointer::Static(a + offset),
            Pointer::Const(a) => Pointer::Const(a + offset),
            Pointer::Stack(a) => Pointer::Stack(a + offset),
        }
    }
}

/// Source from where to pull a value.
#[derive(Debug)]
pub enum Source<T> {
    /// Data at the given address.
    Pointer {
        /// The base pointer itself.
        base: Pointer,
        /// Dynamic offset applied to the address of the pointer.
        offset: Option<Box<Source<Address>>>,
    },
    /// Data at the given register.
    Register(Register),
    /// Literal data.
    Literal(T),
}

impl<T: Copy> Clone for Source<T> {
    fn clone(&self) -> (r: Self)
        ensures
            r == *self,
        decreases self,
    {
        match self {
            Source::Pointer { base, offset } => {
                let offset = match offset {
                    Some(o) => Some(Box::new((**o).clone())),
                    None => None,
                };
                Source::Pointer { base: *base, offset }
            },
            Source::Register(r) => Source::Register(*r),
            Source::Literal(t) => Source::Literal(*t),
        }
    }
}


/// Destination where to store a value.
#[derive(Debug)]
pub enum Destination {
    /// Store at the given address.
    Pointer {
        /// The base pointer itself.
        base: Pointer,
        /// Dynamic offset applied to the address of the pointer.
        offset: Option<Box<Source<Address>>>,
    },
    /// Store at the given register.
    Register(Register),
}

impl Clone for Destination {
    fn clone(&self) -> (r: Self)
        ensures
            r == *self,
    {
        match self {
            Destination::Pointer { base, offset } => {
                let offset = match offset {
                    Some(o) => Some(Box::new((**o).clone())),
                    None => None,
                };
                Destination::Pointer { base: *base, offset }
            },
            Destination::Register(r) => Destination::Register(*r),
        }
    }
}

/// Jump location of `Jmp` and `JmpCmp` statements.
#[derive(Debug, Clone, Copy, PartialEq, Eq, Structural)]
pub enum Location {
    /// Jump relative to the statement after the jump.
    Relative(i8),
}

/// Nop that survives optimization.
pub const NOP_PERSIST: usize = 0;

/// Placeholder of a `break` statement, until the loop is compiled.
pub const NOP_BREAK: usize = 1;

/// Placeholder of a `continue` statement, until the loop is compiled.
pub const NOP_CONTINUE: usize = 2;

/// Statement found to be unreachable, to be deleted.
pub const NOP_UNREACHABLE: usize = 3;

/// The statements, or instruction set of the IR.
#[derive(Debug)]
pub enum Statement {
    /// Placeholder instruction.
    Nop(usize),
    /// Stop execution (end program).
    Stop,
    /// Load a byte.
    Ld {
        source: Source<u8>,
        destination: Destination,
    },
    /// Increment a byte.
    Inc {
        source: Source<u8>,
        destination: Destination,
    },
    /// Decrement a byte.
    Dec {
        source: Source<u8>,
        destination: Destination,
    },
    /// Load a word.
    LdW {
        source: Source<u16>,
        destination: Destination,
    },
    /// Increment a word.
    IncW {
        source: Source<u16>,
        destination: Destination,
    },
    /// Decrement a word.
    DecW {
        source: Source<u16>,
        destination: Destination,
    },
    /// Load a memory address.
    LdAddr {
        source: Source<Address>,
        destination: Destination,
    },
    /// Binary `Add`.
    Add {
        left: Source<u8>,
        right: Source<u8>,
        destination: Destination,
    },
    /// Binary `Sub`.
    Sub {
        left: Source<u8>,
        right: Source<u8>,
        destination: Destination,
    },
    /// Binary `And`.
    And {
        left: Source<u8>,
        right: Source<u8>,
        destination: Destination,
    },
    /// Binary `Xor`.
    Xor {
        left: Source<u8>,
        right: Source<u8>,
        destination: Destination,
    },
    /// Binary `Or`.
    Or {
        left: Source<u8>,
        right: Source<u8>,
        destination: Destination,
    },
    /// Binary `LeftShift`.
    LeftShift {
        left: Source<u8>,
        right: Source<u8>,
        destination: Destination,
    },
    /// Binary `RightShift`.
    RightShift {
        left: Source<u8>,
        right: Source<u8>,
        destination: Destination,
    },
    /// Multiply bytes.
    Mul {
        left: Source<u8>,
        right: Source<u8>,
        destination: Destination,
    },
    /// Divide bytes.
    Div {
        left: Source<u8>,
        right: Source<u8>,
        destination: Destination,
    },
    /// Remainder of bytes.
    Rem {
        left: Source<u8>,
        right: Source<u8>,
        destination: Destination,
    },
    /// Binary `Eq`.
    Eq {
        left: Source<u8>,
        right: Source<u8>,
        destination: Destination,
    },
    /// Binary `NotEq`.
    NotEq {
        left: Source<u8>,
        right: Source<u8>,
        destination: Destination,
    },
    /// Binary `Greater`.
    Greater {
        left: Source<u8>,
        right: Source<u8>,
        destination: Destination,
    },
    /// Binary `GreaterEq`.
    GreaterEq {
        left: Source<u8>,
        right: Source<u8>,
        destination: Destination,
    },
    /// Binary `Less`.
    Less {
        left: Source<u8>,
        right: Source<u8>,
        destination: Destination,
    },
    /// Binary `LessEq`.
    LessEq {
        left: Source<u8>,
        right: Source<u8>,
        destination: Destination,
    },
    /// Binary `AddW`.
    AddW {
        left: Source<u16>,
        right: Source<u16>,
        destination: Destination,
    },
    /// Binary `SubW`.
    SubW {
        left: Source<u16>,
        right: Source<u16>,
        destination: Destination,
    },
    /// Binary `AndW`.
    AndW {
        left: Source<u16>,
        right: Source<u16>,
        destination: Destination,
    },
    /// Binary `XorW`.
    XorW {
        left: Source<u16>,
        right: Source<u16>,
        destination: Destination,
    },
    /// Binary `OrW`.
    OrW {
        left: Source<u16>,
        right: Source<u16>,
        destination: Destination,
    },
    /// Multiply words.
    MulW {
        left: Source<u16>,
        right: Source<u16>,
        destination: Destination,
    },
    /// Divide words.
    DivW {
        left: Source<u16>,
        right: Source<u16>,
        destination: Destination,
    },
    /// Binary `LeftShiftW`.
    LeftShiftW {
        left: Source<u16>,
        right: Source<u8>,
        destination: Destination,
    },
    /// Binary `RightShiftW`.
    RightShiftW {
        left: Source<u16>,
        right: Source<u8>,
        destination: Destination,
    },
    /// Unconditional jump.
    Jmp {
        /// Jump location.
        location: Location,
    },
    /// Jump to the location if `source == 0`.
    JmpCmp {
        /// Jump location.
        location: Location,
        source: Source<u8>,
    },
    /// Jump to the location if `source != 0`.
    JmpCmpNot {
        /// Jump location.
        location: Location,
        source: Source<u8>,
    },
    /// Call a routine.
    Call {
        /// Routine index in `Ir::routines`.
        routine: usize,
        /// Address of the beginning of the function stack frame.
        address: Address,
    },
    /// Return from a routine.
    Ret,
}

impl Clone for Statement {
    fn clone(&self) -> (r: Self)
        ensures
            r == *self,
    {
        match self {
            Statement::Nop(n) => Statement::Nop(*n),
            Statement::Stop => Statement::Stop,
            Statement::Ld { source, destination } => Statement::Ld {
                source: source.clone(),
                destination: destination.clone(),
            },
            Statement::Inc { source, destination } => Statement::Inc {
                source: source.clone(),
                destination: destination.clone(),
            },
            Statement::Dec { source, destination } => Statement::Dec {
                source: source.clone(),
                destination: destination.clone(),
            },
            Statement::LdW { source, destination } => Statement::LdW {
                source: source.clone(),
                destination: destination.clone(),
            },
            Statement::IncW { source, destination } => Statement::IncW {
                source: source.clone(),
                destination: destination.clone(),
            },
            Statement::DecW { source, destination } => Statement::DecW {
                source: source.clone(),
                destination: destination.clone(),
            },
            Statement::LdAddr { source, destination } => Statement::LdAddr {
                source: source.clone(),
                destination: destination.clone(),
            },
            Statement::Add { left, right, destination } => Statement::Add {
                left: left.clone(),
                right: right.clone(),
                destination: destination.clone(),
            },
            Statement::Sub { left, right, destination } => Statement::Sub {
                left: left.clone(),
                right: right.clone(),
                destination: destination.clone(),
            },
            Statement::And { left, right, destination } => Statement::And {
                left: left.clone(),
                right: right.clone(),
                destination: destination.clone(),
            },
            Statement::Xor { left, right, destination } => Statement::Xor {
                left: left.clone(),
                right: right.clone(),
                destination: destination.clone(),
            },
            Statement::Or { left, right, destination } => Statement::Or {
                left: left.clone(),
                right: right.clone(),
                destination: destination.clone(),
            },
            Statement::LeftShift { left, right, destination } => Statement::LeftShift {
                left: left.clone(),
                right: right.clone(),
                destination: destination.clone(),
            },
            Statement::RightShift { left, right, destination } => Statement::RightShift {
                left: left.clone(),
                right: right.clone(),
                destination: destination.clone(),
            },
            Statement::Mul { left, right, destination } => Statement::Mul {
                left: left.clone(),
                right: right.clone(),
                destination: destination.clone(),
            },
            Statement::Div { left, right, destination } => Statement::Div {
                left: left.clone(),
                right: right.clone(),
                destination: destination.clone(),
            },
            Statement::Rem { left, right, destination } => Statement::Rem {
                left: left.clone(),
                right: right.clone(),
                destination: destination.clone(),
            },
            Statement::Eq { left, right, destination } => Statement::Eq {
                left: left.clone(),
                right: right.clone(),
                destination: destination.clone(),
            },
            Statement::NotEq { left, right, destination } => Statement::NotEq {
                left: left.clone(),
                right: right.clone(),
                destination: destination.clone(),
            },
            Statement::Greater { left, right, destination } => Statement::Greater {
                left: left.clone(),
                right: right.clone(),
                destination: destination.clone(),
            },
            Statement::GreaterEq { left, right, destination } => Statement::GreaterEq {
                left: left.clone(),
                right: right.clone(),
                destination: destination.clone(),
            },
            Statement::Less { left, right, destination } => Statement::Less {
                left: left.clone(),
                right: right.clone(),
                destination: destination.clone(),
            },
            Statement::LessEq { left, right, destination } => Statement::LessEq {
                left: left.clone(),
                right: right.clone(),
                destination: destination.clone(),
            },
            Statement::AddW { left, right, destination } => Statement::AddW {
                left: left.clone(),
                right: right.clone(),
                destination: destination.clone(),
            },
            Statement::SubW { left, right, destination } => Statement::SubW {
                left: left.clone(),
                right: right.clone(),
                destination: destination.clone(),
            },
            Statement::AndW { left, right, destination } => Statement::AndW {
                left: left.clone(),
                right: right.clone(),
                destination: destination.clone(),
            },
            Statement::XorW { left, right, destination } => Statement::XorW {
                left: left.clone(),
                right: right.clone(),
                destination: destination.clone(),
            },
            Statement::OrW { left, right, destination } => Statement::OrW {
                left: left.clone(),
                right: right.clone(),
                destination: destination.clone(),
            },
            Statement::MulW { left, right, destination } => Statement::MulW {
                left: left.clone(),
                right: right.clone(),
                destination: destination.clone(),
            },
            Statement::DivW { left, right, destination } => Statement::DivW {
                left: left.clone(),
                right: right.clone(),
                destination: destination.clone(),
            },
            Statement::LeftShiftW { left, right, destination } => Statement::LeftShiftW {
                left: left.clone(),
                right: right.clone(),
                destination: destination.clone(),
            },
            Statement::RightShiftW { left, right, destination } => Statement::RightShiftW {
                left: left.clone(),
                right: right.clone(),
                destination: destination.clone(),
            },
            Statement::Jmp { location } => Statement::Jmp { location: *location },
            Statement::JmpCmp { location, source } => Statement::JmpCmp {
                location: *location,
                source: source.clone(),
            },
            Statement::JmpCmpNot { location, source } => Statement::JmpCmpNot {
                location: *location,
                source: source.clone(),
            },
            Statement::Call { routine, address } => Statement::Call {
                routine: *routine,
                address: *address,
            },
            Statement::Ret => Statement::Ret,
        }
    }
}

} // verus!
