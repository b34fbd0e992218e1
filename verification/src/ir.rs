//! Intermediate representation language.
pub mod alloc_register;
pub mod allocation;
pub mod optimize;
pub mod statement;
pub mod statements;
pub mod expression;
pub mod layout;
pub mod members;
pub mod mnemonic;

use crate::ast::Ast;
use crate::ir::alloc_register::RegisterAlloc;
use crate::ir::allocation::{Alloc, AllocView, Endianness, FnAlloc};
use crate::ir::optimize::{
    closed_flow, dead_before, deleted, flows_to, jump_offset, mark_changes, marked, optimize, reachable, thread_from,
    threads_any,
};
use crate::ir::statement::{Statement, NOP_PERSIST};
use crate::ir::statements::{compile_program, gen_block, jumps_within, routine_views, Routine, RoutineView};
use vstd::prelude::*;

verus! {

/// Reasons why the compiler refuses a program.
#[derive(Debug, Clone, Copy, PartialEq, Eq, Structural)]
pub enum CompileError {
    /// A construct that the compiler does not support.
    Unsupported,
    /// An expression that must be constant is not.
    NotConstant,
    /// A name that is not defined.
    Undefined,
    /// A name that is defined twice.
    Redefined,
    /// Layouts or numbers of arguments that do not match.
    Mismatch,
    /// A limit of the machine: memory space, registers or jump distance.
    Limit,
}


/// Handlers for the main routine and interrupt handlers.
#[derive(Debug)]
pub struct Handlers {
    /// Index of the entry point routine.
    pub main: usize,
    /// VBLANK interrupt handler.
    pub vblank: Option<usize>,
    /// LCD-STAT interrupt handler.
    pub lcd_stat: Option<usize>,
    /// TIMER interrupt handler.
    pub timer: Option<usize>,
    /// SERIAL interrupt handler.
    pub serial: Option<usize>,
    /// JOYPAD interrupt handler.
    pub joypad: Option<usize>,
}

/// Intermediate representation of a program.
#[derive(Debug)]
pub struct Ir {
    /// ROM memory, compiled from `const` statements.
    pub const_: Vec<u8>,
    /// Compiled routines.
    pub routines: Vec<Routine>,
    /// Handlers for entry point and interrupts.
    pub handlers: Handlers,
}

/// What the optimization pass makes of `p` (see [`optimize`]).
pub open spec fn optimized(p: Seq<Statement>) -> Seq<Statement> {
    if mark_changes(p) {
        marked(p)
    } else if threads_any(p, 0) {
        thread_from(p, 0)
    } else if dead_before(p, p.len() as int) > 0 {
        deleted(p)
    } else {
        p
    }
}

/// The main routine of a program whose statements compiled to `code`: a
/// persistent `NOP`, the code, and `STOP`.
pub open spec fn main_routine(code: Seq<Statement>) -> Seq<Statement> {
    seq![Statement::Nop(NOP_PERSIST)] + code + seq![Statement::Stop]
}

/// What a compiled program is made of: every routine but the main one keeps
/// its jumps inside itself, and the main routine is the optimized form of
/// [`main_routine`] of code whose jumps stay inside it.
pub open spec fn compiled(ir: Ir) -> bool {
    &&& ir.handlers.main + 1 == ir.routines@.len()
    &&& forall|i: int| 0 <= i < ir.handlers.main ==> jumps_within(#[trigger] ir.routines@[i].statements@, 0)
    &&& exists|code: Seq<Statement>|
        #[trigger] jumps_within(code, 0) && ir.routines@[ir.handlers.main as int].statements@ == optimized(
            main_routine(code),
        )
    &&& ir.handlers.vblank is None && ir.handlers.lcd_stat is None && ir.handlers.timer is None
    &&& ir.handlers.serial is None && ir.handlers.joypad is None
}

/// Control never leaves the main routine of code whose jumps stay inside
/// it.
pub proof fn lemma_main_closed(code: Seq<Statement>)
    requires
        jumps_within(code, 0),
    ensures
        closed_flow(main_routine(code)),
{
    let p = main_routine(code);
    assert forall|n: int, m: int| #[trigger] flows_to(p, n, m) && reachable(p, n) implies 0 <= m < p.len() by {
        if 0 < n < p.len() - 1 {
            assert(p[n] == code[n - 1]);
            if jump_offset(code[n - 1]) is Some {
                assert(0 <= (n - 1) + jump_offset(code[n - 1])->0 + 1 <= code.len());
            }
        } else if n == p.len() - 1 {
            assert(p[n] == Statement::Stop);
        } else {
            assert(p[n] == Statement::Nop(NOP_PERSIST));
        }
    }
}

/// Symbols of a program before its first statement.
pub open spec fn empty_alloc(order: Endianness) -> AllocView {
    AllocView {
        stack: seq![],
        static_: seq![],
        const_: seq![],
        absolute: seq![],
        static_size: 0,
        stack_size: 0,
        const_data: seq![],
        order,
    }
}

/// No register is allocated.
pub open spec fn no_registers() -> Seq<bool> {
    Seq::new(64, |i: int| false)
}

/// The intermediate code of a program (see [`gen_block`]): the routines of
/// its functions, then the main routine, the optimized form of
/// [`main_routine`] of the program's code; the constant data that its
/// `const` statements lay out.
pub open spec fn program_ir<'a>(ast: Ast<'a>, order: Endianness, ir: Ir) -> bool {
    match gen_block(ast.inner@, true, empty_alloc(order), seq![], no_registers(), seq![]) {
        Ok(g) => {
            &&& routine_views(ir.routines@) == g.routines.push(
                RoutineView { debug_name: None, statements: optimized(main_routine(g.code)) },
            )
            &&& ir.handlers.main == g.routines.len()
            &&& ir.const_@ == g.syms.const_data
        },
        Err(_) => false,
    }
}

impl Ir {
    /// Convert a syntax tree into intermediate code; 16-bit constants are
    /// laid out in the given byte order.
    pub fn new(ast: &Ast, order: Endianness) -> (r: Result<Self, CompileError>)
        ensures
            r matches Ok(ir) ==> compiled(ir) && program_ir(*ast, order, ir),
            r matches Err(e) ==> gen_block(ast.inner@, true, empty_alloc(order), seq![], no_registers(), seq![]) == Err::<
                crate::ir::statements::Gen,
                CompileError,
            >(e),
    {
        let mut routines: Vec<Routine> = Vec::new();
        let mut register_alloc = RegisterAlloc::default();
        let mut symbol_alloc = Alloc::new(order);
        let mut fn_alloc = FnAlloc::new();
        let mut statements: Vec<Statement> = Vec::new();
        statements.push(Statement::Nop(NOP_PERSIST));
        let ghost s0 = statements@;
        proof {
            assert(symbol_alloc@.stack =~= seq![]);
            assert(symbol_alloc@.static_ =~= seq![]);
            assert(symbol_alloc@.const_ =~= seq![]);
            assert(symbol_alloc@.absolute =~= seq![]);
            assert(symbol_alloc@.const_data =~= seq![]);
            assert(symbol_alloc@ == empty_alloc(order));
            assert(fn_alloc@ =~= seq![]);
            assert(routine_views(routines@) =~= Seq::<RoutineView>::empty());
            assert(register_alloc@ =~= no_registers());
        }
        match compile_program(&ast.inner, &mut register_alloc, &mut symbol_alloc, &mut fn_alloc, &mut statements, &mut routines) {
            Ok(()) => {},
            Err(e) => return Err(e),
        }
        let ghost code = statements@.subrange(1, statements@.len() as int);
        let ghost g = gen_block(ast.inner@, true, empty_alloc(order), seq![], no_registers(), seq![])->Ok_0;
        proof {
            assert(statements@ == s0 + g.code);
            assert(code =~= g.code);
            assert(routine_views(routines@) == g.routines);
            assert(symbol_alloc@ == g.syms);
        }
        statements.push(Statement::Stop);
        proof {
            assert(statements@ =~= main_routine(code));
            lemma_main_closed(code);
        }
        optimize(&mut statements);
        let main = routines.len();
        let ghost before = routines@;
        let ghost main_code = statements@;
        routines.push(Routine { debug_name: None, statements });
        assert(routine_views(routines@) =~= routine_views(before).push(
            RoutineView { debug_name: None, statements: main_code },
        ));
        let handlers = Handlers { main, vblank: None, lcd_stat: None, timer: None, serial: None, joypad: None };
        let ir = Ir { const_: symbol_alloc.into_const_data(), routines, handlers };
        proof {
            assert(ir.routines@[main as int].statements@ == optimized(main_routine(code)));
            assert(main_code == optimized(main_routine(g.code)));
            assert(ir.const_@ == g.syms.const_data);
            assert(program_ir(*ast, order, ir));
            assert(jumps_within(code, 0));
            assert forall|i: int| 0 <= i < ir.handlers.main implies jumps_within(#[trigger] ir.routines@[i].statements@, 0) by {
                assert(ir.routines@[i] == ir.routines@.subrange(0, main as int)[i]);
            }
        }
        Ok(ir)
    }
}

/// Compile a syntax tree into intermediate code (see [`Ir::new`]).
pub fn compile(ast: &Ast, order: Endianness) -> (r: Result<Ir, CompileError>)
    ensures
        r matches Ok(ir) ==> compiled(ir) && program_ir(*ast, order, ir),
        r matches Err(e) ==> gen_block(ast.inner@, true, empty_alloc(order), seq![], no_registers(), seq![]) == Err::<
            crate::ir::statements::Gen,
            CompileError,
        >(e),
{
    Ir::new(ast, order)
}

/// Code generation context: how deeply function definitions nest.
pub struct Context {
    fn_level: usize,
}

impl Context {
    /// Depth of function definitions.
    pub closed spec fn level(&self) -> nat {
        self.fn_level as nat
    }

    /// Outside any function.
    pub fn new() -> (r: Self)
        ensures
            r.level() == 0,
    {
        Context { fn_level: 0 }
    }

    /// Whether code is generated outside any function.
    pub fn is_main(&self) -> (r: bool)
        ensures
            r == (self.level() == 0),
    {
        self.fn_level == 0
    }

    /// Enter a function definition.
    pub fn begin_fn(&mut self)
        requires
            old(self).level() < usize::MAX,
        ensures
            final(self).level() == old(self).level() + 1,
    {
        self.fn_level = self.fn_level + 1;
    }

    /// Leave a function definition.
    pub fn end_fn(&mut self)
        requires
            old(self).level() > 0,
        ensures
            final(self).level() == old(self).level() - 1,
    {
        self.fn_level = self.fn_level - 1;
    }
}

/// Number of `begin_fn` calls (`true`) in a sequence of `begin_fn` and
/// `end_fn` (`false`) calls.
pub open spec fn begin_count(calls: Seq<bool>) -> int
    decreases calls.len(),
{
    if calls.len() == 0 {
        0
    } else {
        begin_count(calls.drop_last()) + if calls.last() {
            1int
        } else {
            0int
        }
    }
}

/// Number of `end_fn` calls (`false`) in a sequence of calls.
pub open spec fn end_count(calls: Seq<bool>) -> int {
    calls.len() - begin_count(calls)
}

/// After a sequence of `begin_fn` (`true`) and `end_fn` (`false`) calls on a
/// new context, its level is the number of begins minus the number of ends,
/// so code is in the main program exactly when both numbers are equal.
/// `states[k]` is the context after the first `k` calls, each changing the
/// level as `begin_fn` and `end_fn` do (an `end_fn` at level zero is refused
/// by its `requires`, so the ends never outnumber the begins).
pub proof fn lemma_fn_calls(states: Seq<Context>, calls: Seq<bool>)
    requires
        states.len() == calls.len() + 1,
        states[0].level() == 0,
        forall|k: int|
            0 <= k < calls.len() ==> #[trigger] states[k + 1].level() == if calls[k] {
                states[k].level() as int + 1
            } else {
                states[k].level() - 1
            },
    ensures
        states.last().level() == begin_count(calls) - end_count(calls),
        (states.last().level() == 0) == (begin_count(calls) == end_count(calls)),
        begin_count(calls) >= end_count(calls),
    decreases calls.len(),
{
    if calls.len() > 0 {
        let k = calls.len() - 1;
        let s = states.drop_last();
        let c = calls.drop_last();
        assert forall|j: int| 0 <= j < c.len() implies #[trigger] s[j + 1].level() == if c[j] {
            s[j].level() as int + 1
        } else {
            s[j].level() - 1
        } by {
            assert(states[j + 1].level() == if calls[j] {
                states[j].level() as int + 1
            } else {
                states[j].level() - 1
            });
        }
        lemma_fn_calls(s, c);
        assert(states[k + 1].level() == if calls[k] {
            states[k].level() as int + 1
        } else {
            states[k].level() - 1
        });
    }
}

/// Function definitions nest: inside a function (after `begin_fn`) code is
/// never in the main program, and leaving it (`end_fn`) returns to the level,
/// and so to the `is_main` answer, of before it was entered.
pub proof fn lemma_fn_nesting(before: Context, inside: Context, after: Context)
    requires
        inside.level() == before.level() + 1,
        after.level() == inside.level() - 1,
    ensures
        inside.level() != 0,
        after.level() == before.level(),
        (after.level() == 0) == (before.level() == 0),
{
}

} // verus!

