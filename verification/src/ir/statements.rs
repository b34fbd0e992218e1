//! Compilation of statements into routines.
use crate::ast;
use crate::ir::alloc_register::{lemma_view_len, RegisterAlloc};
use crate::ast::Type;
use crate::ir::allocation::{
    const_bytes, const_env, declared, field_symbol, find_fn, Alloc, AllocView, FnAlloc, FnSig, FnSigView, Space,
};
use crate::ir::expression::{
    alloc_reg, byte_operands, byte_result, compile_expr, compile_expr_void, compile_expression_into_pointer, const_eval, const_expr,
    first_free, free_source_registers, freed, gen_expr, gen_into, gen_void, holds, lemma_expr_no_jumps,
    lemma_free_from, lemma_into_no_jumps, lemma_void_no_jumps, no_jumps, source_regs,
};
use crate::ir::layout::{type_layout, Layout};
use crate::ir::optimize::jump_offset;
use crate::ir::statement::{
    Destination, Location, Pointer, Source, Statement, NOP_BREAK, NOP_CONTINUE,
};
use crate::ir::CompileError;
use crate::lex::Token;
use vstd::prelude::*;
use vstd::pervasive::VecAdditionalExecFns;

verus! {

/// Data associated with a compiled routine.
#[derive(Debug)]
pub struct Routine {
    /// Optional routine name (for debugging purposes).
    pub debug_name: Option<Vec<u8>>,
    /// Instructions of the routine.
    pub statements: Vec<Statement>,
}

/// What a routine holds.
pub struct RoutineView {
    pub debug_name: Option<Seq<u8>>,
    pub statements: Seq<Statement>,
}

impl View for Routine {
    type V = RoutineView;

    open spec fn view(&self) -> RoutineView {
        RoutineView {
            debug_name: match self.debug_name {
                Some(n) => Some(n@),
                None => None,
            },
            statements: self.statements@,
        }
    }
}

/// Views of a list of routines.
pub open spec fn routine_views(v: Seq<Routine>) -> Seq<RoutineView> {
    v.map_values(|r: Routine| r@)
}

/// What compiling statements gives: the statements emitted, then the
/// symbols, functions and routines, and whether a `panic`, `break` or
/// `continue` ended the block.
pub struct Gen {
    pub code: Seq<Statement>,
    pub syms: AllocView,
    pub fns: Seq<FnSigView>,
    pub routines: Seq<RoutineView>,
    pub stopped: bool,
}

/// Symbols after a `static` statement: at the address of its offset (a
/// constant expression) where it has one, in the static space otherwise.
pub open spec fn static_effect<'a>(a: AllocView, st: ast::Static<'a>) -> Result<AllocView, CompileError> {
    match st.offset {
        Some(o) => match const_eval(o.expression, true, const_env(a)) {
            None => Err(CompileError::NotConstant),
            Some(address) => match declared(a, st.field.ident, st.field.type_, address, Space::Absolute) {
                Err(e) => Err(e),
                Ok((syms, _)) => Ok(AllocView { absolute: a.absolute + syms, ..a }),
            },
        },
        None => match declared(a, st.field.ident, st.field.type_, a.static_size, Space::Static) {
            Err(e) => Err(e),
            Ok((syms, size)) => if a.static_size + size > 0xffff {
                Err(CompileError::Limit)
            } else {
                Ok(AllocView { static_: a.static_ + syms, static_size: (a.static_size + size) as u16, ..a })
            },
        },
    }
}

/// Symbols after a `const` statement: its symbol, and its value in the
/// constant data.
pub open spec fn const_effect<'a>(a: AllocView, c: ast::Const<'a>) -> Result<AllocView, CompileError> {
    match field_symbol(a, c.field.ident, c.field.type_, a.const_data.len() as u16, Space::Const) {
        Err(e) => Err(e),
        Ok(sym) => match const_bytes(sym.layout, c.expression, a.order) {
            None => Err(CompileError::NotConstant),
            Some(bytes) => if a.const_data.len() + sym.size > 0xffff || bytes.len() != sym.size {
                Err(CompileError::Limit)
            } else {
                Ok(AllocView { const_: a.const_.push(sym), const_data: a.const_data + bytes, ..a })
            },
        },
    }
}

/// Symbols after `ident` of type `t` is allocated in the stack, and its
/// address.
pub open spec fn stack_effect<'a>(a: AllocView, ident: Token<'a>, t: Type<'a>) -> Result<(AllocView, u16), CompileError> {
    match field_symbol(a, ident, t, a.stack_size, Space::Stack) {
        Err(e) => Err(e),
        Ok(sym) => if a.stack_size + sym.size > 0xffff {
            Err(CompileError::Limit)
        } else {
            Ok((AllocView { stack: a.stack.push(sym), stack_size: (a.stack_size + sym.size) as u16, ..a }, a.stack_size))
        },
    }
}

/// Symbols after a field is allocated in the stack (see
/// [`member_symbols`]), and its address.
pub open spec fn stack_field_effect<'a>(a: AllocView, ident: Token<'a>, t: Type<'a>) -> Result<(AllocView, u16), CompileError> {
    match declared(a, ident, t, a.stack_size, Space::Stack) {
        Err(e) => Err(e),
        Ok((syms, size)) => if a.stack_size + size > 0xffff {
            Err(CompileError::Limit)
        } else {
            Ok((AllocView { stack: a.stack + syms, stack_size: (a.stack_size + size) as u16, ..a }, a.stack_size))
        },
    }
}

/// Code of a `let` statement, and the symbols after it: the variable is
/// allocated in the stack, then the expression is stored into it.
pub open spec fn gen_let<'a>(l: ast::Let<'a>, syms: AllocView, fns: Seq<FnSigView>, regs: Seq<bool>) -> Result<
    (Seq<Statement>, AllocView),
    CompileError,
> {
    match stack_field_effect(syms, l.field.ident, l.field.type_) {
        Err(e) => Err(e),
        Ok((a, address)) => match type_layout(l.field.type_) {
            None => Err(CompileError::Unsupported),
            Some(layout) => match gen_into(l.expression, layout, a, fns, Pointer::Stack(address), regs) {
                Err(e) => Err(e),
                Ok(code) => Ok((code, a)),
            },
        },
    }
}

/// Symbols and argument layouts after the arguments named by `v`, all of
/// type `t` (layout `l`), are allocated in the stack.
pub open spec fn idents_args<'a>(v: Seq<(Token<'a>, Token<'a>)>, t: Type<'a>, l: Layout, a: AllocView, args: Seq<Layout>) -> Result<
    (AllocView, Seq<Layout>),
    CompileError,
>
    decreases v.len(),
{
    if v.len() == 0 {
        Ok((a, args))
    } else {
        match idents_args(v.drop_last(), t, l, a, args) {
            Err(e) => Err(e),
            Ok((a1, args1)) => match stack_effect(a1, v.last().1, t) {
                Err(e) => Err(e),
                Ok((a2, _)) => Ok((a2, args1.push(l))),
            },
        }
    }
}

/// Symbols and argument layouts after the arguments of a group are
/// allocated in the stack.
pub open spec fn group_args<'a>(g: ast::FieldGroup<'a>, a: AllocView, args: Seq<Layout>) -> Result<
    (AllocView, Seq<Layout>),
    CompileError,
> {
    match type_layout(g.type_) {
        None => Err(CompileError::Unsupported),
        Some(l) => match stack_effect(a, g.idents.head, g.type_) {
            Err(e) => Err(e),
            Ok((a1, _)) => idents_args(g.idents.tail@, g.type_, l, a1, args.push(l)),
        },
    }
}

/// Symbols and argument layouts after the groups of `(separator, group)`
/// pairs.
pub open spec fn groups_args<'a>(v: Seq<(Token<'a>, ast::FieldGroup<'a>)>, a: AllocView, args: Seq<Layout>) -> Result<
    (AllocView, Seq<Layout>),
    CompileError,
>
    decreases v.len(),
{
    if v.len() == 0 {
        Ok((a, args))
    } else {
        match groups_args(v.drop_last(), a, args) {
            Err(e) => Err(e),
            Ok((a1, args1)) => group_args(v.last().1, a1, args1),
        }
    }
}

/// Symbols and argument layouts of a function's arguments.
pub open spec fn fn_args_effect<'a>(f: Option<ast::FnArgs<'a>>, a: AllocView) -> Result<(AllocView, Seq<Layout>), CompileError> {
    match f {
        None => Ok((a, seq![])),
        Some(fa) => match group_args(fa.args.head, a, seq![]) {
            Err(e) => Err(e),
            Ok((a1, args1)) => groups_args(fa.args.tail@, a1, args1),
        },
    }
}

/// Layout of a function's result.
pub open spec fn ret_layout<'a>(t: Option<Type<'a>>) -> Result<Option<Layout>, CompileError> {
    match t {
        None => Ok(None),
        Some(t) => match type_layout(t) {
            None => Err(CompileError::Unsupported),
            Some(l) => Ok(Some(l)),
        },
    }
}

/// A block compiled on its own: the code, with the symbols of the block
/// around it.
pub open spec fn in_block(g: Gen, syms: AllocView) -> Gen {
    Gen { code: g.code, syms, fns: g.fns, routines: g.routines, stopped: false }
}

/// What compiling `stmts` in turn gives (see [`Gen`]); `main` outside
/// functions. A `panic`, `break` or `continue` ends the block.
pub open spec fn gen_block<'a>(
    stmts: Seq<ast::Statement<'a>>,
    main: bool,
    syms: AllocView,
    fns: Seq<FnSigView>,
    regs: Seq<bool>,
    routines: Seq<RoutineView>,
) -> Result<Gen, CompileError>
    decreases stmts, 1int,
{
    if stmts.len() == 0 {
        Ok(Gen { code: seq![], syms, fns, routines, stopped: false })
    } else {
        match gen_block(stmts.drop_last(), main, syms, fns, regs, routines) {
            Err(e) => Err(e),
            Ok(g) => if g.stopped {
                Ok(g)
            } else {
                match gen_stmt(stmts.last(), main, g.syms, g.fns, regs, g.routines) {
                    Err(e) => Err(e),
                    Ok(h) => Ok(Gen { code: g.code + h.code, ..h }),
                }
            },
        }
    }
}

/// What compiling one statement gives. Statics, consts and functions are
/// compiled only outside functions (`main`); modules and type definitions
/// give nothing.
pub open spec fn gen_stmt<'a>(
    st: ast::Statement<'a>,
    main: bool,
    syms: AllocView,
    fns: Seq<FnSigView>,
    regs: Seq<bool>,
    routines: Seq<RoutineView>,
) -> Result<Gen, CompileError>
    decreases st, 0int,
{
    let nothing = Gen { code: seq![], syms, fns, routines, stopped: false };
    match st {
        ast::Statement::Panic(_) => Ok(Gen { code: seq![Statement::Stop], stopped: true, ..nothing }),
        ast::Statement::Break(_) => Ok(Gen { code: seq![Statement::Nop(NOP_BREAK)], stopped: true, ..nothing }),
        ast::Statement::Continue(_) => Ok(Gen { code: seq![Statement::Nop(NOP_CONTINUE)], stopped: true, ..nothing }),
        ast::Statement::Static(x) => if main {
            match static_effect(syms, *x) {
                Err(e) => Err(e),
                Ok(a) => Ok(Gen { syms: a, ..nothing }),
            }
        } else {
            Ok(nothing)
        },
        ast::Statement::Const(x) => if main {
            match const_effect(syms, *x) {
                Err(e) => Err(e),
                Ok(a) => Ok(Gen { syms: a, ..nothing }),
            }
        } else {
            Ok(nothing)
        },
        ast::Statement::Fn(x) => if main {
            match gen_fn(*x, syms, fns, regs, routines) {
                Err(e) => Err(e),
                Ok((f, r)) => Ok(Gen { fns: f, routines: r, ..nothing }),
            }
        } else {
            Ok(nothing)
        },
        ast::Statement::Let(x) => match gen_let(*x, syms, fns, regs) {
            Err(e) => Err(e),
            Ok((code, a)) => Ok(Gen { code, syms: a, ..nothing }),
        },
        ast::Statement::Inline(x) => match gen_void(x.inner, syms, regs) {
            Err(e) => Err(e),
            Ok(code) => Ok(Gen { code, ..nothing }),
        },
        ast::Statement::Scope(x) => match gen_block(x.inner@, main, syms, fns, regs, routines) {
            Err(e) => Err(e),
            Ok(g) => Ok(in_block(g, syms)),
        },
        ast::Statement::If(x) => gen_if(*x, false, main, syms, fns, regs, routines),
        ast::Statement::IfElse(x) => gen_if_else(*x, main, syms, fns, regs, routines),
        ast::Statement::Loop(x) => gen_loop_body(x.inner@, main, syms, fns, regs, routines, seq![], seq![]),
        ast::Statement::For(x) => gen_for(*x, main, syms, fns, regs, routines),
        _ => Ok(nothing),
    }
}

/// Functions and routines after a function definition: its signature, then
/// its routine, compiled with its arguments in a new stack frame, ending with
/// a return.
pub open spec fn gen_fn<'a>(
    f: ast::Function<'a>,
    syms: AllocView,
    fns: Seq<FnSigView>,
    regs: Seq<bool>,
    routines: Seq<RoutineView>,
) -> Result<(Seq<FnSigView>, Seq<RoutineView>), CompileError>
    decreases f, 0int,
{
    match fn_args_effect(f.fn_args, AllocView { stack: seq![], stack_size: 0, ..syms }) {
        Err(e) => Err(e),
        Ok((a, args)) => match ret_layout(f.type_) {
            Err(e) => Err(e),
            Ok(ret) => {
                let sig = FnSigView { name: f.ident.text@, routine: routines.len() as usize, args, ret };
                if find_fn(fns, sig.name) is Some {
                    Err(CompileError::Redefined)
                } else {
                    match gen_block(f.inner@, false, a, fns.push(sig), regs, routines) {
                        Err(e) => Err(e),
                        Ok(g) => Ok(
                            (
                                g.fns,
                                g.routines.push(
                                    RoutineView { debug_name: Some(f.ident.text@), statements: g.code.push(Statement::Ret) },
                                ),
                            ),
                        ),
                    }
                }
            },
        },
    }
}

/// An `if` statement: the condition, a jump past the block where it is zero
/// (one statement further with `has_else`), then the block.
pub open spec fn gen_if<'a>(
    x: ast::If<'a>,
    has_else: bool,
    main: bool,
    syms: AllocView,
    fns: Seq<FnSigView>,
    regs: Seq<bool>,
    routines: Seq<RoutineView>,
) -> Result<Gen, CompileError>
    decreases x, 0int,
{
    match gen_expr(x.expression, syms, regs) {
        Err(e) => Err(e),
        Ok((cond, source, _)) => match gen_block(x.inner@, main, syms, fns, regs, routines) {
            Err(e) => Err(e),
            Ok(g) => if g.code.len() > 126 {
                Err(CompileError::Limit)
            } else {
                let jump = g.code.len() + if has_else {
                    1int
                } else {
                    0int
                };
                Ok(
                    in_block(
                        Gen {
                            code: cond + seq![Statement::JmpCmpNot { location: Location::Relative(jump as i8), source }] + g.code,
                            ..g
                        },
                        syms,
                    ),
                )
            },
        },
    }
}

/// An `if`/`else` statement: the `if` statement, a jump past the `else`
/// block, then the `else` block, which is compiled first.
pub open spec fn gen_if_else<'a>(
    x: ast::IfElse<'a>,
    main: bool,
    syms: AllocView,
    fns: Seq<FnSigView>,
    regs: Seq<bool>,
    routines: Seq<RoutineView>,
) -> Result<Gen, CompileError>
    decreases x, 0int,
{
    match gen_block(x.else_.inner@, main, syms, fns, regs, routines) {
        Err(e) => Err(e),
        Ok(ge) => match gen_if(x.if_, true, main, syms, ge.fns, regs, ge.routines) {
            Err(e) => Err(e),
            Ok(gi) => if ge.code.len() > 127 {
                Err(CompileError::Limit)
            } else {
                Ok(
                    Gen {
                        code: gi.code + seq![Statement::Jmp { location: Location::Relative(ge.code.len() as i8) }] + ge.code,
                        ..gi
                    },
                )
            },
        },
    }
}

/// A loop: `prefix`, the statements of the block, `suffix`, then the jump
/// back (see [`loop_code`]); at most 127 statements before the jump back.
pub open spec fn gen_loop_body<'a>(
    inner: Seq<ast::Statement<'a>>,
    main: bool,
    syms: AllocView,
    fns: Seq<FnSigView>,
    regs: Seq<bool>,
    routines: Seq<RoutineView>,
    prefix: Seq<Statement>,
    suffix: Seq<Statement>,
) -> Result<Gen, CompileError>
    decreases inner, 2int,
{
    match gen_block(inner, main, syms, fns, regs, routines) {
        Err(e) => Err(e),
        Ok(g) => if (prefix + g.code + suffix).len() >= 128 {
            Err(CompileError::Limit)
        } else {
            Ok(in_block(Gen { code: loop_code(prefix + g.code + suffix), ..g }, syms))
        },
    }
}

/// The statements of a `for` statement before its loop: the variable at
/// `address` is set to the start of the range, and the end (one more for
/// `..=`) is loaded into the lowest free register; with that register and the
/// register that the loop tests with.
pub open spec fn for_head<'a>(x: ast::For<'a>, a: AllocView, address: u16, regs: Seq<bool>) -> Result<
    (Seq<Statement>, int, int),
    CompileError,
> {
    let var = Destination::Pointer { base: Pointer::Stack(address), offset: None };
    match gen_expr(x.range.left, a, regs) {
        Err(e) => Err(e),
        Ok((c1, init, _)) => match gen_expr(x.range.right, a, regs) {
            Err(e) => Err(e),
            Ok((c2, end, r2)) => match first_free(r2) {
                None => Err(CompileError::Limit),
                Some(er) => match first_free(regs.update(er, true)) {
                    None => Err(CompileError::Limit),
                    Some(tr) => Ok(
                        (
                            c1 + seq![Statement::Ld { source: init, destination: var }] + c2 + seq![
                                Statement::Ld { source: end, destination: Destination::Register(er as usize) },
                            ] + if x.range.eq is Some {
                                seq![
                                    Statement::Inc {
                                        source: Source::Register(er as usize),
                                        destination: Destination::Register(er as usize),
                                    },
                                ]
                            } else {
                                seq![]
                            },
                            er,
                            tr,
                        ),
                    ),
                },
            },
        },
    }
}

/// The statements of a `for` loop before its block: the difference of the
/// end and the variable, and a jump past the loop where it is zero.
pub open spec fn for_prefix(er: int, tr: int, address: u16) -> Seq<Statement> {
    seq![
        Statement::Sub {
            left: Source::Register(er as usize),
            right: Source::<u8>::Pointer { base: Pointer::Stack(address), offset: None },
            destination: Destination::Register(tr as usize),
        },
        Statement::JmpCmp { location: Location::Relative(1), source: Source::Register(tr as usize) },
        Statement::Nop(NOP_BREAK),
    ]
}

/// The statement of a `for` loop after its block: the variable is
/// incremented.
pub open spec fn for_suffix(address: u16) -> Seq<Statement> {
    seq![
        Statement::Inc {
            source: Source::<u8>::Pointer { base: Pointer::Stack(address), offset: None },
            destination: Destination::Pointer { base: Pointer::Stack(address), offset: None },
        },
    ]
}

/// Byte left in the stack slot at `address`, holding `v`, by a statement
/// that reads that slot and writes it back: `Inc` adds one and `Dec` takes
/// one, wrapping at 256; `None` for any other statement.
pub open spec fn slot_update(s: Statement, address: u16, v: u8) -> Option<int> {
    let src = Source::<u8>::Pointer { base: Pointer::Stack(address), offset: None };
    let dst = Destination::Pointer { base: Pointer::Stack(address), offset: None };
    match s {
        Statement::Inc { source, destination } => if source == src && destination == dst {
            Some((v + 1) % 256)
        } else {
            None
        },
        Statement::Dec { source, destination } => if source == src && destination == dst {
            Some((v - 1) % 256)
        } else {
            None
        },
        _ => None,
    }
}

/// Value of a `for` loop's variable at `address`, started at `start`, after
/// `k` passes of the statement that follows the loop's block (see
/// [`for_suffix`]); `None` where that statement does not update the variable.
pub open spec fn variable_after(address: u16, start: u8, k: nat) -> Option<int>
    decreases k,
{
    if k == 0 {
        Some(start as int)
    } else {
        match variable_after(address, start, (k - 1) as nat) {
            Some(v) => if for_suffix(address).len() == 1 && 0 <= v < 256 {
                slot_update(for_suffix(address)[0], address, v as u8)
            } else {
                None
            },
            None => None,
        }
    }
}

proof fn lemma_wrap_step(start: int, k: int)
    requires
        k >= 1,
    ensures
        ((start + k - 1) % 256 + 1) % 256 == (start + k) % 256,
{
}

proof fn lemma_wrap_zero(start: int, end: int, k: int)
    requires
        0 <= start < 256,
        0 <= end < 256,
        k >= 0,
    ensures
        ((end - (start + k) % 256) % 256 == 0) <==> (k % 256 == (end - start) % 256),
{
}

/// A `for` loop over `start..end` counts its variable up by one per pass and
/// stops when the variable reaches the end: after `k` passes of the
/// statement that follows its block the variable (in the stack slot at
/// `address`) holds `start + k`, wrapping at 256, and the loop's test, the
/// end (in register `er`) minus the variable, is zero exactly when `k` is
/// `end - start` modulo 256. So the loop makes `(end - start) mod 256`
/// passes, and a loop over `0..4` four.
pub proof fn lemma_for_counts(er: int, tr: int, address: u16, start: u8, end: u8, k: nat)
    ensures
        variable_after(address, start, k) == Some((start + k) % 256),
        byte_operands(for_prefix(er, tr, address)[0]) == Some(
            (
                Source::<u8>::Register(er as usize),
                (Source::<u8>::Pointer { base: Pointer::Stack(address), offset: None }),
                Destination::Register(tr as usize),
            ),
        ),
        for_prefix(er, tr, address)[1] == (Statement::JmpCmp {
            location: Location::Relative(1),
            source: Source::Register(tr as usize),
        }),
        (byte_result(for_prefix(er, tr, address)[0], end, ((start + k) % 256) as u8) == Some(0int)) <==> (k % 256
            == (end - start) % 256),
    decreases k,
{
    if k > 0 {
        lemma_for_counts(er, tr, address, start, end, (k - 1) as nat);
        lemma_wrap_step(start as int, k as int);
    }
    lemma_wrap_zero(start as int, end as int, k as int);
}

/// Before its loop, a `for` statement starts its variable at the range's
/// start and holds the range's end in a register of its own: the
/// statements that [`for_head`] gives are the start's computation, a load of
/// the start into the variable's stack slot, the end's computation, a load
/// of the end into the end register `er`, and for an inclusive range (`..=`)
/// one increment of that register.
pub proof fn lemma_for_head<'a>(x: ast::For<'a>, a: AllocView, address: u16, regs: Seq<bool>)
    requires
        for_head(x, a, address, regs) is Ok,
    ensures
        ({
            let (head, er, tr) = for_head(x, a, address, regs)->Ok_0;
            let (c1, init, _) = gen_expr(x.range.left, a, regs)->Ok_0;
            let (c2, end, _) = gen_expr(x.range.right, a, regs)->Ok_0;
            let slot = Destination::Pointer { base: Pointer::Stack(address), offset: None };
            &&& head.subrange(0, c1.len() as int) == c1
            &&& head[c1.len() as int] == (Statement::Ld { source: init, destination: slot })
            &&& head.subrange(c1.len() + 1int, c1.len() + 1int + c2.len()) == c2
            &&& head[c1.len() + 1int + c2.len()] == (Statement::Ld {
                source: end,
                destination: Destination::Register(er as usize),
            })
            &&& head.len() == c1.len() + c2.len() + 2 + if x.range.eq is Some {
                1int
            } else {
                0int
            }
            &&& x.range.eq is Some ==> head.last() == (Statement::Inc {
                source: Source::Register(er as usize),
                destination: Destination::Register(er as usize),
            })
        }),
{
    let (c1, init, _) = gen_expr(x.range.left, a, regs)->Ok_0;
    let (c2, end, r2) = gen_expr(x.range.right, a, regs)->Ok_0;
    let head = for_head(x, a, address, regs)->Ok_0.0;
    assert(head.subrange(0, c1.len() as int) =~= c1);
    assert(head.subrange(c1.len() + 1int, c1.len() + 1int + c2.len()) =~= c2);
}

/// A `for` statement: the variable is allocated in the stack, then come
/// [`for_head`] and the loop over [`for_prefix`], the block and
/// [`for_suffix`]; the end register stays allocated during the loop.
pub open spec fn gen_for<'a>(
    x: ast::For<'a>,
    main: bool,
    syms: AllocView,
    fns: Seq<FnSigView>,
    regs: Seq<bool>,
    routines: Seq<RoutineView>,
) -> Result<Gen, CompileError>
    decreases x, 0int,
{
    match stack_field_effect(syms, x.field.ident, x.field.type_) {
        Err(e) => Err(e),
        Ok((a, address)) => match for_head(x, a, address, regs) {
            Err(e) => Err(e),
            Ok((head, er, tr)) => match gen_loop_body(
                x.inner@,
                main,
                a,
                fns,
                regs.update(er, true),
                routines,
                for_prefix(er, tr, address),
                for_suffix(address),
            ) {
                Err(e) => Err(e),
                Ok(g) => Ok(in_block(Gen { code: head + g.code, ..g }, syms)),
            },
        },
    }
}

/// Every jump of `code` lands inside it, or at most `extra` statements
/// after its end.
pub open spec fn jumps_within(code: Seq<Statement>, extra: int) -> bool {
    forall|n: int|
        0 <= n < code.len() && #[trigger] jump_offset(code[n]) is Some ==> 0 <= n + jump_offset(code[n])->0
            + 1 <= code.len() + extra
}

/// `new` is `old` followed by statements whose jumps land among them.
pub open spec fn extends_within(old: Seq<Statement>, new: Seq<Statement>, extra: int) -> bool {
    &&& old.len() <= new.len()
    &&& new.subrange(0, old.len() as int) == old
    &&& jumps_within(new.subrange(old.len() as int, new.len() as int), extra)
}

/// Routines: the old ones are kept, and the jumps of every new routine land
/// inside it.
pub open spec fn routines_extend(old: Seq<Routine>, new: Seq<Routine>) -> bool {
    &&& old.len() <= new.len()
    &&& new.subrange(0, old.len() as int) == old
    &&& forall|i: int| old.len() <= i < new.len() ==> jumps_within(#[trigger] new[i].statements@, 0)
}

proof fn lemma_no_jumps_within(code: Seq<Statement>)
    requires
        no_jumps(code),
    ensures
        jumps_within(code, 0),
{
    assert forall|n: int| 0 <= n < code.len() && #[trigger] jump_offset(code[n]) is Some implies 0 <= n
        + jump_offset(code[n])->0 + 1 <= code.len() by {
        assert(jump_offset(code[n]) is None);
    }
}

proof fn lemma_within_cat(a: Seq<Statement>, b: Seq<Statement>, extra: int)
    requires
        jumps_within(a, 0),
        jumps_within(b, extra),
        extra >= 0,
    ensures
        jumps_within(a + b, extra),
{
    assert forall|n: int| 0 <= n < (a + b).len() && #[trigger] jump_offset((a + b)[n]) is Some implies 0 <= n
        + jump_offset((a + b)[n])->0 + 1 <= (a + b).len() + extra by {
        if n < a.len() {
            assert((a + b)[n] == a[n]);
        } else {
            assert((a + b)[n] == b[n - a.len()]);
        }
    }
}

proof fn lemma_extends_trans(a: Seq<Statement>, b: Seq<Statement>, c: Seq<Statement>)
    requires
        extends_within(a, b, 0),
        extends_within(b, c, 0),
    ensures
        extends_within(a, c, 0),
{
    let x = b.subrange(a.len() as int, b.len() as int);
    let y = c.subrange(b.len() as int, c.len() as int);
    assert(c.subrange(a.len() as int, c.len() as int) =~= x + y);
    lemma_within_cat(x, y, 0);
    assert(c.subrange(0, a.len() as int) =~= b.subrange(0, a.len() as int));
}

proof fn lemma_extends_code(a: Seq<Statement>, code: Seq<Statement>)
    requires
        no_jumps(code),
    ensures
        extends_within(a, a + code, 0),
{
    assert((a + code).subrange(a.len() as int, (a + code).len() as int) =~= code);
    assert((a + code).subrange(0, a.len() as int) =~= a);
    lemma_no_jumps_within(code);
}

proof fn lemma_extends_refl(a: Seq<Statement>)
    ensures
        extends_within(a, a, 0),
{
    assert(a.subrange(a.len() as int, a.len() as int) =~= Seq::<Statement>::empty());
    assert(a.subrange(0, a.len() as int) =~= a);
}

proof fn lemma_routines_trans(a: Seq<Routine>, b: Seq<Routine>, c: Seq<Routine>)
    requires
        routines_extend(a, b),
        routines_extend(b, c),
    ensures
        routines_extend(a, c),
{
    assert forall|i: int| a.len() <= i < c.len() implies jumps_within(#[trigger] c[i].statements@, 0) by {
        if i < b.len() {
            assert(c[i] == c.subrange(0, b.len() as int)[i]);
        }
    }
    assert(c.subrange(0, a.len() as int) =~= b.subrange(0, a.len() as int));
}

proof fn lemma_routines_refl(a: Seq<Routine>)
    ensures
        routines_extend(a, a),
{
    assert(a.subrange(0, a.len() as int) =~= a);
}

/// Compile a `break` statement: a placeholder that the enclosing loop turns
/// into a jump past its end.
fn compile_break(statements: &mut Vec<Statement>)
    ensures
        final(statements)@ == old(statements)@.push(Statement::Nop(NOP_BREAK)),
{
    statements.push(Statement::Nop(NOP_BREAK));
}

/// Compile a `continue` statement: a placeholder that the enclosing loop
/// turns into a jump back to its start.
fn compile_continue(statements: &mut Vec<Statement>)
    ensures
        final(statements)@ == old(statements)@.push(Statement::Nop(NOP_CONTINUE)),
{
    statements.push(Statement::Nop(NOP_CONTINUE));
}

/// Compile a list of statements, appending their code to `statements`.
///
/// Statics, consts and functions are compiled only where `main`; the rest
/// of a list after `!!` (which stops the program), `break` or `continue` is
/// not compiled.
#[verifier::spinoff_prover]
#[verifier::rlimit(100)]
fn compile_statements(
    ast_statements: &Vec<ast::Statement>,
    main: bool,
    register_alloc: &mut RegisterAlloc,
    symbol_alloc: &mut Alloc,
    fn_alloc: &mut FnAlloc,
    statements: &mut Vec<Statement>,
    routines: &mut Vec<Routine>,
) -> (r: Result<(), CompileError>)
    requires
        old(symbol_alloc).wf(),
    ensures
        r is Ok ==> {
            &&& final(register_alloc)@ == old(register_alloc)@
            &&& extends_within(old(statements)@, final(statements)@, 0)
            &&& routines_extend(old(routines)@, final(routines)@)
            &&& final(symbol_alloc).wf()
        },
        match gen_block(ast_statements@, main, old(symbol_alloc)@, old(fn_alloc)@, old(register_alloc)@, routine_views(old(routines)@)) {
            Ok(g) => r is Ok && final(statements)@ == old(statements)@ + g.code && final(symbol_alloc)@ == g.syms && final(fn_alloc)@
                == g.fns && routine_views(final(routines)@) == g.routines,
            Err(e) => r == Err::<(), CompileError>(e),
        },
    decreases ast_statements@, 2int,
{
    proof {
        lemma_extends_refl(statements@);
        lemma_routines_refl(routines@);
        assert(ast_statements@.subrange(0, 0) =~= Seq::<ast::Statement>::empty());
        assert(statements@.subrange(statements@.len() as int, statements@.len() as int) =~= Seq::<Statement>::empty());
    }
    let ghost syms0 = symbol_alloc@;
    let ghost fns0 = fn_alloc@;
    let ghost regs0 = register_alloc@;
    let ghost q0 = routine_views(routines@);
    let ghost start = statements@;
    let mut i: usize = 0;
    while i < ast_statements.len()
        invariant
            symbol_alloc.wf(),
            register_alloc@ == old(register_alloc)@,
            extends_within(old(statements)@, statements@, 0),
            routines_extend(old(routines)@, routines@),
            i <= ast_statements@.len(),
            start == old(statements)@,
            syms0 == old(symbol_alloc)@,
            fns0 == old(fn_alloc)@,
            regs0 == old(register_alloc)@,
            q0 == routine_views(old(routines)@),
            gen_block(ast_statements@.subrange(0, i as int), main, syms0, fns0, regs0, q0) == Ok::<Gen, CompileError>(
                Gen {
                    code: statements@.subrange(start.len() as int, statements@.len() as int),
                    syms: symbol_alloc@,
                    fns: fn_alloc@,
                    routines: routine_views(routines@),
                    stopped: false,
                },
            ),
        decreases ast_statements.len() - i,
    {
        let ghost s0 = statements@;
        let ghost q1 = routines@;
        let ghost g = Gen {
            code: statements@.subrange(start.len() as int, statements@.len() as int),
            syms: symbol_alloc@,
            fns: fn_alloc@,
            routines: routine_views(routines@),
            stopped: false,
        };
        proof {
            assert(ast_statements@[i as int] == ast_statements@[i as int]);
        }
        let stopped = match compile_statement(&ast_statements[i], main, register_alloc, symbol_alloc, fn_alloc, statements, routines) {
            Ok(b) => b,
            Err(e) => {
                proof {
                    lemma_block_step(ast_statements@, i as int, main, syms0, fns0, regs0, q0, g);
                    lemma_block_err(ast_statements@, i + 1, main, syms0, fns0, regs0, q0);
                }
                return Err(e);
            },
        };
        proof {
            lemma_block_step(ast_statements@, i as int, main, syms0, fns0, regs0, q0, g);
            lemma_extends_trans(old(statements)@, s0, statements@);
            lemma_routines_trans(old(routines)@, q1, routines@);
            let h = gen_stmt(ast_statements@[i as int], main, g.syms, g.fns, regs0, g.routines)->Ok_0;
            assert(statements@ == s0 + h.code);
            assert(statements@.subrange(start.len() as int, statements@.len() as int) =~= g.code + h.code);
        }
        if stopped {
            proof {
                lemma_block_stopped(ast_statements@, i + 1, main, syms0, fns0, regs0, q0);
                assert(statements@ =~= old(statements)@ + statements@.subrange(start.len() as int, statements@.len() as int));
            }
            return Ok(());
        }
        i = i + 1;
    }
    proof {
        assert(ast_statements@.subrange(0, i as int) =~= ast_statements@);
        assert(statements@ =~= old(statements)@ + statements@.subrange(start.len() as int, statements@.len() as int));
    }
    Ok(())
}

/// One more statement of a block.
proof fn lemma_block_step<'a>(
    stmts: Seq<ast::Statement<'a>>,
    i: int,
    main: bool,
    syms: AllocView,
    fns: Seq<FnSigView>,
    regs: Seq<bool>,
    routines: Seq<RoutineView>,
    g: Gen,
)
    requires
        0 <= i < stmts.len(),
        gen_block(stmts.subrange(0, i), main, syms, fns, regs, routines) == Ok::<Gen, CompileError>(g),
        !g.stopped,
    ensures
        gen_block(stmts.subrange(0, i + 1), main, syms, fns, regs, routines) == match gen_stmt(
            stmts[i],
            main,
            g.syms,
            g.fns,
            regs,
            g.routines,
        ) {
            Err(e) => Err::<Gen, CompileError>(e),
            Ok(h) => Ok(Gen { code: g.code + h.code, ..h }),
        },
{
    let s1 = stmts.subrange(0, i + 1);
    assert(s1.len() == i + 1);
    assert(s1.drop_last() =~= stmts.subrange(0, i));
    assert(s1.last() == stmts[i]);
    assert(gen_block(s1.drop_last(), main, syms, fns, regs, routines) == Ok::<Gen, CompileError>(g));
}

/// A block whose first statements fail fails with them.
proof fn lemma_block_err<'a>(
    stmts: Seq<ast::Statement<'a>>,
    k: int,
    main: bool,
    syms: AllocView,
    fns: Seq<FnSigView>,
    regs: Seq<bool>,
    routines: Seq<RoutineView>,
)
    requires
        0 <= k <= stmts.len(),
        gen_block(stmts.subrange(0, k), main, syms, fns, regs, routines) is Err,
    ensures
        gen_block(stmts, main, syms, fns, regs, routines) == gen_block(stmts.subrange(0, k), main, syms, fns, regs, routines),
    decreases stmts.len() - k,
{
    if k < stmts.len() {
        assert(stmts.subrange(0, k + 1).drop_last() =~= stmts.subrange(0, k));
        lemma_block_err(stmts, k + 1, main, syms, fns, regs, routines);
    } else {
        assert(stmts.subrange(0, k) =~= stmts);
    }
}

/// A block whose first statements end it gives what they give.
proof fn lemma_block_stopped<'a>(
    stmts: Seq<ast::Statement<'a>>,
    k: int,
    main: bool,
    syms: AllocView,
    fns: Seq<FnSigView>,
    regs: Seq<bool>,
    routines: Seq<RoutineView>,
)
    requires
        0 <= k <= stmts.len(),
        gen_block(stmts.subrange(0, k), main, syms, fns, regs, routines) matches Ok(g) && g.stopped,
    ensures
        gen_block(stmts, main, syms, fns, regs, routines) == gen_block(stmts.subrange(0, k), main, syms, fns, regs, routines),
    decreases stmts.len() - k,
{
    if k < stmts.len() {
        assert(stmts.subrange(0, k + 1).drop_last() =~= stmts.subrange(0, k));
        lemma_block_stopped(stmts, k + 1, main, syms, fns, regs, routines);
    } else {
        assert(stmts.subrange(0, k) =~= stmts);
    }
}

/// Compile one statement; returns whether it ends its block (a `panic`,
/// `break` or `continue`).
#[verifier::spinoff_prover]
#[verifier::rlimit(100)]
fn compile_statement(
    st: &ast::Statement,
    main: bool,
    register_alloc: &mut RegisterAlloc,
    symbol_alloc: &mut Alloc,
    fn_alloc: &mut FnAlloc,
    statements: &mut Vec<Statement>,
    routines: &mut Vec<Routine>,
) -> (r: Result<bool, CompileError>)
    requires
        old(symbol_alloc).wf(),
    ensures
        final(symbol_alloc).wf(),
        r is Ok ==> {
            &&& final(register_alloc)@ == old(register_alloc)@
            &&& extends_within(old(statements)@, final(statements)@, 0)
            &&& routines_extend(old(routines)@, final(routines)@)
        },
        match gen_stmt(*st, main, old(symbol_alloc)@, old(fn_alloc)@, old(register_alloc)@, routine_views(old(routines)@)) {
            Ok(h) => r == Ok::<bool, CompileError>(h.stopped) && final(statements)@ == old(statements)@ + h.code
                && final(symbol_alloc)@ == h.syms && final(fn_alloc)@ == h.fns && routine_views(final(routines)@) == h.routines,
            Err(e) => r == Err::<bool, CompileError>(e),
        },
    decreases *st, 5int,
{
    proof {

        lemma_extends_refl(statements@);
        lemma_routines_refl(routines@);
    }
    let ghost s0 = statements@;
    match st {
        ast::Statement::Panic(_) => {
            statements.push(Statement::Stop);
            proof {
                lemma_push(s0, Statement::Stop);
                assert(statements@ =~= s0 + seq![Statement::Stop]);
            }
            Ok(true)
        },
        ast::Statement::Break(_) => {
            compile_break(statements);
            proof {
                lemma_push(s0, Statement::Nop(NOP_BREAK));
                assert(statements@ =~= s0 + seq![Statement::Nop(NOP_BREAK)]);
            }
            Ok(true)
        },
        ast::Statement::Continue(_) => {
            compile_continue(statements);
            proof {
                lemma_push(s0, Statement::Nop(NOP_CONTINUE));
                assert(statements@ =~= s0 + seq![Statement::Nop(NOP_CONTINUE)]);
            }
            Ok(true)
        },
        ast::Statement::Static(x) => {
            if main {
                match compile_static(x, symbol_alloc) {
                    Ok(()) => {},
                    Err(e) => return Err(e),
                }
            }
            assert(statements@ =~= s0 + Seq::<Statement>::empty());
            Ok(false)
        },
        ast::Statement::Const(c) => {
            if main {
                match symbol_alloc.alloc_const(&c.field, &c.expression) {
                    Ok(()) => {},
                    Err(e) => return Err(e),
                }
            }
            assert(statements@ =~= s0 + Seq::<Statement>::empty());
            Ok(false)
        },
        ast::Statement::Fn(f) => {
            if main {
                match compile_fn(f, register_alloc, symbol_alloc, fn_alloc, routines) {
                    Ok(()) => {},
                    Err(e) => return Err(e),
                }
            }
            assert(statements@ =~= s0 + Seq::<Statement>::empty());
            Ok(false)
        },
        ast::Statement::Let(l) => {
            match compile_let(l, register_alloc, symbol_alloc, fn_alloc, statements) {
                Ok(()) => {},
                Err(e) => return Err(e),
            }
            Ok(false)
        },
        ast::Statement::Scope(sc) => {
            match compile_scope(sc, main, register_alloc, symbol_alloc, fn_alloc, statements, routines) {
                Ok(()) => {},
                Err(e) => return Err(e),
            }
            Ok(false)
        },
        ast::Statement::Inline(x) => {
            match compile_inline(x, register_alloc, symbol_alloc, fn_alloc, statements) {
                Ok(()) => {},
                Err(e) => return Err(e),
            }
            Ok(false)
        },
        ast::Statement::If(x) => {
            match compile_if(x, false, main, register_alloc, symbol_alloc, fn_alloc, statements, routines) {
                Ok(()) => {},
                Err(e) => return Err(e),
            }
            Ok(false)
        },
        ast::Statement::IfElse(x) => {
            match compile_if_else(x, main, register_alloc, symbol_alloc, fn_alloc, statements, routines) {
                Ok(()) => {},
                Err(e) => return Err(e),
            }
            Ok(false)
        },
        ast::Statement::Loop(x) => {
            match compile_loop(x, main, register_alloc, symbol_alloc, fn_alloc, statements, routines) {
                Ok(()) => {},
                Err(e) => return Err(e),
            }
            Ok(false)
        },
        ast::Statement::For(x) => {
            match compile_for(x, main, register_alloc, symbol_alloc, fn_alloc, statements, routines) {
                Ok(()) => {},
                Err(e) => return Err(e),
            }
            Ok(false)
        },
        _ => {
            assert(statements@ =~= s0 + Seq::<Statement>::empty());
            Ok(false)
        },
    }
}

proof fn lemma_push(a: Seq<Statement>, s: Statement)
    requires
        jump_offset(s) is None,
    ensures
        extends_within(a, a.push(s), 0),
{
    assert(a.push(s) =~= a + seq![s]);
    assert(no_jumps(seq![s]));
    lemma_extends_code(a, seq![s]);
}

/// Compile a static: at the address of its offset where it has one (a
/// constant expression), in the static space otherwise.
fn compile_static(static_: &ast::Static, symbol_alloc: &mut Alloc) -> (r: Result<(), CompileError>)
    requires
        old(symbol_alloc).wf(),
    ensures
        final(symbol_alloc).wf(),
        match static_effect(old(symbol_alloc)@, *static_) {
            Ok(a) => r is Ok && final(symbol_alloc)@ == a,
            Err(e) => r == Err::<(), CompileError>(e),
        },
{
    match &static_.offset {
        Some(offset) => {
            let address = match const_expr(&offset.expression, symbol_alloc) {
                Some(a) => a,
                None => return Err(CompileError::NotConstant),
            };
            symbol_alloc.alloc_absolute(&static_.field, address)
        },
        None => symbol_alloc.alloc_static(&static_.field),
    }
}

/// Compile an expression statement; its value is dropped.
fn compile_inline(
    inline: &ast::Inline,
    register_alloc: &mut RegisterAlloc,
    symbol_alloc: &mut Alloc,
    fn_alloc: &FnAlloc,
    statements: &mut Vec<Statement>,
) -> (r: Result<(), CompileError>)
    ensures
        final(symbol_alloc)@ == old(symbol_alloc)@,
        final(symbol_alloc).wf() == old(symbol_alloc).wf(),
        match gen_void(inline.inner, old(symbol_alloc)@, old(register_alloc)@) {
            Ok(code) => r is Ok && final(statements)@ == old(statements)@ + code && final(register_alloc)@
                == old(register_alloc)@ && extends_within(old(statements)@, final(statements)@, 0),
            Err(e) => r == Err::<(), CompileError>(e),
        },
{
    proof {
        lemma_void_no_jumps(inline.inner, symbol_alloc@, register_alloc@);
        if let Ok(code) = gen_void(inline.inner, symbol_alloc@, register_alloc@) {
            lemma_extends_code(statements@, code);
        }
    }
    compile_expr_void(&inline.inner, symbol_alloc, fn_alloc, register_alloc, statements)
}

/// Compile a `let` statement: the variable is allocated in the stack, and
/// the value of the expression stored there.
fn compile_let(
    let_: &ast::Let,
    register_alloc: &mut RegisterAlloc,
    symbol_alloc: &mut Alloc,
    fn_alloc: &FnAlloc,
    statements: &mut Vec<Statement>,
) -> (r: Result<(), CompileError>)
    requires
        old(symbol_alloc).wf(),
    ensures
        final(symbol_alloc).wf(),
        r is Ok ==> final(register_alloc)@ == old(register_alloc)@ && extends_within(old(statements)@, final(statements)@, 0),
        match gen_let(*let_, old(symbol_alloc)@, fn_alloc@, old(register_alloc)@) {
            Ok((code, a)) => r is Ok && final(statements)@ == old(statements)@ + code && final(symbol_alloc)@ == a,
            Err(e) => r == Err::<(), CompileError>(e),
        },
{
    let address = match symbol_alloc.alloc_stack_field(&let_.field) {
        Ok(a) => a,
        Err(e) => return Err(e),
    };
    let layout = match Layout::from_type(&let_.field.type_) {
        Some(l) => l,
        None => return Err(CompileError::Unsupported),
    };
    proof {
        lemma_into_no_jumps(let_.expression, layout, symbol_alloc@, fn_alloc@, Pointer::Stack(address), register_alloc@);
        if let Ok(code) = gen_into(let_.expression, layout, symbol_alloc@, fn_alloc@, Pointer::Stack(address), register_alloc@) {
            lemma_extends_code(statements@, code);
        }
    }
    compile_expression_into_pointer(
        &let_.expression,
        &layout,
        symbol_alloc,
        fn_alloc,
        Pointer::Stack(address),
        register_alloc,
        statements,
    )
}

/// Compile a block: the symbols defined inside it are dropped at its end.
#[verifier::spinoff_prover]
#[verifier::rlimit(100)]
fn compile_scope(
    scope: &ast::Scope,
    main: bool,
    register_alloc: &mut RegisterAlloc,
    symbol_alloc: &mut Alloc,
    fn_alloc: &mut FnAlloc,
    statements: &mut Vec<Statement>,
    routines: &mut Vec<Routine>,
) -> (r: Result<(), CompileError>)
    requires
        old(symbol_alloc).wf(),
    ensures
        final(symbol_alloc)@ == old(symbol_alloc)@,
        final(symbol_alloc).wf(),
        r is Ok ==> {
            &&& final(register_alloc)@ == old(register_alloc)@
            &&& extends_within(old(statements)@, final(statements)@, 0)
            &&& routines_extend(old(routines)@, final(routines)@)
        },
        match gen_block(scope.inner@, main, old(symbol_alloc)@, old(fn_alloc)@, old(register_alloc)@, routine_views(old(routines)@)) {
            Ok(g) => r is Ok && final(statements)@ == old(statements)@ + g.code && final(fn_alloc)@ == g.fns && routine_views(
                final(routines)@,
            ) == g.routines,
            Err(e) => r == Err::<(), CompileError>(e),
        },
    decreases scope.inner@, 3int,
{
    let mut alloc = symbol_alloc.copy();
    compile_statements(&scope.inner, main, register_alloc, &mut alloc, fn_alloc, statements, routines)
}

/// The loop `body` once its last statement, the jump back to its start, is
/// added, with `break` placeholders turned into jumps past its end and
/// `continue` placeholders into jumps to its start.
pub open spec fn loop_code(body: Seq<Statement>) -> Seq<Statement> {
    let n = body.len() + 1;
    let b = body.push(Statement::Jmp { location: Location::Relative((-n) as i8) });
    Seq::new(
        n as nat,
        |i: int|
            if b[i] == Statement::Nop(NOP_BREAK) {
                Statement::Jmp { location: Location::Relative((n - i - 1) as i8) }
            } else if b[i] == Statement::Nop(NOP_CONTINUE) {
                Statement::Jmp { location: Location::Relative((-(i + 1)) as i8) }
            } else {
                b[i]
            },
    )
}

/// Compile the statements of a loop: `prefix`, the statements, `suffix`,
/// then the jump back (see [`loop_code`]).
#[verifier::spinoff_prover]
#[verifier::rlimit(100)]
fn compile_loop_statements(
    loop_: &Vec<ast::Statement>,
    main: bool,
    register_alloc: &mut RegisterAlloc,
    symbol_alloc: &Alloc,
    fn_alloc: &mut FnAlloc,
    prefix: Vec<Statement>,
    suffix: Vec<Statement>,
    statements: &mut Vec<Statement>,
    routines: &mut Vec<Routine>,
) -> (r: Result<(), CompileError>)
    requires
        symbol_alloc.wf(),
        jumps_within(prefix@, 0),
        no_jumps(suffix@),
    ensures
        r is Ok ==> {
            &&& final(register_alloc)@ == old(register_alloc)@
            &&& extends_within(old(statements)@, final(statements)@, 0)
            &&& routines_extend(old(routines)@, final(routines)@)
            &&& exists|code: Seq<Statement>| #[trigger] jumps_within(code, 0) && final(statements)@ == old(statements)@
                + loop_code(prefix@ + code + suffix@)
        },
        match gen_loop_body(loop_@, main, symbol_alloc@, old(fn_alloc)@, old(register_alloc)@, routine_views(old(routines)@), prefix@, suffix@) {
            Ok(g) => r is Ok && final(statements)@ == old(statements)@ + g.code && final(fn_alloc)@ == g.fns && routine_views(
                final(routines)@,
            ) == g.routines,
            Err(e) => r == Err::<(), CompileError>(e),
        },
    decreases loop_@, 3int,
{
    let mut body = prefix;
    let mut alloc = symbol_alloc.copy();
    match compile_statements(loop_, main, register_alloc, &mut alloc, fn_alloc, &mut body, routines) {
        Ok(()) => {},
        Err(e) => return Err(e),
    }
    let ghost code = body@.subrange(prefix@.len() as int, body@.len() as int);
    assert(body@ =~= prefix@ + code);
    let mut suffix = suffix;
    let ghost sfx = suffix@;
    body.append(&mut suffix);
    let ghost whole = body@;
    assert(whole =~= prefix@ + code + sfx);
    proof {
        lemma_within_cat(prefix@, code, 0);
        lemma_no_jumps_within(sfx);
        lemma_within_cat(prefix@ + code, sfx, 0);
    }
    let n = body.len();
    if n >= 128 {
        return Err(CompileError::Limit);
    }
    let back: i8 = (-(n as i16) - 1) as i8;
    assert(back == (-(n + 1)) as i8);
    body.push(Statement::Jmp { location: Location::Relative(back) });
    assert(body@ =~= whole.push(Statement::Jmp { location: Location::Relative((-(n + 1)) as i8) }));
    let len = body.len();
    let mut i: usize = 0;
    while i < len
        invariant
            len == n + 1,
            n < 128,
            whole.len() == n,
            body@.len() == len,
            i <= len,
            forall|j: int| 0 <= j < i ==> body@[j] == loop_code(whole)[j],
            forall|j: int| i <= j < len ==> body@[j] == whole.push(
                Statement::Jmp { location: Location::Relative((-(n + 1)) as i8) },
            )[j],
        decreases len - i,
    {
        let replacement = match &body[i] {
            Statement::Nop(k) => if *k == NOP_BREAK {
                Some(Statement::Jmp { location: Location::Relative((len - i - 1) as i8) })
            } else if *k == NOP_CONTINUE {
                Some(Statement::Jmp { location: Location::Relative(-((i + 1) as i8)) })
            } else {
                None
            },
            _ => None,
        };
        if let Some(s) = replacement {
            body.set(i, s);
        }
        i = i + 1;
    }
    assert(body@ =~= loop_code(whole));
    proof {
        lemma_loop_code_within(whole);
    }
    let ghost s0 = statements@;
    let mut body = body;
    statements.append(&mut body);
    proof {
        assert(statements@.subrange(s0.len() as int, statements@.len() as int) =~= loop_code(whole));
        assert(statements@.subrange(0, s0.len() as int) =~= s0);
        assert(jumps_within(code, 0));
        assert(statements@ == old(statements)@ + loop_code(prefix@ + code + sfx));
    }
    Ok(())
}

proof fn lemma_loop_code_within(body: Seq<Statement>)
    requires
        jumps_within(body, 0),
        body.len() < 128,
    ensures
        jumps_within(loop_code(body), 0),
{
    let n = body.len() + 1;
    let b = body.push(Statement::Jmp { location: Location::Relative((-n) as i8) });
    let c = loop_code(body);
    assert forall|i: int| 0 <= i < c.len() && #[trigger] jump_offset(c[i]) is Some implies 0 <= i
        + jump_offset(c[i])->0 + 1 <= c.len() by {
        if b[i] == Statement::Nop(NOP_BREAK) {
            assert(((n - i - 1) as i8) == n - i - 1);
        } else if b[i] == Statement::Nop(NOP_CONTINUE) {
            assert(((-(i + 1)) as i8) == -(i + 1));
        } else if i < body.len() {
            assert(b[i] == body[i]);
        } else {
            assert(((-n) as i8) == -n);
        }
    }
}

/// Compile a `loop` statement.
#[verifier::spinoff_prover]
#[verifier::rlimit(100)]
fn compile_loop(
    loop_: &ast::Loop,
    main: bool,
    register_alloc: &mut RegisterAlloc,
    symbol_alloc: &mut Alloc,
    fn_alloc: &mut FnAlloc,
    statements: &mut Vec<Statement>,
    routines: &mut Vec<Routine>,
) -> (r: Result<(), CompileError>)
    requires
        old(symbol_alloc).wf(),
    ensures
        final(symbol_alloc)@ == old(symbol_alloc)@,
        final(symbol_alloc).wf(),
        r is Ok ==> {
            &&& final(register_alloc)@ == old(register_alloc)@
            &&& extends_within(old(statements)@, final(statements)@, 0)
            &&& routines_extend(old(routines)@, final(routines)@)
            &&& exists|code: Seq<Statement>| #[trigger] jumps_within(code, 0) && final(statements)@ == old(statements)@
                + loop_code(code)
        },
        match gen_loop_body(loop_.inner@, main, old(symbol_alloc)@, old(fn_alloc)@, old(register_alloc)@, routine_views(old(routines)@), seq![], seq![]) {
            Ok(g) => r is Ok && final(statements)@ == old(statements)@ + g.code && final(fn_alloc)@ == g.fns && routine_views(
                final(routines)@,
            ) == g.routines,
            Err(e) => r == Err::<(), CompileError>(e),
        },
    decreases loop_.inner@, 4int,
{
    let prefix: Vec<Statement> = Vec::new();
    let suffix: Vec<Statement> = Vec::new();
    assert(jumps_within(prefix@, 0));
    assert(no_jumps(suffix@));
    let r = compile_loop_statements(&loop_.inner, main, register_alloc, symbol_alloc, fn_alloc, prefix, suffix, statements, routines);
    proof {
        if r is Ok {
            let code = choose|code: Seq<Statement>| #[trigger] jumps_within(code, 0) && statements@ == old(statements)@
                + loop_code(prefix@ + code + suffix@);
            assert(prefix@ + code + suffix@ =~= code);
        }
    }
    r
}

/// Compile a `for` statement: the variable is set to the start of the
/// range, and the loop runs while it differs from the end (one past the end
/// for `..=`), incrementing it after each turn.
#[verifier::spinoff_prover]
#[verifier::rlimit(100)]
fn compile_for(
    for_: &ast::For,
    main: bool,
    register_alloc: &mut RegisterAlloc,
    symbol_alloc: &mut Alloc,
    fn_alloc: &mut FnAlloc,
    statements: &mut Vec<Statement>,
    routines: &mut Vec<Routine>,
) -> (r: Result<(), CompileError>)
    requires
        old(symbol_alloc).wf(),
    ensures
        final(symbol_alloc)@ == old(symbol_alloc)@,
        final(symbol_alloc).wf(),
        r is Ok ==> {
            &&& final(register_alloc)@ == old(register_alloc)@
            &&& extends_within(old(statements)@, final(statements)@, 0)
            &&& routines_extend(old(routines)@, final(routines)@)
        },
        match gen_for(*for_, main, old(symbol_alloc)@, old(fn_alloc)@, old(register_alloc)@, routine_views(old(routines)@)) {
            Ok(g) => r is Ok && final(statements)@ == old(statements)@ + g.code && final(fn_alloc)@ == g.fns && routine_views(
                final(routines)@,
            ) == g.routines,
            Err(e) => r == Err::<(), CompileError>(e),
        },
    decreases for_.inner@, 4int,
{
    proof {
        lemma_view_len(register_alloc);
    }
    let ghost r0 = register_alloc@;
    let mut alloc = symbol_alloc.copy();
    let address = match alloc.alloc_stack_field(&for_.field) {
        Ok(a) => a,
        Err(e) => return Err(e),
    };
    assert(stack_field_effect(old(symbol_alloc)@, for_.field.ident, for_.field.type_) == Ok::<(AllocView, u16), CompileError>(
        (alloc@, address),
    ));
    let variable = Pointer::Stack(address);
    let ghost s0 = statements@;
    let (end_register, test_register) = match compile_for_head(for_, &alloc, address, fn_alloc, register_alloc, statements) {
        Ok(x) => x,
        Err(e) => return Err(e),
    };
    let ghost head = statements@.subrange(s0.len() as int, statements@.len() as int);
    assert(statements@ =~= s0 + head);
    let mut prefix: Vec<Statement> = Vec::new();
    prefix.push(
        Statement::Sub {
            left: Source::Register(end_register),
            right: Source::Pointer { base: variable, offset: None },
            destination: Destination::Register(test_register),
        },
    );
    prefix.push(Statement::JmpCmp { location: Location::Relative(1), source: Source::Register(test_register) });
    prefix.push(Statement::Nop(NOP_BREAK));
    let mut suffix: Vec<Statement> = Vec::new();
    suffix.push(
        Statement::Inc {
            source: Source::Pointer { base: variable, offset: None },
            destination: Destination::Pointer { base: variable, offset: None },
        },
    );
    proof {
        assert(prefix@ =~= for_prefix(end_register as int, test_register as int, address));
        assert(suffix@ =~= for_suffix(address));
        assert forall|n: int| 0 <= n < prefix@.len() && #[trigger] jump_offset(prefix@[n]) is Some implies 0 <= n
            + jump_offset(prefix@[n])->0 + 1 <= prefix@.len() by {
            assert(n == 1);
        }
        assert(no_jumps(suffix@));
    }
    let ghost s5 = statements@;
    match compile_loop_statements(&for_.inner, main, register_alloc, &alloc, fn_alloc, prefix, suffix, statements, routines) {
        Ok(()) => {},
        Err(e) => return Err(e),
    }
    proof {
        lemma_extends_trans(s0, s5, statements@);
        let code = statements@.subrange(s5.len() as int, statements@.len() as int);
        assert(statements@ =~= s5 + code);
        assert(statements@ =~= old(statements)@ + (head + code));
    }
    register_alloc.free(end_register);
    assert(register_alloc@ =~= r0);
    Ok(())
}

/// Statements of a `for` statement before its loop (see [`for_head`]);
/// returns the end register, left allocated, and the test register.
#[verifier::spinoff_prover]
#[verifier::rlimit(100)]
fn compile_for_head(
    for_: &ast::For,
    alloc: &Alloc,
    address: u16,
    fn_alloc: &FnAlloc,
    register_alloc: &mut RegisterAlloc,
    statements: &mut Vec<Statement>,
) -> (r: Result<(usize, usize), CompileError>)
    ensures
        match for_head(*for_, alloc@, address, old(register_alloc)@) {
            Ok((head, er, tr)) => r == Ok::<(usize, usize), CompileError>((er as usize, tr as usize))
                && final(statements)@ == old(statements)@ + head && final(register_alloc)@ == old(register_alloc)@.update(er, true)
                && extends_within(old(statements)@, final(statements)@, 0) && 0 <= er < 64 && !old(register_alloc)@[er],
            Err(e) => r == Err::<(usize, usize), CompileError>(e),
        },
{
    proof {
        lemma_view_len(register_alloc);
    }
    let ghost r0 = register_alloc@;
    let variable = Pointer::Stack(address);
    let ghost s0 = statements@;
    let init = match compile_expr(&for_.range.left, alloc, fn_alloc, register_alloc, statements) {
        Ok(s) => s,
        Err(e) => return Err(e),
    };
    proof {
        lemma_expr_no_jumps(for_.range.left, alloc@, r0);
        lemma_extends_code(s0, statements@.subrange(s0.len() as int, statements@.len() as int));
        assert(s0 + statements@.subrange(s0.len() as int, statements@.len() as int) =~= statements@);
        assert(freed(register_alloc@, source_regs(init)) =~= r0);
    }
    free_source_registers(&init, register_alloc);
    let ghost s1 = statements@;
    statements.push(Statement::Ld { source: init, destination: Destination::Pointer { base: variable, offset: None } });
    proof {
        lemma_push(s1, statements@.last());
        assert(s1.push(statements@.last()) =~= statements@);
        lemma_extends_trans(s0, s1, statements@);
    }
    let ghost s2 = statements@;
    let end = match compile_expr(&for_.range.right, alloc, fn_alloc, register_alloc, statements) {
        Ok(s) => s,
        Err(e) => return Err(e),
    };
    proof {
        lemma_expr_no_jumps(for_.range.right, alloc@, r0);
        lemma_extends_code(s2, statements@.subrange(s2.len() as int, statements@.len() as int));
        assert(s2 + statements@.subrange(s2.len() as int, statements@.len() as int) =~= statements@);
        lemma_extends_trans(s0, s2, statements@);
    }
    let ghost r1 = register_alloc@;
    let end_register = match alloc_reg(register_alloc) {
        Ok(r) => r,
        Err(e) => return Err(e),
    };
    let ghost s3 = statements@;
    statements.push(Statement::Ld { source: end.clone(), destination: Destination::Register(end_register) });
    proof {
        lemma_push(s3, statements@.last());
        assert(s3.push(statements@.last()) =~= statements@);
        lemma_extends_trans(s0, s3, statements@);
        lemma_free_from(r1, 0);
        assert(!r1[end_register as int]);
        assert(freed(register_alloc@, source_regs(end)) =~= r0.update(end_register as int, true));
    }
    free_source_registers(&end, register_alloc);
    let ghost r2 = register_alloc@;
    if for_.range.eq.is_some() {
        let ghost s4 = statements@;
        statements.push(Statement::Inc { source: Source::Register(end_register), destination: Destination::Register(end_register) });
        proof {
            lemma_push(s4, statements@.last());
            assert(s4.push(statements@.last()) =~= statements@);
            lemma_extends_trans(s0, s4, statements@);
        }
    }
    let test_register = match alloc_reg(register_alloc) {
        Ok(r) => r,
        Err(e) => return Err(e),
    };
    proof {
        lemma_free_from(r2, 0);
    }
    register_alloc.free(test_register);
    assert(register_alloc@ =~= r2);
    proof {
        let head = statements@.subrange(s0.len() as int, statements@.len() as int);
        assert(statements@ =~= s0 + head);
    }
    Ok((end_register, test_register))
}

/// Compile an `if` statement: a jump past the block where the condition is
/// zero, then the block. With `has_else`, the jump lands one statement
/// further, past the jump over the `else` block.
#[verifier::spinoff_prover]
#[verifier::rlimit(100)]
fn compile_if(
    if_: &ast::If,
    has_else: bool,
    main: bool,
    register_alloc: &mut RegisterAlloc,
    symbol_alloc: &mut Alloc,
    fn_alloc: &mut FnAlloc,
    statements: &mut Vec<Statement>,
    routines: &mut Vec<Routine>,
) -> (r: Result<(), CompileError>)
    requires
        old(symbol_alloc).wf(),
    ensures
        final(symbol_alloc)@ == old(symbol_alloc)@,
        final(symbol_alloc).wf(),
        r is Ok ==> {
            &&& final(register_alloc)@ == old(register_alloc)@
            &&& extends_within(old(statements)@, final(statements)@, if has_else { 1int } else { 0int })
            &&& routines_extend(old(routines)@, final(routines)@)
        },
        match gen_if(*if_, has_else, main, old(symbol_alloc)@, old(fn_alloc)@, old(register_alloc)@, routine_views(old(routines)@)) {
            Ok(g) => r is Ok && final(statements)@ == old(statements)@ + g.code && final(fn_alloc)@ == g.fns && routine_views(
                final(routines)@,
            ) == g.routines,
            Err(e) => r == Err::<(), CompileError>(e),
        },
    decreases if_.inner@, 3int,
{
    proof {
        lemma_view_len(register_alloc);
    }
    let ghost r0 = register_alloc@;
    let ghost s0 = statements@;
    let source = match compile_expr(&if_.expression, symbol_alloc, fn_alloc, register_alloc, statements) {
        Ok(s) => s,
        Err(e) => return Err(e),
    };
    proof {
        lemma_expr_no_jumps(if_.expression, symbol_alloc@, r0);
        assert(freed(register_alloc@, source_regs(source)) =~= r0);
    }
    let ghost cond = statements@.subrange(s0.len() as int, statements@.len() as int);
    assert(s0 + cond =~= statements@);
    free_source_registers(&source, register_alloc);
    let mut if_statements: Vec<Statement> = Vec::new();
    let mut alloc = symbol_alloc.copy();
    match compile_statements(&if_.inner, main, register_alloc, &mut alloc, fn_alloc, &mut if_statements, routines) {
        Ok(()) => {},
        Err(e) => return Err(e),
    }
    let ghost block = if_statements@;
    assert(if_statements@.subrange(0, 0) =~= Seq::<Statement>::empty());
    assert(if_statements@.subrange(0, if_statements@.len() as int) =~= if_statements@);
    let extra: usize = if has_else {
        1
    } else {
        0
    };
    if if_statements.len() > 126 {
        return Err(CompileError::Limit);
    }
    let jump = if_statements.len() + extra;
    let ghost s1 = statements@;
    statements.push(Statement::JmpCmpNot { location: Location::Relative(jump as i8), source });
    let ghost s2 = statements@;
    statements.append(&mut if_statements);
    proof {
        let new = statements@.subrange(s0.len() as int, statements@.len() as int);
        let j = Statement::JmpCmpNot { location: Location::Relative(jump as i8), source };
        assert(new =~= cond + seq![j] + block);
        assert(statements@.subrange(0, s0.len() as int) =~= s0);
        lemma_no_jumps_within(cond);
        let ex: int = if has_else { 1 } else { 0 };
        assert(jumps_within(seq![j] + block, ex)) by {
            let t = seq![j] + block;
            assert forall|n: int| 0 <= n < t.len() && #[trigger] jump_offset(t[n]) is Some implies 0 <= n
                + jump_offset(t[n])->0 + 1 <= t.len() + ex by {
                if n > 0 {
                    assert(t[n] == block[n - 1]);
                }
            }
        }
        lemma_within_cat_ext(cond, seq![j] + block, ex);
        assert(cond + (seq![j] + block) =~= new);
    }
    Ok(())
}

proof fn lemma_within_cat_ext(a: Seq<Statement>, b: Seq<Statement>, extra: int)
    requires
        jumps_within(a, 0),
        jumps_within(b, extra),
        extra >= 0,
    ensures
        jumps_within(a + b, extra),
{
    lemma_within_cat(a, b, extra);
}

/// Compile an `if`/`else` statement: the `if` statement, a jump past the
/// `else` block, then the `else` block.
#[verifier::spinoff_prover]
#[verifier::rlimit(100)]
fn compile_if_else(
    if_else: &ast::IfElse,
    main: bool,
    register_alloc: &mut RegisterAlloc,
    symbol_alloc: &mut Alloc,
    fn_alloc: &mut FnAlloc,
    statements: &mut Vec<Statement>,
    routines: &mut Vec<Routine>,
) -> (r: Result<(), CompileError>)
    requires
        old(symbol_alloc).wf(),
    ensures
        final(symbol_alloc)@ == old(symbol_alloc)@,
        final(symbol_alloc).wf(),
        r is Ok ==> {
            &&& final(register_alloc)@ == old(register_alloc)@
            &&& extends_within(old(statements)@, final(statements)@, 0)
            &&& routines_extend(old(routines)@, final(routines)@)
        },
        match gen_if_else(*if_else, main, old(symbol_alloc)@, old(fn_alloc)@, old(register_alloc)@, routine_views(old(routines)@)) {
            Ok(g) => r is Ok && final(statements)@ == old(statements)@ + g.code && final(fn_alloc)@ == g.fns && routine_views(
                final(routines)@,
            ) == g.routines,
            Err(e) => r == Err::<(), CompileError>(e),
        },
    decreases *if_else, 0int,
{
    let mut else_statements: Vec<Statement> = Vec::new();
    let mut else_alloc = symbol_alloc.copy();
    let ghost q0 = routines@;
    match compile_statements(&if_else.else_.inner, main, register_alloc, &mut else_alloc, fn_alloc, &mut else_statements, routines) {
        Ok(()) => {},
        Err(e) => return Err(e),
    }
    let ghost q1 = routines@;
    let ghost els = else_statements@;
    assert(else_statements@.subrange(0, 0) =~= Seq::<Statement>::empty());
    assert(else_statements@.subrange(0, else_statements@.len() as int) =~= else_statements@);
    let mut if_statements: Vec<Statement> = Vec::new();
    let mut if_alloc = symbol_alloc.copy();
    match compile_if(&if_else.if_, true, main, register_alloc, &mut if_alloc, fn_alloc, &mut if_statements, routines) {
        Ok(()) => {},
        Err(e) => return Err(e),
    }
    let ghost ifs = if_statements@;
    assert(if_statements@.subrange(0, 0) =~= Seq::<Statement>::empty());
    assert(if_statements@.subrange(0, if_statements@.len() as int) =~= if_statements@);
    if else_statements.len() > 127 {
        return Err(CompileError::Limit);
    }
    let over = Statement::Jmp { location: Location::Relative(else_statements.len() as i8) };
    assert((else_statements.len() as i8) as int == els.len());
    let ghost s0 = statements@;
    statements.append(&mut if_statements);
    statements.push(over);
    statements.append(&mut else_statements);
    proof {
        lemma_routines_trans(q0, q1, routines@);
        let new = statements@.subrange(s0.len() as int, statements@.len() as int);
        assert(new =~= ifs + seq![over] + els);
        assert(statements@.subrange(0, s0.len() as int) =~= s0);
        assert(jumps_within(ifs, 1));
        assert(jumps_within(els, 0));
        assert(jumps_within(ifs + seq![over] + els, 0)) by {
            let t = ifs + seq![over] + els;
            let h = ifs + seq![over];
            assert forall|n: int| 0 <= n < t.len() && #[trigger] jump_offset(t[n]) is Some implies 0 <= n
                + jump_offset(t[n])->0 + 1 <= t.len() by {
                if n < ifs.len() {
                    assert(t[n] == ifs[n]);
                } else if n == ifs.len() {
                    assert(t[n] == over);
                } else {
                    assert(t[n] == els[n - h.len()]);
                }
            }
        }
    }
    Ok(())
}

/// Compile a function into a routine of its own, at the index where it is
/// appended to `routines`. Its arguments are allocated in a new stack frame;
/// statics, consts and functions keep their scope.
#[verifier::spinoff_prover]
#[verifier::rlimit(100)]
fn compile_fn(
    fn_: &ast::Function,
    register_alloc: &mut RegisterAlloc,
    symbol_alloc: &mut Alloc,
    fn_alloc: &mut FnAlloc,
    routines: &mut Vec<Routine>,
) -> (r: Result<(), CompileError>)
    requires
        old(symbol_alloc).wf(),
    ensures
        final(symbol_alloc)@ == old(symbol_alloc)@,
        final(symbol_alloc).wf(),
        r is Ok ==> {
            &&& final(register_alloc)@ == old(register_alloc)@
            &&& routines_extend(old(routines)@, final(routines)@)
        },
        match gen_fn(*fn_, old(symbol_alloc)@, old(fn_alloc)@, old(register_alloc)@, routine_views(old(routines)@)) {
            Ok((f, q)) => r is Ok && final(fn_alloc)@ == f && routine_views(final(routines)@) == q,
            Err(e) => r == Err::<(), CompileError>(e),
        },
    decreases fn_.inner@, 4int,
{
    let mut alloc = symbol_alloc.copy();
    alloc.clear_stack();
    let ghost a0 = alloc@;
    assert(a0 == (AllocView { stack: seq![], stack_size: 0, ..old(symbol_alloc)@ }));
    let mut args: Vec<Layout> = Vec::new();
    if let Some(fn_args) = &fn_.fn_args {
        match allocate_group(&fn_args.args.head, &mut alloc, &mut args) {
            Ok(()) => {},
            Err(e) => return Err(e),
        }
        let ghost a1 = alloc@;
        let ghost args1 = args@;
        assert(fn_args.args.tail@.subrange(0, 0) =~= Seq::<(Token, ast::FieldGroup)>::empty());
        let mut i: usize = 0;
        while i < fn_args.args.tail.len()
            invariant
                alloc.wf(),
                symbol_alloc.wf(),
                symbol_alloc@ == old(symbol_alloc)@,
                register_alloc@ == old(register_alloc)@,
                routines@ == old(routines)@,
                fn_alloc@ == old(fn_alloc)@,
                i <= fn_args.args.tail@.len(),
                fn_.fn_args == Some(*fn_args),
                a0 == (AllocView { stack: seq![], stack_size: 0, ..old(symbol_alloc)@ }),
                fn_args_effect(fn_.fn_args, a0) == groups_args(fn_args.args.tail@, a1, args1),
                groups_args(fn_args.args.tail@.subrange(0, i as int), a1, args1) == Ok::<(AllocView, Seq<Layout>), CompileError>(
                    (alloc@, args@),
                ),
            decreases fn_args.args.tail.len() - i,
        {
            let ghost next = fn_args.args.tail@.subrange(0, i + 1);
            assert(next.drop_last() =~= fn_args.args.tail@.subrange(0, i as int));
            assert(next.last() == fn_args.args.tail@[i as int]);
            match allocate_group(&fn_args.args.tail[i].1, &mut alloc, &mut args) {
                Ok(()) => {},
                Err(e) => {
                    proof {
                        lemma_groups_args_err(fn_args.args.tail@, a1, args1, i + 1);
                    }
                    return Err(e);
                },
            }
            i = i + 1;
        }
        assert(fn_args.args.tail@.subrange(0, i as int) =~= fn_args.args.tail@);
    }
    assert(fn_args_effect(fn_.fn_args, a0) == Ok::<(AllocView, Seq<Layout>), CompileError>((alloc@, args@)));
    let ret = match &fn_.type_ {
        Some(t) => match Layout::from_type(t) {
            Some(l) => Some(l),
            None => return Err(CompileError::Unsupported),
        },
        None => None,
    };
    assert(ret_layout(fn_.type_) == Ok::<Option<Layout>, CompileError>(ret));
    let name = copy_text(fn_.ident.text);
    let routine = routines.len();
    let ghost sig = FnSigView { name: fn_.ident.text@, routine, args: args@, ret };
    match fn_alloc.allocate(FnSig { name, routine, args, ret }) {
        Ok(()) => {},
        Err(e) => return Err(e),
    }
    assert(fn_alloc@ == old(fn_alloc)@.push(sig));
    let mut body: Vec<Statement> = Vec::new();
    let ghost q0 = routines@;
    match compile_statements(&fn_.inner, false, register_alloc, &mut alloc, fn_alloc, &mut body, routines) {
        Ok(()) => {},
        Err(e) => return Err(e),
    }
    let ghost b = body@;
    assert(body@.subrange(0, 0) =~= Seq::<Statement>::empty());
    assert(body@.subrange(0, body@.len() as int) =~= body@);
    body.push(Statement::Ret);
    proof {
        assert forall|n: int| 0 <= n < body@.len() && #[trigger] jump_offset(body@[n]) is Some implies 0 <= n
            + jump_offset(body@[n])->0 + 1 <= body@.len() by {
            assert(body@[n] == b[n]);
        }
    }
    let ghost q1 = routines@;
    let routine_value = Routine { debug_name: Some(copy_text(fn_.ident.text)), statements: body };
    let ghost rv = routine_value@;
    routines.push(routine_value);
    proof {
        assert(routines@.subrange(0, q1.len() as int) =~= q1);
        assert(routines_extend(q1, routines@));
        lemma_routines_trans(old(routines)@, q1, routines@);
        assert(routine_views(routines@) =~= routine_views(q1).push(rv));
        assert(b =~= Seq::<Statement>::empty() + b);
    }
    Ok(())
}

/// Allocate the arguments of a field group in the stack, and record their
/// layouts.
fn allocate_group(group: &ast::FieldGroup, alloc: &mut Alloc, args: &mut Vec<Layout>) -> (r: Result<(), CompileError>)
    requires
        old(alloc).wf(),
    ensures
        final(alloc).wf(),
        match group_args(*group, old(alloc)@, old(args)@) {
            Ok((a, l)) => r is Ok && final(alloc)@ == a && final(args)@ == l,
            Err(e) => r == Err::<(), CompileError>(e),
        },
{
    let layout = match Layout::from_type(&group.type_) {
        Some(l) => l,
        None => return Err(CompileError::Unsupported),
    };
    match alloc.alloc_stack_named(&group.idents.head, &group.type_) {
        Ok(_) => {},
        Err(e) => return Err(e),
    }
    args.push(layout.clone());
    let ghost a1 = alloc@;
    let ghost args1 = args@;
    assert(group.idents.tail@.subrange(0, 0) =~= Seq::<(Token, Token)>::empty());
    let mut i: usize = 0;
    while i < group.idents.tail.len()
        invariant
            alloc.wf(),
            i <= group.idents.tail@.len(),
            type_layout(group.type_) == Some(layout),
            group_args(*group, old(alloc)@, old(args)@) == idents_args(group.idents.tail@, group.type_, layout, a1, args1),
            idents_args(group.idents.tail@.subrange(0, i as int), group.type_, layout, a1, args1) == Ok::<
                (AllocView, Seq<Layout>),
                CompileError,
            >((alloc@, args@)),
        decreases group.idents.tail.len() - i,
    {
        let ghost next = group.idents.tail@.subrange(0, i + 1);
        assert(next.drop_last() =~= group.idents.tail@.subrange(0, i as int));
        assert(next.last() == group.idents.tail@[i as int]);
        match alloc.alloc_stack_named(&group.idents.tail[i].1, &group.type_) {
            Ok(_) => {},
            Err(e) => {
                proof {
                    lemma_idents_args_err(group.idents.tail@, group.type_, layout, a1, args1, i + 1);
                }
                return Err(e);
            },
        }
        args.push(layout.clone());
        i = i + 1;
    }
    assert(group.idents.tail@.subrange(0, i as int) =~= group.idents.tail@);
    Ok(())
}

proof fn lemma_idents_args_err<'a>(
    v: Seq<(Token<'a>, Token<'a>)>,
    t: Type<'a>,
    l: Layout,
    a: AllocView,
    args: Seq<Layout>,
    k: int,
)
    requires
        0 <= k <= v.len(),
        idents_args(v.subrange(0, k), t, l, a, args) is Err,
    ensures
        idents_args(v, t, l, a, args) == idents_args(v.subrange(0, k), t, l, a, args),
    decreases v.len() - k,
{
    if k < v.len() {
        assert(v.subrange(0, k + 1).drop_last() =~= v.subrange(0, k));
        lemma_idents_args_err(v, t, l, a, args, k + 1);
    } else {
        assert(v.subrange(0, k) =~= v);
    }
}

proof fn lemma_groups_args_err<'a>(v: Seq<(Token<'a>, ast::FieldGroup<'a>)>, a: AllocView, args: Seq<Layout>, k: int)
    requires
        0 <= k <= v.len(),
        groups_args(v.subrange(0, k), a, args) is Err,
    ensures
        groups_args(v, a, args) == groups_args(v.subrange(0, k), a, args),
    decreases v.len() - k,
{
    if k < v.len() {
        assert(v.subrange(0, k + 1).drop_last() =~= v.subrange(0, k));
        lemma_groups_args_err(v, a, args, k + 1);
    } else {
        assert(v.subrange(0, k) =~= v);
    }
}

fn copy_text(v: &[u8]) -> (r: Vec<u8>)
    ensures
        r@ == v@,
{
    let mut r: Vec<u8> = Vec::new();
    let mut i: usize = 0;
    while i < v.len()
        invariant
            i <= v@.len(),
            r@ == v@.subrange(0, i as int),
        decreases v.len() - i,
    {
        r.push(v[i]);
        i = i + 1;
        assert(r@ =~= v@.subrange(0, i as int));
    }
    assert(v@.subrange(0, i as int) =~= v@);
    r
}

/// Compile the statements of a program: statics, consts and functions are
/// compiled at this level.
pub fn compile_program(
    ast_statements: &Vec<ast::Statement>,
    register_alloc: &mut RegisterAlloc,
    symbol_alloc: &mut Alloc,
    fn_alloc: &mut FnAlloc,
    statements: &mut Vec<Statement>,
    routines: &mut Vec<Routine>,
) -> (r: Result<(), CompileError>)
    requires
        old(symbol_alloc).wf(),
    ensures
        r is Ok ==> {
            &&& final(register_alloc)@ == old(register_alloc)@
            &&& extends_within(old(statements)@, final(statements)@, 0)
            &&& routines_extend(old(routines)@, final(routines)@)
            &&& final(symbol_alloc).wf()
        },
        match gen_block(ast_statements@, true, old(symbol_alloc)@, old(fn_alloc)@, old(register_alloc)@, routine_views(old(routines)@)) {
            Ok(g) => r is Ok && final(statements)@ == old(statements)@ + g.code && final(symbol_alloc)@ == g.syms && final(fn_alloc)@
                == g.fns && routine_views(final(routines)@) == g.routines,
            Err(e) => r == Err::<(), CompileError>(e),
        },
{
    compile_statements(ast_statements, true, register_alloc, symbol_alloc, fn_alloc, statements, routines)
}

} // verus!
