//! Constant evaluation and compilation of expressions.
use crate::ast::{Expression, Path};
use crate::ir::alloc_register::{lemma_view_len, RegisterAlloc};
use crate::ir::allocation::{
    const_env, find_fn, lookup, space_pointer, Alloc, AllocView, FnAlloc, FnSigView, Space, SymbolView,
};
use crate::ir::layout::{layout_size, same_layout, Layout};
use crate::ir::statement::{
    pointer_address, with_address, Address, Destination, Pointer, Register, Source, Statement,
};
use crate::ir::optimize::jump_offset;
use crate::ir::CompileError;
use crate::lex::{documented_keyword, Token, TokenKind};
use vstd::arithmetic::power2::pow2;
use vstd::prelude::*;

verus! {

// numeric literals

/// Value of an ASCII digit in the given radix.
pub open spec fn digit_value(b: u8, radix: nat) -> Option<nat> {
    let d: int = if 48 <= b <= 57 {
        b - 48
    } else if 97 <= b <= 122 {
        b - 97 + 10
    } else if 65 <= b <= 90 {
        b - 65 + 10
    } else {
        36
    };
    if d < radix {
        Some(d as nat)
    } else {
        None
    }
}

/// Value of a non-empty string of digits in the given radix.
pub open spec fn digits_value(s: Seq<u8>, radix: nat) -> Option<nat>
    decreases s.len(),
{
    if s.len() == 0 {
        None
    } else if s.len() == 1 {
        digit_value(s[0], radix)
    } else {
        match (digits_value(s.drop_last(), radix), digit_value(s.last(), radix)) {
            (Some(v), Some(d)) => Some(v * radix + d),
            _ => None,
        }
    }
}

/// The value, if it fits in 16 bits.
pub open spec fn to_u16(v: Option<nat>) -> Option<u16> {
    match v {
        Some(n) => if n <= 0xffff {
            Some(n as u16)
        } else {
            None
        },
        None => None,
    }
}

/// Value of a numeric literal: `0x` hexadecimal, a leading `0` octal,
/// decimal otherwise.
pub open spec fn literal_value(s: Seq<u8>) -> Option<u16> {
    if s.len() >= 2 && s[0] == 48 && s[1] == 120 {
        to_u16(digits_value(s.subrange(2, s.len() as int), 16))
    } else if s.len() > 1 && s[0] == 48 {
        to_u16(digits_value(s.subrange(1, s.len() as int), 8))
    } else {
        to_u16(digits_value(s, 10))
    }
}

/// Value of a numeric literal: `0x` hexadecimal, decimal when it starts
/// with a digit.
pub open spec fn numeric_value(s: Seq<u8>) -> Option<u16> {
    if s.len() >= 2 && s[0] == 48 && s[1] == 120 {
        to_u16(digits_value(s.subrange(2, s.len() as int), 16))
    } else if s.len() > 0 && 48 <= s[0] <= 57 {
        to_u16(digits_value(s, 10))
    } else {
        None
    }
}

fn digit(b: u8, radix: u8) -> (r: Option<u8>)
    requires
        2 <= radix <= 36,
    ensures
        r matches Some(d) ==> digit_value(b, radix as nat) == Some(d as nat) && d < radix,
        r is None ==> digit_value(b, radix as nat) is None,
{
    let d: u8 = if 48 <= b && b <= 57 {
        b - 48
    } else if 97 <= b && b <= 122 {
        b - 97 + 10
    } else if 65 <= b && b <= 90 {
        b - 65 + 10
    } else {
        36
    };
    if d < radix {
        Some(d)
    } else {
        None
    }
}

/// Value of `s[from..]` read as digits in the given radix, if it fits in 16 bits.
fn parse_digits(s: &[u8], from: usize, radix: u8) -> (r: Option<u16>)
    requires
        2 <= radix <= 16,
        from <= s@.len(),
    ensures
        r == to_u16(digits_value(s@.subrange(from as int, s@.len() as int), radix as nat)),
{
    let len = s.len();
    if from == len {
        return None;
    }
    let mut value: u32 = 0;
    let mut i = from;
    while i < len
        invariant
            2 <= radix <= 16,
            from <= i <= len == s@.len(),
            from < len,
            i == from ==> value == 0,
            i > from ==> digits_value(s@.subrange(from as int, i as int), radix as nat) == Some(
                value as nat,
            ),
            value <= 0xffff,
        decreases len - i,
    {
        let d = match digit(s[i], radix) {
            Some(d) => d,
            None => {
                proof {
                    lemma_digits_none(s@, from as int, i as int, len as int, radix as nat);
                }
                return None;
            },
        };
        assert(value * (radix as u32) <= 0xffff * 16) by (nonlinear_arith)
            requires
                value <= 0xffff,
                radix <= 16,
        ;
        let next: u32 = value * (radix as u32) + d as u32;
        let ghost prefix = s@.subrange(from as int, i + 1);
        assert(prefix.drop_last() =~= s@.subrange(from as int, i as int));
        assert(prefix.last() == s@[i as int]);
        assert(digits_value(prefix, radix as nat) == Some(next as nat)) by {
            if i == from {
                assert(prefix.len() == 1);
                assert(prefix[0] == s@[i as int]);
            } else {
                assert(digits_value(prefix.drop_last(), radix as nat) == Some(value as nat));
            }
        }
        if next > 0xffff {
            proof {
                lemma_digits_big(s@, from as int, i + 1, len as int, radix as nat, next as nat);
            }
            return None;
        }
        value = next;
        i = i + 1;
    }
    Some(value as u16)
}

proof fn lemma_digits_none(s: Seq<u8>, from: int, i: int, len: int, radix: nat)
    requires
        0 <= from <= i < len <= s.len(),
        radix >= 2,
        digit_value(s[i], radix) is None,
    ensures
        digits_value(s.subrange(from, len), radix) is None,
    decreases len - i,
{
    let t = s.subrange(from, len);
    if len == i + 1 {
        assert(t.last() == s[i]);
    } else {
        lemma_digits_none(s, from, i, len - 1, radix);
        assert(t.drop_last() =~= s.subrange(from, len - 1));
    }
}

proof fn lemma_digits_big(s: Seq<u8>, from: int, j: int, len: int, radix: nat, v: nat)
    requires
        0 <= from < j <= len <= s.len(),
        radix >= 2,
        digits_value(s.subrange(from, j), radix) == Some(v),
        v > 0xffff,
    ensures
        to_u16(digits_value(s.subrange(from, len), radix)) is None,
    decreases len - j,
{
    if j < len {
        let t = s.subrange(from, j + 1);
        assert(t.drop_last() =~= s.subrange(from, j));
        match digit_value(s[j], radix) {
            Some(d) => {
                assert(t.last() == s[j]);
                assert(v * radix + d > 0xffff) by (nonlinear_arith)
                    requires v > 0xffff, radix >= 2;
                lemma_digits_big(s, from, j + 1, len, radix, v * radix + d);
            },
            None => {
                lemma_digits_none(s, from, j, len, radix);
            },
        }
    } else {
        assert(s.subrange(from, j) =~= s.subrange(from, len));
    }
}

/// Value of a literal token (see [`literal_value`]).
pub fn literal(text: &[u8]) -> (r: Option<u16>)
    ensures
        r == literal_value(text@),
{
    let n = text.len();
    if n >= 2 && text[0] == 48 && text[1] == 120 {
        parse_digits(text, 2, 16)
    } else if n > 1 && text[0] == 48 {
        parse_digits(text, 1, 8)
    } else {
        let r = parse_digits(text, 0, 10);
        assert(text@.subrange(0, n as int) =~= text@);
        r
    }
}

/// Value of a numeric literal token (see [`numeric_value`]): decimal, `0x`
/// hexadecimal or leading-`0` octal. A token that is not a number (a string
/// literal, say) or whose value does not fit in 16 bits gives `None`.
pub fn compute_literal_as_numeric(lit: &Token) -> (r: Option<u16>)
    ensures
        r == numeric_value(lit.text@),
{
    let text = lit.text;
    let n = text.len();
    if n >= 2 && text[0] == 48 && text[1] == 120 {
        parse_digits(text, 2, 16)
    } else if n > 0 && 48 <= text[0] && text[0] <= 57 {
        let r = parse_digits(text, 0, 10);
        assert(text@.subrange(0, n as int) =~= text@);
        r
    } else {
        None
    }
}


// constant expressions

/// Value of a binary operator on 16-bit constants; `None` where the
/// operation overflows, divides by zero, or the operator has no constant
/// value.
pub open spec fn const_binary(k: TokenKind, a: u16, b: u16) -> Option<u16> {
    match k {
        TokenKind::Plus => if a + b <= 0xffff {
            Some((a + b) as u16)
        } else {
            None
        },
        TokenKind::Minus => if a >= b {
            Some((a - b) as u16)
        } else {
            None
        },
        TokenKind::Star => if a * b <= 0xffff {
            Some((a * b) as u16)
        } else {
            None
        },
        TokenKind::Slash => if b != 0 {
            Some(a / b)
        } else {
            None
        },
        TokenKind::Ampersand => Some(a & b),
        TokenKind::Pipe => Some(a | b),
        TokenKind::Caret => Some(a ^ b),
        TokenKind::LessLess => if b < 16 {
            Some(a << b)
        } else {
            None
        },
        TokenKind::GreatGreat => if b < 16 {
            Some(a >> b)
        } else {
            None
        },
        _ => None,
    }
}

/// Names of symbols as `a::b::c`: the path's identifiers joined by `::`.
pub open spec fn path_name<'a>(head: Token<'a>, tail: Seq<(Token<'a>, Token<'a>)>) -> Seq<u8>
    decreases tail.len(),
{
    if tail.len() == 0 {
        head.text@
    } else {
        path_name(head, tail.drop_last()) + seq![58u8, 58u8] + tail.last().1.text@
    }
}

/// Symbol name of a path.
pub open spec fn symbol_name<'a>(p: Path<'a>) -> Seq<u8> {
    path_name(p.head, p.tail@)
}

/// Value of a constant expression. Literals are read with
/// [`literal_value`] where `octal`, with [`numeric_value`] otherwise; a path
/// has the value that `env` gives its name.
pub open spec fn const_eval<'a>(e: Expression<'a>, octal: bool, env: spec_fn(Seq<u8>) -> Option<u16>) -> Option<u16>
    decreases e,
{
    match e {
        Expression::Lit(t) => if octal {
            literal_value(t.text@)
        } else {
            numeric_value(t.text@)
        },
        Expression::Path(p) => env(symbol_name(p)),
        Expression::Parenthesis(p) => const_eval(p.inner, octal, env),
        Expression::Unary(u) => if u.op.kind == TokenKind::Tilde {
            match const_eval(u.inner, octal, env) {
                Some(v) => Some(!v),
                None => None,
            }
        } else {
            None
        },
        Expression::Binary(b) => match (const_eval(b.left, octal, env), const_eval(b.right, octal, env)) {
            (Some(x), Some(y)) => const_binary(b.op.kind, x, y),
            _ => None,
        },
        Expression::Lisp(l) => match (const_eval(l.left, octal, env), const_eval(l.right, octal, env)) {
            (Some(x), Some(y)) => const_binary(l.op.kind, x, y),
            _ => None,
        },
        _ => None,
    }
}

/// No symbol has a constant value.
pub open spec fn no_symbols() -> spec_fn(Seq<u8>) -> Option<u16> {
    |name: Seq<u8>| None::<u16>
}

fn binary_const(k: TokenKind, a: u16, b: u16) -> (r: Option<u16>)
    ensures
        r == const_binary(k, a, b),
{
    match k {
        TokenKind::Plus => a.checked_add(b),
        TokenKind::Minus => a.checked_sub(b),
        TokenKind::Star => a.checked_mul(b),
        TokenKind::Slash => if b != 0 {
            Some(a / b)
        } else {
            None
        },
        TokenKind::Ampersand => Some(a & b),
        TokenKind::Pipe => Some(a | b),
        TokenKind::Caret => Some(a ^ b),
        TokenKind::LessLess => if b < 16 {
            Some(a << b)
        } else {
            None
        },
        TokenKind::GreatGreat => if b < 16 {
            Some(a >> b)
        } else {
            None
        },
        _ => None,
    }
}

/// Value of an expression without symbols (see [`const_eval`]).
fn eval_const(expr: &Expression, octal: bool) -> (r: Option<u16>)
    ensures
        r == const_eval(*expr, octal, no_symbols()),
    decreases expr,
{
    match expr {
        Expression::Lit(t) => if octal {
            literal(t.text)
        } else {
            compute_literal_as_numeric(t)
        },
        Expression::Path(_) => None,
        Expression::Parenthesis(p) => eval_const(&p.inner, octal),
        Expression::Unary(u) => if u.op.kind == TokenKind::Tilde {
            match eval_const(&u.inner, octal) {
                Some(v) => Some(!v),
                None => None,
            }
        } else {
            None
        },
        Expression::Binary(b) => match (eval_const(&b.left, octal), eval_const(&b.right, octal)) {
            (Some(x), Some(y)) => binary_const(b.op.kind, x, y),
            _ => None,
        },
        Expression::Lisp(l) => match (eval_const(&l.left, octal), eval_const(&l.right, octal)) {
            (Some(x), Some(y)) => binary_const(l.op.kind, x, y),
            _ => None,
        },
        _ => None,
    }
}

/// Value of a constant expression without symbols, literals read with
/// [`literal_value`]. A node that is not constant (a path, a call, an index,
/// an array, ...), a division by zero or a value out of range gives `None`.
pub fn compute_const_expr(expr: &Expression) -> (r: Option<u16>)
    ensures
        r == const_eval(*expr, true, no_symbols()),
{
    eval_const(expr, true)
}

/// Value of a constant expression without symbols, literals read with
/// [`numeric_value`]. A node that is not constant (a path, a call, an index,
/// an array, ...), a division by zero or a value out of range gives `None`.
pub fn compute_const_expression(expr: &Expression) -> (r: Option<u16>)
    ensures
        r == const_eval(*expr, false, no_symbols()),
{
    eval_const(expr, false)
}

/// Symbol name of an identifier: its text.
pub fn compute_symbol_name(ident: &Token) -> (r: Vec<u8>)
    ensures
        r@ == ident.text@,
{
    let mut r: Vec<u8> = Vec::new();
    let mut i: usize = 0;
    while i < ident.text.len()
        invariant
            i <= ident.text@.len(),
            r@ == ident.text@.subrange(0, i as int),
        decreases ident.text@.len() - i,
    {
        r.push(ident.text[i]);
        i = i + 1;
        assert(r@ =~= ident.text@.subrange(0, i as int));
    }
    assert(ident.text@.subrange(0, i as int) =~= ident.text@);
    r
}

/// Symbol name of a path: its identifiers joined by `::`.
pub fn path_to_symbol_name(path: &Path) -> (r: Vec<u8>)
    ensures
        r@ == symbol_name(*path),
{
    let mut name: Vec<u8> = Vec::new();
    let mut j: usize = 0;
    while j < path.head.text.len()
        invariant
            j <= path.head.text@.len(),
            name@ == path.head.text@.subrange(0, j as int),
        decreases path.head.text.len() - j,
    {
        name.push(path.head.text[j]);
        j = j + 1;
        assert(name@ =~= path.head.text@.subrange(0, j as int));
    }
    assert(path.head.text@.subrange(0, j as int) =~= path.head.text@);
    let mut i: usize = 0;
    while i < path.tail.len()
        invariant
            i <= path.tail@.len(),
            name@ == path_name(path.head, path.tail@.subrange(0, i as int)),
        decreases path.tail.len() - i,
    {
        let ghost before = name@;
        name.push(58u8);
        name.push(58u8);
        let text = path.tail[i].1.text;
        let mut k: usize = 0;
        while k < text.len()
            invariant
                k <= text@.len(),
                name@ == before + seq![58u8, 58u8] + text@.subrange(0, k as int),
            decreases text.len() - k,
        {
            name.push(text[k]);
            k = k + 1;
            assert(name@ =~= before + seq![58u8, 58u8] + text@.subrange(0, k as int));
        }
        assert(text@.subrange(0, k as int) =~= text@);
        let ghost sub = path.tail@.subrange(0, i + 1);
        assert(sub.drop_last() =~= path.tail@.subrange(0, i as int));
        i = i + 1;
    }
    assert(path.tail@.subrange(0, i as int) =~= path.tail@);
    name
}


// registers

/// The lowest free register at or after `i`.
pub open spec fn free_from(v: Seq<bool>, i: int) -> Option<int>
    decreases 64 - i,
{
    if i >= 64 || i < 0 {
        None
    } else if !v[i] {
        Some(i)
    } else {
        free_from(v, i + 1)
    }
}

/// The lowest free register.
pub open spec fn first_free(v: Seq<bool>) -> Option<int> {
    free_from(v, 0)
}

/// Allocate the lowest free register, if there is one.
pub(crate) fn alloc_reg(regs: &mut RegisterAlloc) -> (r: Result<Register, CompileError>)
    ensures
        match first_free(old(regs)@) {
            None => r == Err::<Register, CompileError>(CompileError::Limit) && final(regs)@ == old(regs)@,
            Some(i) => r == Ok::<Register, CompileError>(i as Register) && final(regs)@ == old(regs)@.update(
                i,
                true,
            ),
        },
{
    let mut b: usize = 0;
    proof {
        lemma_view_len(regs);
    }
    while b < 64
        invariant
            b <= 64,
            regs@ == old(regs)@,
            regs@.len() == 64,
            first_free(regs@) == free_from(regs@, b as int),
        decreases 64 - b,
    {
        if !regs.get(b) {
            regs.set(b, true);
            return Ok(b);
        }
        b = b + 1;
    }
    Err(CompileError::Limit)
}

/// Registers that a word source reads.
pub open spec fn offset_regs(s: Source<Address>) -> Set<int>
    decreases s,
{
    match s {
        Source::Register(r) => set![r as int],
        Source::Pointer { offset: Some(o), .. } => offset_regs(*o),
        _ => Set::empty(),
    }
}

/// Registers that a byte source reads.
pub open spec fn source_regs(s: Source<u8>) -> Set<int> {
    match s {
        Source::Register(r) => set![r as int],
        Source::Pointer { offset: Some(o), .. } => offset_regs(*o),
        _ => Set::empty(),
    }
}

/// Registers that a destination reads (for its offset).
pub open spec fn destination_regs(d: Destination) -> Set<int> {
    match d {
        Destination::Pointer { offset: Some(o), .. } => offset_regs(*o),
        _ => Set::empty(),
    }
}

/// `v` with the registers of `regs` free.
pub open spec fn freed(v: Seq<bool>, regs: Set<int>) -> Seq<bool> {
    Seq::new(v.len(), |i: int| v[i] && !regs.contains(i))
}

/// All the registers of `regs` are real registers.
pub open spec fn in_file(regs: Set<int>) -> bool {
    forall|r: int| regs.contains(r) ==> 0 <= r < 64
}

fn free_offset_registers(source: &Source<Address>, register_alloc: &mut RegisterAlloc)
    requires
        old(register_alloc)@.len() == 64,
        in_file(offset_regs(*source)),
    ensures
        final(register_alloc)@ == freed(old(register_alloc)@, offset_regs(*source)),
    decreases source,
{
    match source {
        Source::Register(r) => {
            assert(offset_regs(*source).contains(*r as int));
            register_alloc.set(*r, false);
            assert(register_alloc@ =~= freed(old(register_alloc)@, offset_regs(*source)));
        },
        Source::Pointer { offset: Some(o), .. } => free_offset_registers(o, register_alloc),
        _ => {
            assert(register_alloc@ =~= freed(old(register_alloc)@, offset_regs(*source)));
        },
    }
}

/// Free all the registers that a source reads.
pub fn free_source_registers(source: &Source<u8>, register_alloc: &mut RegisterAlloc)
    requires
        old(register_alloc)@.len() == 64,
        in_file(source_regs(*source)),
    ensures
        final(register_alloc)@ == freed(old(register_alloc)@, source_regs(*source)),
{
    match source {
        Source::Register(r) => {
            assert(source_regs(*source).contains(*r as int));
            register_alloc.set(*r, false);
            assert(register_alloc@ =~= freed(old(register_alloc)@, source_regs(*source)));
        },
        Source::Pointer { offset: Some(o), .. } => free_offset_registers(o, register_alloc),
        _ => {
            assert(register_alloc@ =~= freed(old(register_alloc)@, source_regs(*source)));
        },
    }
}

/// Free all the registers that a destination reads.
pub fn free_destination_registers(destination: &Destination, register_alloc: &mut RegisterAlloc)
    requires
        old(register_alloc)@.len() == 64,
        in_file(destination_regs(*destination)),
    ensures
        final(register_alloc)@ == freed(old(register_alloc)@, destination_regs(*destination)),
{
    match destination {
        Destination::Pointer { offset: Some(o), .. } => free_offset_registers(o, register_alloc),
        _ => {
            assert(register_alloc@ =~= freed(old(register_alloc)@, destination_regs(*destination)));
        },
    }
}

/// The same place as a destination, read as a source.
pub open spec fn as_source(d: Destination) -> Source<u8> {
    match d {
        Destination::Pointer { base, offset } => Source::Pointer { base, offset },
        Destination::Register(r) => Source::Register(r),
    }
}

fn destination_to_source(destination: &Destination) -> (r: Source<u8>)
    ensures
        r == as_source(*destination),
{
    match destination {
        Destination::Pointer { base, offset } => {
            let offset = match offset {
                Some(o) => Some(Box::new((**o).clone())),
                None => None,
            };
            Source::Pointer { base: *base, offset }
        },
        Destination::Register(r) => Source::Register(*r),
    }
}

/// A byte source read as a word offset.
pub open spec fn widen(s: Source<u8>) -> Source<Address> {
    match s {
        Source::Pointer { base, offset } => Source::Pointer { base, offset },
        Source::Register(r) => Source::Register(r),
        Source::Literal(n) => Source::Literal(n as Address),
    }
}

fn widen_source(s: Source<u8>) -> (r: Source<Address>)
    ensures
        r == widen(s),
{
    match s {
        Source::Pointer { base, offset } => Source::Pointer { base, offset },
        Source::Register(r) => Source::Register(r),
        Source::Literal(n) => Source::Literal(n as Address),
    }
}

// operators

/// Binary operators that compile to a byte statement.
pub open spec fn is_arith_op(k: TokenKind) -> bool {
    k == TokenKind::Plus || k == TokenKind::Minus || k == TokenKind::Star || k == TokenKind::Slash
        || k == TokenKind::Ampersand || k == TokenKind::Pipe || k == TokenKind::Caret || k
        == TokenKind::LessLess || k == TokenKind::GreatGreat || k == TokenKind::Eq || k
        == TokenKind::TildeEq || k == TokenKind::Greater || k == TokenKind::GreaterEq || k
        == TokenKind::Less || k == TokenKind::LessEq
}

/// Operator that a compound assignment applies.
pub open spec fn assign_arith(k: TokenKind) -> Option<TokenKind> {
    match k {
        TokenKind::PlusAssign => Some(TokenKind::Plus),
        TokenKind::MinusAssign => Some(TokenKind::Minus),
        TokenKind::StarAssign => Some(TokenKind::Star),
        TokenKind::SlashAssign => Some(TokenKind::Slash),
        TokenKind::AmpersandAssign => Some(TokenKind::Ampersand),
        TokenKind::PipeAssign => Some(TokenKind::Pipe),
        TokenKind::CaretAssign => Some(TokenKind::Caret),
        _ => None,
    }
}

/// The byte statement of an operator.
pub open spec fn op_statement(k: TokenKind, left: Source<u8>, right: Source<u8>, destination: Destination) -> Statement {
    match k {
        TokenKind::Plus => Statement::Add { left, right, destination },
        TokenKind::Minus => Statement::Sub { left, right, destination },
        TokenKind::Star => Statement::Mul { left, right, destination },
        TokenKind::Slash => Statement::Div { left, right, destination },
        TokenKind::Ampersand => Statement::And { left, right, destination },
        TokenKind::Pipe => Statement::Or { left, right, destination },
        TokenKind::Caret => Statement::Xor { left, right, destination },
        TokenKind::LessLess => Statement::LeftShift { left, right, destination },
        TokenKind::GreatGreat => Statement::RightShift { left, right, destination },
        TokenKind::Eq => Statement::Eq { left, right, destination },
        TokenKind::TildeEq => Statement::NotEq { left, right, destination },
        TokenKind::Greater => Statement::Greater { left, right, destination },
        TokenKind::GreaterEq => Statement::GreaterEq { left, right, destination },
        TokenKind::Less => Statement::Less { left, right, destination },
        _ => Statement::LessEq { left, right, destination },
    }
}

fn arith_op(k: TokenKind) -> (r: bool)
    ensures
        r == is_arith_op(k),
{
    match k {
        TokenKind::Plus | TokenKind::Minus | TokenKind::Star | TokenKind::Slash
        | TokenKind::Ampersand | TokenKind::Pipe | TokenKind::Caret | TokenKind::LessLess
        | TokenKind::GreatGreat | TokenKind::Eq | TokenKind::TildeEq | TokenKind::Greater
        | TokenKind::GreaterEq | TokenKind::Less | TokenKind::LessEq => true,
        _ => false,
    }
}

fn compound_op(k: TokenKind) -> (r: Option<TokenKind>)
    ensures
        r == assign_arith(k),
{
    match k {
        TokenKind::PlusAssign => Some(TokenKind::Plus),
        TokenKind::MinusAssign => Some(TokenKind::Minus),
        TokenKind::StarAssign => Some(TokenKind::Star),
        TokenKind::SlashAssign => Some(TokenKind::Slash),
        TokenKind::AmpersandAssign => Some(TokenKind::Ampersand),
        TokenKind::PipeAssign => Some(TokenKind::Pipe),
        TokenKind::CaretAssign => Some(TokenKind::Caret),
        _ => None,
    }
}

fn make_op(k: TokenKind, left: Source<u8>, right: Source<u8>, destination: Destination) -> (r: Statement)
    ensures
        r == op_statement(k, left, right, destination),
{
    match k {
        TokenKind::Plus => Statement::Add { left, right, destination },
        TokenKind::Minus => Statement::Sub { left, right, destination },
        TokenKind::Star => Statement::Mul { left, right, destination },
        TokenKind::Slash => Statement::Div { left, right, destination },
        TokenKind::Ampersand => Statement::And { left, right, destination },
        TokenKind::Pipe => Statement::Or { left, right, destination },
        TokenKind::Caret => Statement::Xor { left, right, destination },
        TokenKind::LessLess => Statement::LeftShift { left, right, destination },
        TokenKind::GreatGreat => Statement::RightShift { left, right, destination },
        TokenKind::Eq => Statement::Eq { left, right, destination },
        TokenKind::TildeEq => Statement::NotEq { left, right, destination },
        TokenKind::Greater => Statement::Greater { left, right, destination },
        TokenKind::GreaterEq => Statement::GreaterEq { left, right, destination },
        TokenKind::Less => Statement::Less { left, right, destination },
        _ => Statement::LessEq { left, right, destination },
    }
}


// constant expressions with symbols

/// Value of a constant expression where constant symbols have the value of
/// their first byte (see [`const_eval`] and [`const_value`]); `None` where the
/// expression is not constant.
pub fn const_expr(expression: &Expression, symbol_alloc: &Alloc) -> (r: Option<u16>)
    ensures
        r == const_eval(*expression, true, const_env(symbol_alloc@)),
    decreases expression,
{
    match expression {
        Expression::Lit(t) => literal(t.text),
        Expression::Path(path) => {
            let name = path_to_symbol_name(path);
            match symbol_alloc.symbol(name.as_slice()) {
                Some(sym) => {
                    let data = symbol_alloc.const_data();
                    if sym.space == Space::Const && (sym.offset as usize) < data.len() {
                        Some(data[sym.offset as usize] as u16)
                    } else {
                        None
                    }
                },
                None => None,
            }
        },
        Expression::Parenthesis(p) => const_expr(&p.inner, symbol_alloc),
        Expression::Unary(u) => if u.op.kind == TokenKind::Tilde {
            match const_expr(&u.inner, symbol_alloc) {
                Some(v) => Some(!v),
                None => None,
            }
        } else {
            None
        },
        Expression::Binary(b) => match (const_expr(&b.left, symbol_alloc), const_expr(&b.right, symbol_alloc)) {
            (Some(x), Some(y)) => binary_const(b.op.kind, x, y),
            _ => None,
        },
        Expression::Lisp(l) => match (const_expr(&l.left, symbol_alloc), const_expr(&l.right, symbol_alloc)) {
            (Some(x), Some(y)) => binary_const(l.op.kind, x, y),
            _ => None,
        },
        _ => None,
    }
}

// compilation of byte expressions

/// `v` with the registers of `regs` held as well.
pub open spec fn holds(v: Seq<bool>, regs: Set<int>) -> Seq<bool> {
    Seq::new(v.len(), |i: int| v[i] || regs.contains(i))
}

/// The registers of `regs` are real registers that `v` does not hold.
pub open spec fn fresh(v: Seq<bool>, regs: Set<int>) -> bool {
    &&& in_file(regs)
    &&& forall|i: int| regs.contains(i) ==> !v[i]
}

/// Base pointer from which a whole symbol is copied byte by byte, and into
/// which the address of an array element is taken: data of the static space
/// is addressed there through the stack space, at the same offset; the
/// const, stack and absolute spaces through their own pointers. Loads and
/// stores of single bytes and words use [`symbol_pointer`] instead.
pub open spec fn copy_pointer(space: Space, offset: u16) -> Pointer {
    match space {
        Space::Static => Pointer::Stack(offset),
        Space::Const => Pointer::Const(offset),
        Space::Stack => Pointer::Stack(offset),
        Space::Absolute => Pointer::Absolute(offset),
    }
}

/// Pointer to a symbol's data.
pub open spec fn symbol_pointer(s: SymbolView) -> Pointer {
    space_pointer(s.space, s.offset)
}

/// Last step of a binary operator: free the operands' registers, store the
/// result in the lowest free register.
pub open spec fn finish_binary(
    k: TokenKind,
    code: Seq<Statement>,
    left: Source<u8>,
    right: Source<u8>,
    regs: Seq<bool>,
) -> Result<(Seq<Statement>, Source<u8>, Seq<bool>), CompileError> {
    let free = freed(freed(regs, source_regs(left)), source_regs(right));
    match first_free(free) {
        None => Err(CompileError::Limit),
        Some(store) => Ok(
            (
                code.push(op_statement(k, left, right, Destination::Register(store as Register))),
                Source::Register(store as Register),
                free.update(store, true),
            ),
        ),
    }
}

/// What compiling an expression into a byte source gives: the statements,
/// the source holding the value, and the allocated registers after; or the
/// error.
///
/// Constant expressions give a literal, byte symbols a pointer to their
/// data, indexing a pointer with the index as offset, and binary operators
/// the lowest free register, which the operator's statement stores into.
pub open spec fn gen_expr<'a>(e: Expression<'a>, syms: AllocView, regs: Seq<bool>) -> Result<
    (Seq<Statement>, Source<u8>, Seq<bool>),
    CompileError,
>
    decreases e,
{
    match const_eval(e, true, const_env(syms)) {
        Some(n) => if n <= 0xff {
            Ok((seq![], Source::Literal(n as u8), regs))
        } else {
            Err(CompileError::Limit)
        },
        None => match e {
            Expression::Path(p) => match lookup(syms, symbol_name(p)) {
                None => Err(CompileError::Undefined),
                Some(sym) => if sym.layout == Layout::U8 {
                    Ok((seq![], Source::Pointer { base: symbol_pointer(sym), offset: None }, regs))
                } else {
                    Err(CompileError::Mismatch)
                },
            },
            Expression::Parenthesis(p) => gen_expr(p.inner, syms, regs),
            Expression::Binary(b) => if is_arith_op(b.op.kind) {
                match gen_expr(b.left, syms, regs) {
                    Err(x) => Err(x),
                    Ok((cl, sl, rl)) => match gen_expr(b.right, syms, rl) {
                        Err(x) => Err(x),
                        Ok((cr, sr, rr)) => finish_binary(b.op.kind, cl + cr, sl, sr, rr),
                    },
                }
            } else {
                Err(CompileError::Unsupported)
            },
            Expression::Lisp(b) => if is_arith_op(b.op.kind) {
                match gen_expr(b.left, syms, regs) {
                    Err(x) => Err(x),
                    Ok((cl, sl, rl)) => match gen_expr(b.right, syms, rl) {
                        Err(x) => Err(x),
                        Ok((cr, sr, rr)) => finish_binary(b.op.kind, cl + cr, sl, sr, rr),
                    },
                }
            } else {
                Err(CompileError::Unsupported)
            },
            Expression::Index(i) => match i.left {
                Expression::Path(p) => match lookup(syms, symbol_name(p)) {
                    None => Err(CompileError::Undefined),
                    Some(sym) => match gen_expr(i.index, syms, regs) {
                        Err(x) => Err(x),
                        Ok((ci, si, ri)) => Ok(
                            (
                                ci,
                                Source::Pointer {
                                    base: symbol_pointer(sym),
                                    offset: Some(Box::new(widen(si))),
                                },
                                ri,
                            ),
                        ),
                    },
                },
                _ => Err(CompileError::Unsupported),
            },
            _ => Err(CompileError::Unsupported),
        },
    }
}

pub(crate) proof fn lemma_free_from(v: Seq<bool>, i: int)
    requires
        v.len() == 64,
        0 <= i,
    ensures
        free_from(v, i) matches Some(j) ==> i <= j < 64 && !v[j],
    decreases 64 - i,
{
    if 0 <= i < 64 && v[i] {
        lemma_free_from(v, i + 1);
    }
}

proof fn lemma_finish_binary(
    k: TokenKind,
    code: Seq<Statement>,
    left: Source<u8>,
    right: Source<u8>,
    regs: Seq<bool>,
    base: Seq<bool>,
)
    requires
        base.len() == 64,
        fresh(base, source_regs(left)),
        fresh(holds(base, source_regs(left)), source_regs(right)),
        regs == holds(holds(base, source_regs(left)), source_regs(right)),
    ensures
        freed(freed(regs, source_regs(left)), source_regs(right)) == base,
        finish_binary(k, code, left, right, regs) matches Ok((c, src, r)) ==> fresh(base, source_regs(src))
            && r == holds(base, source_regs(src)),
{
    let free = freed(freed(regs, source_regs(left)), source_regs(right));
    assert(free =~= base);
    lemma_free_from(base, 0);
    if let Some(store) = first_free(base) {
        let src = Source::<u8>::Register(store as Register);
        assert(source_regs(src) =~= set![store]);
        assert(base.update(store, true) =~= holds(base, source_regs(src)));
    }
}

/// Compile an expression whose value is a byte; returns the source that
/// holds the value (see [`gen_expr`]). The registers that the source reads
/// stay allocated, and no other: the caller frees them.
pub fn compile_expr(
    expression: &Expression,
    symbol_alloc: &Alloc,
    fn_alloc: &FnAlloc,
    register_alloc: &mut RegisterAlloc,
    statements: &mut Vec<Statement>,
) -> (r: Result<Source<u8>, CompileError>)
    ensures
        match gen_expr(*expression, symbol_alloc@, old(register_alloc)@) {
            Ok((code, src, regs)) => r == Ok::<Source<u8>, CompileError>(src) && final(statements)@
                == old(statements)@ + code && final(register_alloc)@ == regs,
            Err(e) => r == Err::<Source<u8>, CompileError>(e),
        },
        r matches Ok(src) ==> fresh(old(register_alloc)@, source_regs(src)) && final(register_alloc)@
            == holds(old(register_alloc)@, source_regs(src)),
    decreases expression,
{
    proof {
        lemma_view_len(register_alloc);
    }
    if let Some(n) = const_expr(expression, symbol_alloc) {
        if n <= 0xff {
            let src = Source::Literal(n as u8);
            assert(statements@ =~= old(statements)@ + Seq::<Statement>::empty());
            assert(source_regs(src) =~= Set::<int>::empty());
            assert(register_alloc@ =~= holds(old(register_alloc)@, source_regs(src)));
            return Ok(src);
        } else {
            return Err(CompileError::Limit);
        }
    }
    match expression {
        Expression::Path(path) => {
            let name = path_to_symbol_name(path);
            match symbol_alloc.symbol(name.as_slice()) {
                None => Err(CompileError::Undefined),
                Some(sym) => match sym.layout {
                    Layout::U8 => {
                        let src = Source::Pointer { base: sym.pointer(), offset: None };
                        assert(statements@ =~= old(statements)@ + Seq::<Statement>::empty());
                        assert(source_regs(src) =~= Set::<int>::empty());
                        assert(register_alloc@ =~= holds(old(register_alloc)@, source_regs(src)));
                        Ok(src)
                    },
                    _ => Err(CompileError::Mismatch),
                },
            }
        },
        Expression::Parenthesis(p) => compile_expr(&p.inner, symbol_alloc, fn_alloc, register_alloc, statements),
        Expression::Binary(b) => {
            if !arith_op(b.op.kind) {
                return Err(CompileError::Unsupported);
            }
            let ghost r0 = register_alloc@;
            let ghost s0 = statements@;
            let left = match compile_expr(&b.left, symbol_alloc, fn_alloc, register_alloc, statements) {
                Ok(s) => s,
                Err(e) => return Err(e),
            };
            let ghost r1 = register_alloc@;
            let ghost s1 = statements@;
            let right = match compile_expr(&b.right, symbol_alloc, fn_alloc, register_alloc, statements) {
                Ok(s) => s,
                Err(e) => return Err(e),
            };
            assert(statements@.subrange(0, s1.len() as int) =~= s1);
            assert(s1.subrange(0, s0.len() as int) =~= s0);
            compile_finish(b.op.kind, left, right, register_alloc, statements, Ghost(r0), Ghost(s0), Ghost(s1))
        },
        Expression::Lisp(b) => {
            if !arith_op(b.op.kind) {
                return Err(CompileError::Unsupported);
            }
            let ghost r0 = register_alloc@;
            let ghost s0 = statements@;
            let left = match compile_expr(&b.left, symbol_alloc, fn_alloc, register_alloc, statements) {
                Ok(s) => s,
                Err(e) => return Err(e),
            };
            let ghost s1 = statements@;
            let right = match compile_expr(&b.right, symbol_alloc, fn_alloc, register_alloc, statements) {
                Ok(s) => s,
                Err(e) => return Err(e),
            };
            assert(statements@.subrange(0, s1.len() as int) =~= s1);
            assert(s1.subrange(0, s0.len() as int) =~= s0);
            compile_finish(b.op.kind, left, right, register_alloc, statements, Ghost(r0), Ghost(s0), Ghost(s1))
        },
        Expression::Index(i) => match &i.left {
            Expression::Path(path) => {
                let name = path_to_symbol_name(path);
                let base = match symbol_alloc.symbol(name.as_slice()) {
                    None => return Err(CompileError::Undefined),
                    Some(sym) => sym.pointer(),
                };
                let offset = match compile_expr(&i.index, symbol_alloc, fn_alloc, register_alloc, statements) {
                    Ok(s) => s,
                    Err(e) => return Err(e),
                };
                let ghost si = offset;
                let src = Source::Pointer { base, offset: Some(Box::new(widen_source(offset))) };
                assert(source_regs(src) == offset_regs(widen(si)));
                assert(offset_regs(widen(si)) =~= source_regs(si));
                Ok(src)
            },
            _ => Err(CompileError::Unsupported),
        },
        _ => Err(CompileError::Unsupported),
    }
}

fn compile_finish(
    k: TokenKind,
    left: Source<u8>,
    right: Source<u8>,
    register_alloc: &mut RegisterAlloc,
    statements: &mut Vec<Statement>,
    Ghost(r0): Ghost<Seq<bool>>,
    Ghost(s0): Ghost<Seq<Statement>>,
    Ghost(s1): Ghost<Seq<Statement>>,
) -> (r: Result<Source<u8>, CompileError>)
    requires
        r0.len() == 64,
        fresh(r0, source_regs(left)),
        fresh(holds(r0, source_regs(left)), source_regs(right)),
        old(register_alloc)@ == holds(holds(r0, source_regs(left)), source_regs(right)),
        s0.len() <= s1.len() <= old(statements)@.len(),
        s1 == old(statements)@.subrange(0, s1.len() as int),
        s0 == s1.subrange(0, s0.len() as int),
    ensures
        match finish_binary(
            k,
            old(statements)@.subrange(s0.len() as int, old(statements)@.len() as int),
            left,
            right,
            old(register_alloc)@,
        ) {
            Ok((code, src, regs)) => r == Ok::<Source<u8>, CompileError>(src) && final(statements)@ == s0
                + code && final(register_alloc)@ == regs,
            Err(e) => r == Err::<Source<u8>, CompileError>(e),
        },
        r matches Ok(src) ==> fresh(r0, source_regs(src)) && final(register_alloc)@ == holds(r0, source_regs(src)),
{
    proof {
        lemma_finish_binary(
            k,
            old(statements)@.subrange(s0.len() as int, old(statements)@.len() as int),
            left,
            right,
            old(register_alloc)@,
            r0,
        );
    }
    free_source_registers(&left, register_alloc);
    free_source_registers(&right, register_alloc);
    let store = match alloc_reg(register_alloc) {
        Ok(s) => s,
        Err(e) => return Err(e),
    };
    let st = make_op(k, left, right, Destination::Register(store));
    statements.push(st);
    assert(statements@ =~= s0 + old(statements)@.subrange(s0.len() as int, old(statements)@.len() as int).push(st));
    Ok(Source::Register(store))
}


// assignments

/// What compiling the target of an assignment gives: the statements, the
/// destination, and the allocated registers after; or the error. The target
/// is a symbol, or a symbol indexed by an expression.
pub open spec fn gen_dest<'a>(e: Expression<'a>, syms: AllocView, regs: Seq<bool>) -> Result<
    (Seq<Statement>, Destination, Seq<bool>),
    CompileError,
> {
    match e {
        Expression::Path(p) => match lookup(syms, symbol_name(p)) {
            None => Err(CompileError::Undefined),
            Some(sym) => Ok((seq![], Destination::Pointer { base: symbol_pointer(sym), offset: None }, regs)),
        },
        Expression::Index(i) => match gen_expr(i.index, syms, regs) {
            Err(x) => Err(x),
            Ok((ci, si, ri)) => match i.left {
                Expression::Path(p) => match lookup(syms, symbol_name(p)) {
                    None => Err(CompileError::Undefined),
                    Some(sym) => Ok(
                        (
                            ci,
                            Destination::Pointer {
                                base: symbol_pointer(sym),
                                offset: Some(Box::new(widen(si))),
                            },
                            ri,
                        ),
                    ),
                },
                _ => Err(CompileError::Unsupported),
            },
        },
        _ => Err(CompileError::Unsupported),
    }
}

/// Statements of an assignment `left <op> right`, or the error: `=` loads the
/// value of `right`, a compound assignment applies its operator to the
/// target and `right`.
pub open spec fn gen_assignment<'a>(
    k: TokenKind,
    left: Expression<'a>,
    right: Expression<'a>,
    syms: AllocView,
    regs: Seq<bool>,
) -> Result<Seq<Statement>, CompileError> {
    if k == TokenKind::Assign {
        match gen_expr(right, syms, regs) {
            Err(x) => Err(x),
            Ok((cs, src, rs)) => match gen_dest(left, syms, rs) {
                Err(x) => Err(x),
                Ok((cd, dst, rd)) => Ok(cs + cd + seq![Statement::Ld { source: src, destination: dst }]),
            },
        }
    } else {
        match assign_arith(k) {
            None => Err(CompileError::Unsupported),
            Some(op) => match gen_dest(left, syms, regs) {
                Err(x) => Err(x),
                Ok((cd, dst, rd)) => match gen_expr(right, syms, rd) {
                    Err(x) => Err(x),
                    Ok((cr, src, rr)) => Ok(cd + cr + seq![op_statement(op, as_source(dst), src, dst)]),
                },
            },
        }
    }
}

/// Statements of an assignment expression, or the error.
pub open spec fn gen_assign<'a>(e: Expression<'a>, syms: AllocView, regs: Seq<bool>) -> Result<Seq<Statement>, CompileError> {
    match e {
        Expression::Binary(b) => gen_assignment(b.op.kind, b.left, b.right, syms, regs),
        Expression::Lisp(b) => gen_assignment(b.op.kind, b.left, b.right, syms, regs),
        _ => Err(CompileError::Unsupported),
    }
}

fn assign_destination(
    expression: &Expression,
    symbol_alloc: &Alloc,
    fn_alloc: &FnAlloc,
    register_alloc: &mut RegisterAlloc,
    statements: &mut Vec<Statement>,
) -> (r: Result<Destination, CompileError>)
    ensures
        match gen_dest(*expression, symbol_alloc@, old(register_alloc)@) {
            Ok((code, dst, regs)) => r == Ok::<Destination, CompileError>(dst) && final(statements)@
                == old(statements)@ + code && final(register_alloc)@ == regs,
            Err(e) => r == Err::<Destination, CompileError>(e),
        },
        r matches Ok(dst) ==> fresh(old(register_alloc)@, destination_regs(dst)) && final(register_alloc)@
            == holds(old(register_alloc)@, destination_regs(dst)),
{
    proof {
        lemma_view_len(register_alloc);
    }
    match expression {
        Expression::Path(path) => {
            let name = path_to_symbol_name(path);
            match symbol_alloc.symbol(name.as_slice()) {
                None => Err(CompileError::Undefined),
                Some(sym) => {
                    let dst = Destination::Pointer { base: sym.pointer(), offset: None };
                    assert(statements@ =~= old(statements)@ + Seq::<Statement>::empty());
                    assert(destination_regs(dst) =~= Set::<int>::empty());
                    assert(register_alloc@ =~= holds(old(register_alloc)@, destination_regs(dst)));
                    Ok(dst)
                },
            }
        },
        Expression::Index(i) => {
            let offset = match compile_expr(&i.index, symbol_alloc, fn_alloc, register_alloc, statements) {
                Ok(s) => s,
                Err(e) => return Err(e),
            };
            match &i.left {
                Expression::Path(path) => {
                    let name = path_to_symbol_name(path);
                    match symbol_alloc.symbol(name.as_slice()) {
                        None => Err(CompileError::Undefined),
                        Some(sym) => {
                            let ghost si = offset;
                            let dst = Destination::Pointer {
                                base: sym.pointer(),
                                offset: Some(Box::new(widen_source(offset))),
                            };
                            assert(destination_regs(dst) == offset_regs(widen(si)));
                            assert(offset_regs(widen(si)) =~= source_regs(si));
                            Ok(dst)
                        },
                    }
                },
                _ => Err(CompileError::Unsupported),
            }
        },
        _ => Err(CompileError::Unsupported),
    }
}

proof fn lemma_release(base: Seq<bool>, a: Set<int>, b: Set<int>)
    requires
        base.len() == 64,
        fresh(base, a),
        fresh(holds(base, a), b),
    ensures
        freed(freed(holds(holds(base, a), b), a), b) == base,
        freed(freed(holds(holds(base, a), b), b), a) == base,
{
    assert(freed(freed(holds(holds(base, a), b), a), b) =~= base);
    assert(freed(freed(holds(holds(base, a), b), b), a) =~= base);
}

fn compile_assignment(
    k: TokenKind,
    left: &Expression,
    right: &Expression,
    symbol_alloc: &Alloc,
    fn_alloc: &FnAlloc,
    register_alloc: &mut RegisterAlloc,
    statements: &mut Vec<Statement>,
) -> (r: Result<(), CompileError>)
    ensures
        match gen_assignment(k, *left, *right, symbol_alloc@, old(register_alloc)@) {
            Ok(code) => r is Ok && final(statements)@ == old(statements)@ + code && final(register_alloc)@
                == old(register_alloc)@,
            Err(e) => r == Err::<(), CompileError>(e),
        },
{
    proof {
        lemma_view_len(register_alloc);
    }
    let ghost r0 = register_alloc@;
    if k == TokenKind::Assign {
        let source = match compile_expr(right, symbol_alloc, fn_alloc, register_alloc, statements) {
            Ok(s) => s,
            Err(e) => return Err(e),
        };
        let ghost s1 = statements@;
        let destination = match assign_destination(left, symbol_alloc, fn_alloc, register_alloc, statements) {
            Ok(d) => d,
            Err(e) => return Err(e),
        };
        proof {
            lemma_release(r0, source_regs(source), destination_regs(destination));
        }
        free_source_registers(&source, register_alloc);
        free_destination_registers(&destination, register_alloc);
        let ghost st = Statement::Ld { source, destination };
        statements.push(Statement::Ld { source, destination });
        assert(statements@ =~= old(statements)@ + gen_assignment(k, *left, *right, symbol_alloc@, r0)->Ok_0);
        Ok(())
    } else {
        let op = match compound_op(k) {
            Some(op) => op,
            None => return Err(CompileError::Unsupported),
        };
        let destination = match assign_destination(left, symbol_alloc, fn_alloc, register_alloc, statements) {
            Ok(d) => d,
            Err(e) => return Err(e),
        };
        let left_source = destination_to_source(&destination);
        let right_source = match compile_expr(right, symbol_alloc, fn_alloc, register_alloc, statements) {
            Ok(s) => s,
            Err(e) => return Err(e),
        };
        proof {
            lemma_release(r0, destination_regs(destination), source_regs(right_source));
        }
        free_source_registers(&right_source, register_alloc);
        free_destination_registers(&destination, register_alloc);
        statements.push(make_op(op, left_source, right_source, destination));
        assert(statements@ =~= old(statements)@ + gen_assignment(k, *left, *right, symbol_alloc@, r0)->Ok_0);
        Ok(())
    }
}

/// Compile an assignment expression (`=` or a compound assignment such as
/// `+=`), which evaluates to no value. The registers it uses are free again
/// after it.
pub fn compile_assign(
    expression: &Expression,
    symbol_alloc: &Alloc,
    fn_alloc: &FnAlloc,
    register_alloc: &mut RegisterAlloc,
    statements: &mut Vec<Statement>,
) -> (r: Result<(), CompileError>)
    ensures
        match gen_assign(*expression, symbol_alloc@, old(register_alloc)@) {
            Ok(code) => r is Ok && final(statements)@ == old(statements)@ + code && final(register_alloc)@
                == old(register_alloc)@,
            Err(e) => r == Err::<(), CompileError>(e),
        },
{
    match expression {
        Expression::Binary(b) => compile_assignment(
            b.op.kind,
            &b.left,
            &b.right,
            symbol_alloc,
            fn_alloc,
            register_alloc,
            statements,
        ),
        Expression::Lisp(b) => compile_assignment(
            b.op.kind,
            &b.left,
            &b.right,
            symbol_alloc,
            fn_alloc,
            register_alloc,
            statements,
        ),
        _ => Err(CompileError::Unsupported),
    }
}

/// Statements of an expression whose value is dropped, or the error:
/// literals and symbols give none, assignments are compiled.
pub open spec fn gen_void<'a>(e: Expression<'a>, syms: AllocView, regs: Seq<bool>) -> Result<Seq<Statement>, CompileError> {
    match e {
        Expression::Lit(_) => Ok(seq![]),
        Expression::Path(_) => Ok(seq![]),
        Expression::Binary(b) => if b.op.kind == TokenKind::Assign || assign_arith(b.op.kind) is Some {
            gen_assign(e, syms, regs)
        } else {
            Err(CompileError::Unsupported)
        },
        Expression::Lisp(b) => if b.op.kind == TokenKind::Assign || assign_arith(b.op.kind) is Some {
            gen_assign(e, syms, regs)
        } else {
            Err(CompileError::Unsupported)
        },
        _ => Err(CompileError::Unsupported),
    }
}

/// Compile an expression whose value is not stored anywhere.
pub fn compile_expr_void(
    expression: &Expression,
    symbol_alloc: &Alloc,
    fn_alloc: &FnAlloc,
    register_alloc: &mut RegisterAlloc,
    statements: &mut Vec<Statement>,
) -> (r: Result<(), CompileError>)
    ensures
        match gen_void(*expression, symbol_alloc@, old(register_alloc)@) {
            Ok(code) => r is Ok && final(statements)@ == old(statements)@ + code && final(register_alloc)@
                == old(register_alloc)@,
            Err(e) => r == Err::<(), CompileError>(e),
        },
{
    match expression {
        Expression::Lit(_) | Expression::Path(_) => {
            assert(statements@ =~= old(statements)@ + Seq::<Statement>::empty());
            Ok(())
        },
        Expression::Binary(b) => if b.op.kind == TokenKind::Assign || compound_op(b.op.kind).is_some() {
            compile_assign(expression, symbol_alloc, fn_alloc, register_alloc, statements)
        } else {
            Err(CompileError::Unsupported)
        },
        Expression::Lisp(b) => if b.op.kind == TokenKind::Assign || compound_op(b.op.kind).is_some() {
            compile_assign(expression, symbol_alloc, fn_alloc, register_alloc, statements)
        } else {
            Err(CompileError::Unsupported)
        },
        _ => Err(CompileError::Unsupported),
    }
}

/// What compiling an expression into a new register gives: the statements,
/// the register, and the allocated registers after; or the error. The value
/// is loaded into the lowest register free once the expression's own
/// registers are released.
pub open spec fn gen_register<'a>(e: Expression<'a>, syms: AllocView, regs: Seq<bool>) -> Result<
    (Seq<Statement>, Register, Seq<bool>),
    CompileError,
> {
    match gen_expr(e, syms, regs) {
        Err(x) => Err(x),
        Ok((code, src, r1)) => {
            let free = freed(r1, source_regs(src));
            match first_free(free) {
                None => Err(CompileError::Limit),
                Some(reg) => Ok(
                    (
                        code.push(
                            Statement::Ld { source: src, destination: Destination::Register(reg as Register) },
                        ),
                        reg as Register,
                        free.update(reg, true),
                    ),
                ),
            }
        },
    }
}

/// Compile an expression into a new register, which the caller frees.
pub fn compile_expr_register(
    expression: &Expression,
    layout: &Layout,
    symbol_alloc: &Alloc,
    fn_alloc: &FnAlloc,
    register_alloc: &mut RegisterAlloc,
    statements: &mut Vec<Statement>,
) -> (r: Result<Register, CompileError>)
    ensures
        match gen_register(*expression, symbol_alloc@, old(register_alloc)@) {
            Ok((code, reg, regs)) => r == Ok::<Register, CompileError>(reg) && final(statements)@
                == old(statements)@ + code && final(register_alloc)@ == regs,
            Err(e) => r == Err::<Register, CompileError>(e),
        },
        r matches Ok(reg) ==> reg < 64 && !old(register_alloc)@[reg as int] && final(register_alloc)@
            == old(register_alloc)@.update(reg as int, true),
{
    proof {
        lemma_view_len(register_alloc);
    }
    let ghost r0 = register_alloc@;
    let source = match compile_expr(expression, symbol_alloc, fn_alloc, register_alloc, statements) {
        Ok(s) => s,
        Err(e) => return Err(e),
    };
    assert(freed(register_alloc@, source_regs(source)) =~= r0);
    free_source_registers(&source, register_alloc);
    let ghost s1 = statements@;
    let reg = match alloc_reg(register_alloc) {
        Ok(r) => r,
        Err(e) => return Err(e),
    };
    proof {
        lemma_free_from(r0, 0);
    }
    statements.push(Statement::Ld { source, destination: Destination::Register(reg) });
    assert(statements@ =~= old(statements)@ + (gen_register(*expression, symbol_alloc@, r0)->Ok_0).0);
    Ok(reg)
}


// compilation into memory

/// `n` bytes further than `p` is still an address.
pub open spec fn fits(p: Pointer, n: int) -> bool {
    pointer_address(p) + n <= 0xffff
}

/// The pointer `n` bytes further than `p`, in the same space.
pub open spec fn at(p: Pointer, n: int) -> Pointer {
    with_address(p, (pointer_address(p) + n) as u16)
}

/// Store at the address of `p`.
pub open spec fn store_at(p: Pointer) -> Destination {
    Destination::Pointer { base: p, offset: None }
}

/// Loads that copy `size` bytes from `src` to `dst`, byte by byte.
pub open spec fn copy_code(src: Pointer, dst: Pointer, size: nat) -> Seq<Statement> {
    Seq::new(
        size,
        |o: int| Statement::Ld { source: Source::Pointer { base: at(src, o), offset: None }, destination: store_at(at(dst, o)) },
    )
}

/// Bytes taken by the first `n` layouts.
pub open spec fn prefix_size(ls: Seq<Layout>, n: int) -> int
    decreases n,
{
    if n <= 0 {
        0
    } else {
        prefix_size(ls, n - 1) + layout_size(ls[n - 1])
    }
}

proof fn lemma_prefix_nonneg(ls: Seq<Layout>, n: int)
    ensures
        prefix_size(ls, n) >= 0,
    decreases n,
{
    if n > 0 {
        lemma_prefix_nonneg(ls, n - 1);
    }
}

/// The allocator without its stack symbols (a new stack frame).
pub open spec fn cleared(syms: AllocView) -> AllocView {
    AllocView { stack: seq![], stack_size: 0, ..syms }
}

/// Number of arguments of a call.
pub open spec fn arg_count<'a>(args: Option<crate::ast::Separated<Expression<'a>, Token<'a>>>) -> int {
    match args {
        Some(a) => 1 + a.tail@.len() as int,
        None => 0,
    }
}

/// Statements that store `left <op> right` at `dst`, the operands going
/// through registers, or the error.
pub open spec fn gen_op_into<'a>(
    k: TokenKind,
    left: Expression<'a>,
    right: Expression<'a>,
    syms: AllocView,
    dst: Pointer,
    regs: Seq<bool>,
) -> Result<Seq<Statement>, CompileError> {
    if is_arith_op(k) {
        match gen_register(left, syms, regs) {
            Err(x) => Err(x),
            Ok((cl, rl, r1)) => match gen_register(right, syms, r1) {
                Err(x) => Err(x),
                Ok((cr, rr, r2)) => Ok(
                    cl + cr + seq![op_statement(k, Source::Register(rl), Source::Register(rr), store_at(dst))],
                ),
            },
        }
    } else {
        Err(CompileError::Unsupported)
    }
}

/// Statements that store the value of an expression of the given layout at
/// `dst`, or the error; the registers they use are free again after them.
///
/// Constants are loaded, symbols copied byte by byte, array items stored one
/// after the other, `@` loads an address, binary operators and indexing go
/// through registers, and a call lays its arguments out at `dst` before the
/// call statement.
pub open spec fn gen_into<'a>(
    e: Expression<'a>,
    layout: Layout,
    syms: AllocView,
    fns: Seq<FnSigView>,
    dst: Pointer,
    regs: Seq<bool>,
) -> Result<Seq<Statement>, CompileError>
    decreases e,
{
    match e {
        Expression::Lit(_) => match const_eval(e, true, no_symbols()) {
            None => Err(CompileError::NotConstant),
            Some(v) => match layout {
                Layout::U8 => if v <= 0xff {
                    Ok(seq![Statement::Ld { source: Source::Literal(v as u8), destination: store_at(dst) }])
                } else {
                    Err(CompileError::Limit)
                },
                Layout::Pointer(_) => Ok(seq![Statement::LdW { source: Source::Literal(v), destination: store_at(dst) }]),
                Layout::I8 => Err(CompileError::Unsupported),
                _ => Err(CompileError::Mismatch),
            },
        },
        Expression::Path(p) => match lookup(syms, symbol_name(p)) {
            None => Err(CompileError::Undefined),
            Some(sym) => if sym.layout != layout {
                Err(CompileError::Mismatch)
            } else if layout_size(layout) > 0xffff || !fits(copy_pointer(sym.space, sym.offset), layout_size(layout) - 1)
                || !fits(dst, layout_size(layout) - 1) {
                Err(CompileError::Limit)
            } else {
                Ok(copy_code(copy_pointer(sym.space, sym.offset), dst, layout_size(layout)))
            },
        },
        Expression::Array(a) => match layout {
            Layout::Array { inner, len } => if a.inner@.len() != len {
                Err(CompileError::Mismatch)
            } else if layout_size(*inner) > 0xffff {
                Err(CompileError::Limit)
            } else {
                gen_items(a.inner@, *inner, syms, fns, dst, regs)
            },
            _ => Err(CompileError::Mismatch),
        },
        Expression::Unary(u) => if u.op.kind == TokenKind::At {
            match layout {
                Layout::Pointer(ptr) => match u.inner {
                    Expression::Path(p) => match lookup(syms, symbol_name(p)) {
                        None => Err(CompileError::Undefined),
                        Some(sym) => if sym.layout != *ptr {
                            Err(CompileError::Mismatch)
                        } else {
                            Ok(
                                seq![Statement::LdAddr {
                                    source: Source::Pointer { base: symbol_pointer(sym), offset: None },
                                    destination: store_at(dst),
                                }],
                            )
                        },
                    },
                    Expression::Index(ix) => match ix.left {
                        Expression::Path(p) => match lookup(syms, symbol_name(p)) {
                            None => Err(CompileError::Undefined),
                            Some(sym) => match sym.layout {
                                Layout::Array { inner, .. } => if *inner != *ptr {
                                    Err(CompileError::Mismatch)
                                } else {
                                    match const_eval(ix.index, true, no_symbols()) {
                                        None => Err(CompileError::NotConstant),
                                        Some(k) => if layout_size(*inner) > 0xffff || sym.offset
                                            + layout_size(*inner) * k > 0xffff {
                                            Err(CompileError::Limit)
                                        } else {
                                            Ok(
                                                seq![Statement::LdAddr {
                                                    source: Source::Pointer {
                                                        base: copy_pointer(
                                                            sym.space,
                                                            (sym.offset + layout_size(*inner) * k) as u16,
                                                        ),
                                                        offset: None,
                                                    },
                                                    destination: store_at(dst),
                                                }],
                                            )
                                        },
                                    }
                                },
                                _ => Err(CompileError::Mismatch),
                            },
                        },
                        _ => Err(CompileError::Unsupported),
                    },
                    _ => Err(CompileError::Unsupported),
                },
                _ => Err(CompileError::Mismatch),
            }
        } else {
            Ok(seq![])
        },
        Expression::Binary(b) => gen_op_into(b.op.kind, b.left, b.right, syms, dst, regs),
        Expression::Lisp(b) => gen_op_into(b.op.kind, b.left, b.right, syms, dst, regs),
        Expression::Index(ix) => match ix.left {
            Expression::Path(p) => match lookup(syms, symbol_name(p)) {
                None => Err(CompileError::Undefined),
                Some(sym) => match gen_register(ix.index, syms, regs) {
                    Err(x) => Err(x),
                    Ok((ci, reg, r1)) => Ok(
                        ci + seq![Statement::Ld {
                            source: Source::Pointer {
                                base: symbol_pointer(sym),
                                offset: Some(Box::new(Source::Register(reg))),
                            },
                            destination: store_at(dst),
                        }],
                    ),
                },
            },
            _ => Err(CompileError::Unsupported),
        },
        Expression::Call(c) => gen_call(*c, layout, syms, fns, dst, regs),
        Expression::Parenthesis(p) => gen_into(p.inner, layout, syms, fns, dst, regs),
    }
}

/// Statements of a call whose result is stored at `dst`: the arguments,
/// laid out at `dst` one after the other, then the call statement.
pub open spec fn gen_call<'a>(
    c: crate::ast::Call<'a>,
    layout: Layout,
    syms: AllocView,
    fns: Seq<FnSigView>,
    dst: Pointer,
    regs: Seq<bool>,
) -> Result<Seq<Statement>, CompileError>
    decreases c,
{
    match c.left {
        Expression::Path(p) => match find_fn(fns, symbol_name(p)) {
            None => Err(CompileError::Undefined),
            Some(f) => if f.ret != Some(layout) || arg_count(c.args) != f.args.len() {
                Err(CompileError::Mismatch)
            } else {
                match c.args {
                    None => Ok(seq![Statement::Call { routine: f.routine, address: 0 }]),
                    Some(a) => match gen_into(a.head, f.args[0], cleared(syms), fns, dst, regs) {
                        Err(x) => Err(x),
                        Ok(ch) => match gen_tail(a.tail@, f.args, cleared(syms), fns, dst, regs) {
                            Err(x) => Err(x),
                            Ok(ct) => if prefix_size(f.args, f.args.len() as int) > 0xffff {
                                Err(CompileError::Limit)
                            } else {
                                Ok(
                                    ch + ct + seq![Statement::Call {
                                        routine: f.routine,
                                        address: prefix_size(f.args, f.args.len() as int) as u16,
                                    }],
                                )
                            },
                        },
                    },
                }
            },
        },
        _ => Err(CompileError::Unsupported),
    }
}

/// Statements that store the items of an array, one after the other.
pub open spec fn gen_items<'a>(
    items: Seq<Expression<'a>>,
    inner: Layout,
    syms: AllocView,
    fns: Seq<FnSigView>,
    dst: Pointer,
    regs: Seq<bool>,
) -> Result<Seq<Statement>, CompileError>
    decreases items,
{
    if items.len() == 0 {
        Ok(seq![])
    } else {
        match gen_items(items.drop_last(), inner, syms, fns, dst, regs) {
            Err(x) => Err(x),
            Ok(c) => {
                let off = layout_size(inner) * (items.len() - 1);
                if !fits(dst, off) {
                    Err(CompileError::Limit)
                } else {
                    match gen_into(items.last(), inner, syms, fns, at(dst, off), regs) {
                        Err(x) => Err(x),
                        Ok(c2) => Ok(c + c2),
                    }
                }
            },
        }
    }
}

/// Statements that store the arguments of a call after the first one, each
/// after the previous ones.
pub open spec fn gen_tail<'a>(
    tail: Seq<(Token<'a>, Expression<'a>)>,
    layouts: Seq<Layout>,
    syms: AllocView,
    fns: Seq<FnSigView>,
    dst: Pointer,
    regs: Seq<bool>,
) -> Result<Seq<Statement>, CompileError>
    decreases tail,
{
    if tail.len() == 0 {
        Ok(seq![])
    } else {
        match gen_tail(tail.drop_last(), layouts, syms, fns, dst, regs) {
            Err(x) => Err(x),
            Ok(c) => {
                let off = prefix_size(layouts, tail.len() as int);
                if off > 0xffff || !fits(dst, off) {
                    Err(CompileError::Limit)
                } else {
                    match gen_into(tail.last().1, layouts[tail.len() as int], syms, fns, at(dst, off), regs) {
                        Err(x) => Err(x),
                        Ok(c2) => Ok(c + c2),
                    }
                }
            },
        }
    }
}

/// Compile the computation of an expression of the given layout and store
/// the result at `dst_base` (see [`gen_into`]). A symbol named whole is
/// copied byte by byte from [`copy_pointer`], so a static symbol is read at
/// its offset in the stack space.
pub fn compile_expression_into_pointer(
    expression: &Expression,
    layout: &Layout,
    symbol_alloc: &Alloc,
    fn_alloc: &FnAlloc,
    dst_base: Pointer,
    register_alloc: &mut RegisterAlloc,
    statements: &mut Vec<Statement>,
) -> (r: Result<(), CompileError>)
    ensures
        match gen_into(*expression, *layout, symbol_alloc@, fn_alloc@, dst_base, old(register_alloc)@) {
            Ok(code) => r is Ok && final(statements)@ == old(statements)@ + code && final(register_alloc)@
                == old(register_alloc)@,
            Err(e) => r == Err::<(), CompileError>(e),
        },
    decreases expression, 2int,
{
    match expression {
        Expression::Lit(_) => into_literal(expression, layout, symbol_alloc, fn_alloc, dst_base, register_alloc, statements),
        Expression::Path(_) => into_copy(expression, layout, symbol_alloc, fn_alloc, dst_base, register_alloc, statements),
        Expression::Array(a) => into_array(expression, a, layout, symbol_alloc, fn_alloc, dst_base, register_alloc, statements),
        Expression::Unary(u) => if u.op.kind == TokenKind::At {
            into_address(expression, layout, symbol_alloc, fn_alloc, dst_base, register_alloc, statements)
        } else {
            assert(statements@ =~= old(statements)@ + Seq::<Statement>::empty());
            Ok(())
        },
        Expression::Binary(_) | Expression::Lisp(_) => into_binary(
            expression,
            layout,
            symbol_alloc,
            fn_alloc,
            dst_base,
            register_alloc,
            statements,
        ),
        Expression::Index(_) => into_index(expression, layout, symbol_alloc, fn_alloc, dst_base, register_alloc, statements),
        Expression::Call(c) => into_call(c, layout, symbol_alloc, fn_alloc, dst_base, register_alloc, statements),
        Expression::Parenthesis(p) => compile_expression_into_pointer(
            &p.inner,
            layout,
            symbol_alloc,
            fn_alloc,
            dst_base,
            register_alloc,
            statements,
        ),
    }
}

fn into_literal(
    expression: &Expression,
    layout: &Layout,
    symbol_alloc: &Alloc,
    fn_alloc: &FnAlloc,
    dst_base: Pointer,
    register_alloc: &mut RegisterAlloc,
    statements: &mut Vec<Statement>,
) -> (r: Result<(), CompileError>)
    requires
        expression is Lit,
    ensures
        match gen_into(*expression, *layout, symbol_alloc@, fn_alloc@, dst_base, old(register_alloc)@) {
            Ok(code) => r is Ok && final(statements)@ == old(statements)@ + code && final(register_alloc)@
                == old(register_alloc)@,
            Err(e) => r == Err::<(), CompileError>(e),
        },
{
    let v = match compute_const_expr(expression) {
        Some(v) => v,
        None => return Err(CompileError::NotConstant),
    };
    match layout {
        Layout::U8 => if v <= 0xff {
            statements.push(Statement::Ld { source: Source::Literal(v as u8), destination: Destination::Pointer { base: dst_base, offset: None } });
            Ok(())
        } else {
            Err(CompileError::Limit)
        },
        Layout::Pointer(_) => {
            statements.push(Statement::LdW { source: Source::Literal(v), destination: Destination::Pointer { base: dst_base, offset: None } });
            Ok(())
        },
        Layout::I8 => Err(CompileError::Unsupported),
        _ => Err(CompileError::Mismatch),
    }
}

fn into_copy(
    expression: &Expression,
    layout: &Layout,
    symbol_alloc: &Alloc,
    fn_alloc: &FnAlloc,
    dst_base: Pointer,
    register_alloc: &mut RegisterAlloc,
    statements: &mut Vec<Statement>,
) -> (r: Result<(), CompileError>)
    requires
        expression is Path,
    ensures
        match gen_into(*expression, *layout, symbol_alloc@, fn_alloc@, dst_base, old(register_alloc)@) {
            Ok(code) => r is Ok && final(statements)@ == old(statements)@ + code && final(register_alloc)@
                == old(register_alloc)@,
            Err(e) => r == Err::<(), CompileError>(e),
        },
{
    let path = match expression {
        Expression::Path(p) => p,
        _ => return Err(CompileError::Unsupported),
    };
    let name = path_to_symbol_name(path);
    let sym = match symbol_alloc.symbol(name.as_slice()) {
        None => return Err(CompileError::Undefined),
        Some(sym) => sym,
    };
    if !same_layout(&sym.layout, layout) {
        return Err(CompileError::Mismatch);
    }
    let size = match layout.size() {
        Some(n) => n,
        None => return Err(CompileError::Limit),
    };
    let src_base = pointer_in(sym.space, sym.offset);
    let src_addr = address_of(src_base);
    let dst_addr = address_of(dst_base);
    if size > 0 && ((src_addr as u32) + (size as u32) - 1 > 0xffff || (dst_addr as u32) + (size as u32) - 1 > 0xffff) {
        return Err(CompileError::Limit);
    }
    let ghost code = copy_code(src_base, dst_base, size as nat);
    let mut o: u16 = 0;
    while o < size
        invariant
            o <= size,
            size > 0 ==> src_addr + size - 1 <= 0xffff && dst_addr + size - 1 <= 0xffff,
            src_addr == pointer_address(src_base),
            dst_addr == pointer_address(dst_base),
            code == copy_code(src_base, dst_base, size as nat),
            statements@ == old(statements)@ + code.subrange(0, o as int),
            register_alloc@ == old(register_alloc)@,
        decreases size - o,
    {
        let source = Source::Pointer { base: src_base.offset(o), offset: None };
        let destination = Destination::Pointer { base: dst_base.offset(o), offset: None };
        statements.push(Statement::Ld { source, destination });
        o = o + 1;
        assert(statements@ =~= old(statements)@ + code.subrange(0, o as int));
    }
    assert(code.subrange(0, o as int) =~= code);
    Ok(())
}

fn address_of(p: Pointer) -> (r: u16)
    ensures
        r == pointer_address(p),
{
    match p {
        Pointer::Absolute(a) => a,
        Pointer::Static(a) => a,
        Pointer::Const(a) => a,
        Pointer::Stack(a) => a,
    }
}

proof fn lemma_items_err<'a>(
    items: Seq<Expression<'a>>,
    k: int,
    inner: Layout,
    syms: AllocView,
    fns: Seq<FnSigView>,
    dst: Pointer,
    regs: Seq<bool>,
)
    requires
        0 < k <= items.len(),
        gen_items(items.subrange(0, k), inner, syms, fns, dst, regs) is Err,
    ensures
        gen_items(items, inner, syms, fns, dst, regs) == gen_items(items.subrange(0, k), inner, syms, fns, dst, regs),
    decreases items.len() - k,
{
    if k < items.len() {
        let sub = items.subrange(0, k + 1);
        assert(sub.drop_last() =~= items.subrange(0, k));
        lemma_items_err(items, k + 1, inner, syms, fns, dst, regs);
    } else {
        assert(items.subrange(0, k) =~= items);
    }
}

#[verifier::rlimit(50)]
fn into_array(
    expression: &Expression,
    a: &Box<crate::ast::Array>,
    layout: &Layout,
    symbol_alloc: &Alloc,
    fn_alloc: &FnAlloc,
    dst_base: Pointer,
    register_alloc: &mut RegisterAlloc,
    statements: &mut Vec<Statement>,
) -> (r: Result<(), CompileError>)
    requires
        *expression == Expression::Array(*a),
    ensures
        match gen_into(*expression, *layout, symbol_alloc@, fn_alloc@, dst_base, old(register_alloc)@) {
            Ok(code) => r is Ok && final(statements)@ == old(statements)@ + code && final(register_alloc)@
                == old(register_alloc)@,
            Err(e) => r == Err::<(), CompileError>(e),
        },
    decreases expression, 0int,
{
    let (inner, len) = match layout {
        Layout::Array { inner, len } => (inner, *len),
        _ => return Err(CompileError::Mismatch),
    };
    if a.inner.len() != len as usize {
        return Err(CompileError::Mismatch);
    }
    let size = match inner.size() {
        Some(n) => n,
        None => return Err(CompileError::Limit),
    };
    let dst_addr = address_of(dst_base);
    let mut i: usize = 0;
    assert(a.inner@.subrange(0, 0) =~= Seq::<Expression>::empty());
    assert(statements@ =~= old(statements)@ + Seq::<Statement>::empty());
    while i < a.inner.len()
        invariant
            *expression == Expression::Array(*a),
            *layout == (Layout::Array { inner: *inner, len }),
            a.inner@.len() == len,
            size == layout_size(**inner),
            dst_addr == pointer_address(dst_base),
            i <= a.inner@.len(),
            gen_items(a.inner@.subrange(0, i as int), **inner, symbol_alloc@, fn_alloc@, dst_base, old(register_alloc)@) is Ok,
            statements@ == old(statements)@ + gen_items(
                a.inner@.subrange(0, i as int),
                **inner,
                symbol_alloc@,
                fn_alloc@,
                dst_base,
                old(register_alloc)@,
            )->Ok_0,
            register_alloc@ == old(register_alloc)@,
        decreases a.inner.len() - i,
    {
        let ghost sub = a.inner@.subrange(0, i + 1);
        assert(sub.drop_last() =~= a.inner@.subrange(0, i as int));
        assert(sub.last() == a.inner@[i as int]);
        proof {
            assert((size as u32) * (i as u32) <= 0xffff * 0xffff) by (nonlinear_arith)
                requires size <= 0xffff, i <= 0xffff;
        }
        let off: u32 = (size as u32) * (i as u32);
        if (dst_addr as u32) + off > 0xffff {
            proof {
                lemma_items_err(a.inner@, i + 1, **inner, symbol_alloc@, fn_alloc@, dst_base, old(register_alloc)@);
            }
            return Err(CompileError::Limit);
        }
        let item = &a.inner[i];
        assert(*item == a.inner@[i as int]);
        let target = dst_base.offset(off as u16);
        match compile_expression_into_pointer(item, inner, symbol_alloc, fn_alloc, target, register_alloc, statements) {
            Ok(()) => {},
            Err(e) => {
                proof {
                    lemma_items_err(a.inner@, i + 1, **inner, symbol_alloc@, fn_alloc@, dst_base, old(register_alloc)@);
                }
                return Err(e);
            },
        }
        i = i + 1;
        assert(statements@ =~= old(statements)@ + gen_items(
            a.inner@.subrange(0, i as int),
            **inner,
            symbol_alloc@,
            fn_alloc@,
            dst_base,
            old(register_alloc)@,
        )->Ok_0);
    }
    assert(a.inner@.subrange(0, i as int) =~= a.inner@);
    Ok(())
}

fn pointer_in(space: Space, offset: u16) -> (r: Pointer)
    ensures
        r == copy_pointer(space, offset),
{
    match space {
        Space::Static => Pointer::Stack(offset),
        Space::Const => Pointer::Const(offset),
        Space::Stack => Pointer::Stack(offset),
        Space::Absolute => Pointer::Absolute(offset),
    }
}

fn into_address(
    expression: &Expression,
    layout: &Layout,
    symbol_alloc: &Alloc,
    fn_alloc: &FnAlloc,
    dst_base: Pointer,
    register_alloc: &mut RegisterAlloc,
    statements: &mut Vec<Statement>,
) -> (r: Result<(), CompileError>)
    requires
        expression matches Expression::Unary(u) && u.op.kind == TokenKind::At,
    ensures
        match gen_into(*expression, *layout, symbol_alloc@, fn_alloc@, dst_base, old(register_alloc)@) {
            Ok(code) => r is Ok && final(statements)@ == old(statements)@ + code && final(register_alloc)@
                == old(register_alloc)@,
            Err(e) => r == Err::<(), CompileError>(e),
        },
{
    let u = match expression {
        Expression::Unary(u) => u,
        _ => return Err(CompileError::Unsupported),
    };
    let ptr = match layout {
        Layout::Pointer(ptr) => ptr,
        _ => return Err(CompileError::Mismatch),
    };
    let destination = Destination::Pointer { base: dst_base, offset: None };
    match &u.inner {
        Expression::Path(path) => {
            let name = path_to_symbol_name(path);
            let sym = match symbol_alloc.symbol(name.as_slice()) {
                None => return Err(CompileError::Undefined),
                Some(sym) => sym,
            };
            if !same_layout(&sym.layout, ptr) {
                return Err(CompileError::Mismatch);
            }
            statements.push(Statement::LdAddr { source: Source::Pointer { base: sym.pointer(), offset: None }, destination });
            Ok(())
        },
        Expression::Index(ix) => match &ix.left {
            Expression::Path(path) => {
                let name = path_to_symbol_name(path);
                let sym = match symbol_alloc.symbol(name.as_slice()) {
                    None => return Err(CompileError::Undefined),
                    Some(sym) => sym,
                };
                let inner = match &sym.layout {
                    Layout::Array { inner, .. } => inner,
                    _ => return Err(CompileError::Mismatch),
                };
                if !same_layout(inner, ptr) {
                    return Err(CompileError::Mismatch);
                }
                let k = match compute_const_expr(&ix.index) {
                    Some(k) => k,
                    None => return Err(CompileError::NotConstant),
                };
                let size = match inner.size() {
                    Some(n) => n,
                    None => return Err(CompileError::Limit),
                };
                proof {
                    assert((size as u32) * (k as u32) <= 0xffff * 0xffff) by (nonlinear_arith)
                        requires size <= 0xffff, k <= 0xffff;
                }
                let off: u32 = (sym.offset as u32) + (size as u32) * (k as u32);
                if off > 0xffff {
                    return Err(CompileError::Limit);
                }
                let base = pointer_in(sym.space, off as u16);
                statements.push(Statement::LdAddr { source: Source::Pointer { base, offset: None }, destination });
                Ok(())
            },
            _ => Err(CompileError::Unsupported),
        },
        _ => Err(CompileError::Unsupported),
    }
}

fn into_op(
    k: TokenKind,
    left: &Expression,
    right: &Expression,
    symbol_alloc: &Alloc,
    fn_alloc: &FnAlloc,
    dst_base: Pointer,
    register_alloc: &mut RegisterAlloc,
    statements: &mut Vec<Statement>,
) -> (r: Result<(), CompileError>)
    ensures
        match gen_op_into(k, *left, *right, symbol_alloc@, dst_base, old(register_alloc)@) {
            Ok(code) => r is Ok && final(statements)@ == old(statements)@ + code && final(register_alloc)@
                == old(register_alloc)@,
            Err(e) => r == Err::<(), CompileError>(e),
        },
{
    proof {
        lemma_view_len(register_alloc);
    }
    if !arith_op(k) {
        return Err(CompileError::Unsupported);
    }
    let rl = match compile_expr_register(left, &Layout::U8, symbol_alloc, fn_alloc, register_alloc, statements) {
        Ok(r) => r,
        Err(e) => return Err(e),
    };
    let rr = match compile_expr_register(right, &Layout::U8, symbol_alloc, fn_alloc, register_alloc, statements) {
        Ok(r) => r,
        Err(e) => return Err(e),
    };
    statements.push(
        make_op(k, Source::Register(rl), Source::Register(rr), Destination::Pointer { base: dst_base, offset: None }),
    );
    register_alloc.free(rl);
    register_alloc.free(rr);
    assert(register_alloc@ =~= old(register_alloc)@);
    assert(statements@ =~= old(statements)@ + gen_op_into(k, *left, *right, symbol_alloc@, dst_base, old(register_alloc)@)->Ok_0);
    Ok(())
}

fn into_binary(
    expression: &Expression,
    layout: &Layout,
    symbol_alloc: &Alloc,
    fn_alloc: &FnAlloc,
    dst_base: Pointer,
    register_alloc: &mut RegisterAlloc,
    statements: &mut Vec<Statement>,
) -> (r: Result<(), CompileError>)
    requires
        expression is Binary || expression is Lisp,
    ensures
        match gen_into(*expression, *layout, symbol_alloc@, fn_alloc@, dst_base, old(register_alloc)@) {
            Ok(code) => r is Ok && final(statements)@ == old(statements)@ + code && final(register_alloc)@
                == old(register_alloc)@,
            Err(e) => r == Err::<(), CompileError>(e),
        },
{
    match expression {
        Expression::Binary(b) => into_op(b.op.kind, &b.left, &b.right, symbol_alloc, fn_alloc, dst_base, register_alloc, statements),
        Expression::Lisp(b) => into_op(b.op.kind, &b.left, &b.right, symbol_alloc, fn_alloc, dst_base, register_alloc, statements),
        _ => Err(CompileError::Unsupported),
    }
}

fn into_index(
    expression: &Expression,
    layout: &Layout,
    symbol_alloc: &Alloc,
    fn_alloc: &FnAlloc,
    dst_base: Pointer,
    register_alloc: &mut RegisterAlloc,
    statements: &mut Vec<Statement>,
) -> (r: Result<(), CompileError>)
    requires
        expression is Index,
    ensures
        match gen_into(*expression, *layout, symbol_alloc@, fn_alloc@, dst_base, old(register_alloc)@) {
            Ok(code) => r is Ok && final(statements)@ == old(statements)@ + code && final(register_alloc)@
                == old(register_alloc)@,
            Err(e) => r == Err::<(), CompileError>(e),
        },
{
    proof {
        lemma_view_len(register_alloc);
    }
    let ix = match expression {
        Expression::Index(ix) => ix,
        _ => return Err(CompileError::Unsupported),
    };
    let path = match &ix.left {
        Expression::Path(path) => path,
        _ => return Err(CompileError::Unsupported),
    };
    let name = path_to_symbol_name(path);
    let base = match symbol_alloc.symbol(name.as_slice()) {
        None => return Err(CompileError::Undefined),
        Some(sym) => sym.pointer(),
    };
    let reg = match compile_expr_register(&ix.index, &Layout::U8, symbol_alloc, fn_alloc, register_alloc, statements) {
        Ok(r) => r,
        Err(e) => return Err(e),
    };
    statements.push(
        Statement::Ld {
            source: Source::Pointer { base, offset: Some(Box::new(Source::Register(reg))) },
            destination: Destination::Pointer { base: dst_base, offset: None },
        },
    );
    register_alloc.free(reg);
    assert(register_alloc@ =~= old(register_alloc)@);
    assert(statements@ =~= old(statements)@ + gen_into(*expression, *layout, symbol_alloc@, fn_alloc@, dst_base, old(register_alloc)@)->Ok_0);
    Ok(())
}

proof fn lemma_tail_err<'a>(
    tail: Seq<(Token<'a>, Expression<'a>)>,
    k: int,
    layouts: Seq<Layout>,
    syms: AllocView,
    fns: Seq<FnSigView>,
    dst: Pointer,
    regs: Seq<bool>,
)
    requires
        0 < k <= tail.len(),
        gen_tail(tail.subrange(0, k), layouts, syms, fns, dst, regs) is Err,
    ensures
        gen_tail(tail, layouts, syms, fns, dst, regs) == gen_tail(tail.subrange(0, k), layouts, syms, fns, dst, regs),
    decreases tail.len() - k,
{
    if k < tail.len() {
        let sub = tail.subrange(0, k + 1);
        assert(sub.drop_last() =~= tail.subrange(0, k));
        lemma_tail_err(tail, k + 1, layouts, syms, fns, dst, regs);
    } else {
        assert(tail.subrange(0, k) =~= tail);
    }
}

/// Size of a layout, as a count capped at `0x10000`.
fn capped_size(l: &Layout) -> (r: u32)
    ensures
        r == if layout_size(*l) > 0x10000 {
            0x10000
        } else {
            layout_size(*l)
        },
{
    match l.size() {
        Some(n) => n as u32,
        None => 0x10000,
    }
}

#[verifier::rlimit(100)]
fn into_call(
    c: &crate::ast::Call,
    layout: &Layout,
    symbol_alloc: &Alloc,
    fn_alloc: &FnAlloc,
    dst_base: Pointer,
    register_alloc: &mut RegisterAlloc,
    statements: &mut Vec<Statement>,
) -> (r: Result<(), CompileError>)
    ensures
        match gen_call(*c, *layout, symbol_alloc@, fn_alloc@, dst_base, old(register_alloc)@) {
            Ok(code) => r is Ok && final(statements)@ == old(statements)@ + code && final(register_alloc)@
                == old(register_alloc)@,
            Err(e) => r == Err::<(), CompileError>(e),
        },
    decreases *c, 1int,
{
    let path = match &c.left {
        Expression::Path(path) => path,
        _ => return Err(CompileError::Unsupported),
    };
    let name = path_to_symbol_name(path);
    let f = match fn_alloc.get(name.as_slice()) {
        None => return Err(CompileError::Undefined),
        Some(f) => f,
    };
    let ret_ok = match &f.ret {
        Some(l) => same_layout(l, layout),
        None => false,
    };
    let count_ok = match &c.args {
        Some(a) => f.args.len() > 0 && a.tail.len() == f.args.len() - 1,
        None => f.args.len() == 0,
    };
    if !ret_ok || !count_ok {
        return Err(CompileError::Mismatch);
    }
    let a = match &c.args {
        None => {
            statements.push(Statement::Call { routine: f.routine, address: 0 });
            return Ok(());
        },
        Some(a) => a,
    };
    let mut alloc = symbol_alloc.copy();
    alloc.clear_stack();
    let ghost frame = cleared(symbol_alloc@);
    assert(alloc@ == frame);
    match compile_expression_into_pointer(&a.head, &f.args[0], &alloc, fn_alloc, dst_base, register_alloc, statements) {
        Ok(()) => {},
        Err(e) => return Err(e),
    }
    let total = match into_tail(c, a, &f.args, &alloc, fn_alloc, dst_base, register_alloc, statements) {
        Ok(t) => t,
        Err(e) => return Err(e),
    };
    proof {
        let fv = find_fn(fn_alloc@, symbol_name(*path))->0;
        assert(fv == f@);
        assert(c.left == Expression::Path(*path));
        assert(fv.ret == Some(*layout));
        assert(arg_count(c.args) == fv.args.len());
        assert(c.args == Some(*a));
        assert(gen_into(a.head, fv.args[0], cleared(symbol_alloc@), fn_alloc@, dst_base, old(register_alloc)@) is Ok);
        assert(gen_tail(a.tail@, fv.args, cleared(symbol_alloc@), fn_alloc@, dst_base, old(register_alloc)@) is Ok);
        lemma_prefix_nonneg(fv.args, fv.args.len() as int);
        let ch = gen_into(a.head, fv.args[0], cleared(symbol_alloc@), fn_alloc@, dst_base, old(register_alloc)@)->Ok_0;
        let ct = gen_tail(a.tail@, fv.args, cleared(symbol_alloc@), fn_alloc@, dst_base, old(register_alloc)@)->Ok_0;
        assert(gen_call(*c, *layout, symbol_alloc@, fn_alloc@, dst_base, old(register_alloc)@) == if prefix_size(fv.args, fv.args.len() as int) > 0xffff {
            Err::<Seq<Statement>, CompileError>(CompileError::Limit)
        } else {
            Ok::<Seq<Statement>, CompileError>(ch + ct + seq![Statement::Call {
                routine: fv.routine,
                address: prefix_size(fv.args, fv.args.len() as int) as u16,
            }])
        });
    }
    if total > 0xffff {
        return Err(CompileError::Limit);
    }
    let offset = total;
    statements.push(Statement::Call { routine: f.routine, address: offset as u16 });
    assert(statements@ =~= old(statements)@ + gen_call(*c, *layout, symbol_alloc@, fn_alloc@, dst_base, old(register_alloc)@)->Ok_0);
    Ok(())
}

/// The arguments of a call after the first one, each stored after the
/// previous ones; returns the bytes that all the arguments take, capped at
/// `0x10000`.
#[verifier::rlimit(50)]
fn into_tail(
    c: &crate::ast::Call,
    a: &crate::ast::Separated<Expression, Token>,
    layouts: &Vec<Layout>,
    symbol_alloc: &Alloc,
    fn_alloc: &FnAlloc,
    dst_base: Pointer,
    register_alloc: &mut RegisterAlloc,
    statements: &mut Vec<Statement>,
) -> (r: Result<u32, CompileError>)
    requires
        c.args == Some(*a),
        a.tail@.len() + 1 == layouts@.len(),
    ensures
        match gen_tail(a.tail@, layouts@, symbol_alloc@, fn_alloc@, dst_base, old(register_alloc)@) {
            Ok(code) => r == Ok::<u32, CompileError>(
                if prefix_size(layouts@, layouts@.len() as int) > 0x10000 {
                    0x10000
                } else {
                    prefix_size(layouts@, layouts@.len() as int) as u32
                },
            ) && final(statements)@ == old(statements)@ + code && final(register_alloc)@ == old(register_alloc)@,
            Err(e) => r == Err::<u32, CompileError>(e),
        },
    decreases *c, 0int,
{
    let dst_addr = address_of(dst_base);
    let mut offset: u32 = capped_size(&layouts[0]);
    let mut j: usize = 0;
    assert(prefix_size(layouts@, 1) == layout_size(layouts@[0]));
    assert(a.tail@.subrange(0, 0) =~= Seq::<(Token, Expression)>::empty());
    assert(statements@ =~= old(statements)@ + Seq::<Statement>::empty());
    while j < a.tail.len()
        invariant
            c.args == Some(*a),
            a.tail@.len() + 1 == layouts@.len(),
            dst_addr == pointer_address(dst_base),
            j <= a.tail@.len(),
            offset == if prefix_size(layouts@, j + 1) > 0x10000 {
                0x10000
            } else {
                prefix_size(layouts@, j + 1)
            },
            gen_tail(a.tail@.subrange(0, j as int), layouts@, symbol_alloc@, fn_alloc@, dst_base, old(register_alloc)@) is Ok,
            statements@ == old(statements)@ + gen_tail(
                a.tail@.subrange(0, j as int),
                layouts@,
                symbol_alloc@,
                fn_alloc@,
                dst_base,
                old(register_alloc)@,
            )->Ok_0,
            register_alloc@ == old(register_alloc)@,
        decreases a.tail.len() - j,
    {
        let ghost sub = a.tail@.subrange(0, j + 1);
        assert(sub.drop_last() =~= a.tail@.subrange(0, j as int));
        assert(sub.last() == a.tail@[j as int]);
        if offset > 0xffff || (dst_addr as u32) + offset > 0xffff {
            proof {
                lemma_tail_err(a.tail@, j + 1, layouts@, symbol_alloc@, fn_alloc@, dst_base, old(register_alloc)@);
            }
            return Err(CompileError::Limit);
        }
        let item = &a.tail[j].1;
        assert(*item == a.tail@[j as int].1);
        proof {
            assert(decreases_to!(*c => c.args));
            assert(c.args->Some_0 == *a);
            assert(decreases_to!(c.args => c.args->Some_0));
            assert(decreases_to!(*a => a.tail));
            assert(decreases_to!(a.tail => a.tail@));
            assert(decreases_to!(a.tail@ => a.tail@[j as int]));
            assert(decreases_to!(a.tail@[j as int] => a.tail@[j as int].1));
            assert(decreases_to!(*c => *item));
        }
        let target = dst_base.offset(offset as u16);
        match compile_expression_into_pointer(item, &layouts[j + 1], symbol_alloc, fn_alloc, target, register_alloc, statements) {
            Ok(()) => {},
            Err(e) => {
                proof {
                    lemma_tail_err(a.tail@, j + 1, layouts@, symbol_alloc@, fn_alloc@, dst_base, old(register_alloc)@);
                }
                return Err(e);
            },
        }
        let next = capped_size(&layouts[j + 1]);
        offset = if offset + next > 0x10000 {
            0x10000
        } else {
            offset + next
        };
        j = j + 1;
        assert(statements@ =~= old(statements)@ + gen_tail(
            a.tail@.subrange(0, j as int),
            layouts@,
            symbol_alloc@,
            fn_alloc@,
            dst_base,
            old(register_alloc)@,
        )->Ok_0);
    }
    assert(a.tail@.subrange(0, j as int) =~= a.tail@);
    Ok(offset)
}


/// Byte operators that [`gen_stack`] computes through registers.
pub open spec fn is_stack_op(k: TokenKind) -> bool {
    is_register_op(k) || k == TokenKind::Star || k == TokenKind::Slash
}

/// Statements of a byte operation whose result is stored at `stack`: each
/// operand is computed into a register (see [`gen_register8`]), then the
/// operation stores into the stack; the operands' registers are freed.
pub open spec fn gen_stack_op<'a>(
    k: TokenKind,
    left: Expression<'a>,
    right: Expression<'a>,
    layout: Layout,
    syms: AllocView,
    fns: Seq<FnSigView>,
    stack: u16,
    regs: Seq<bool>,
) -> Result<Seq<Statement>, CompileError> {
    match gen_register8(left, layout, syms, fns, stack, regs) {
        Err(x) => Err(x),
        Ok((cl, l, r1)) => match gen_register8(right, layout, syms, fns, stack, r1) {
            Err(x) => Err(x),
            Ok((cr, rr, _)) => Ok(
                cl + cr + seq![
                    op_statement(
                        k,
                        Source::Register(l),
                        Source::Register(rr),
                        Destination::Pointer { base: Pointer::Stack(stack), offset: None },
                    ),
                ],
            ),
        },
    }
}

/// What compiling an expression into the stack at `stack` gives: additions,
/// subtractions, products, quotients and bitwise operations are computed in
/// registers and stored (see [`gen_stack_op`]); any other expression is
/// stored as [`gen_into`] stores it.
pub open spec fn gen_stack<'a>(
    e: Expression<'a>,
    layout: Layout,
    syms: AllocView,
    fns: Seq<FnSigView>,
    stack: u16,
    regs: Seq<bool>,
) -> Result<Seq<Statement>, CompileError> {
    match e {
        Expression::Binary(b) => if is_stack_op(b.op.kind) {
            gen_stack_op(b.op.kind, b.left, b.right, layout, syms, fns, stack, regs)
        } else {
            gen_into(e, layout, syms, fns, Pointer::Stack(stack), regs)
        },
        Expression::Lisp(l) => if is_stack_op(l.op.kind) {
            gen_stack_op(l.op.kind, l.left, l.right, layout, syms, fns, stack, regs)
        } else {
            gen_into(e, layout, syms, fns, Pointer::Stack(stack), regs)
        },
        _ => gen_into(e, layout, syms, fns, Pointer::Stack(stack), regs),
    }
}

fn stack_op(k: TokenKind) -> (r: bool)
    ensures
        r == is_stack_op(k),
{
    match k {
        TokenKind::Plus | TokenKind::Minus | TokenKind::Ampersand | TokenKind::Pipe | TokenKind::Caret
        | TokenKind::Star | TokenKind::Slash => true,
        _ => false,
    }
}

fn compile_stack_op(
    e: &Expression,
    k: TokenKind,
    left: &Expression,
    right: &Expression,
    layout: &Layout,
    alloc: &Alloc,
    register_alloc: &mut RegisterAlloc,
    fn_alloc: &FnAlloc,
    stack_address: u16,
    statements: &mut Vec<Statement>,
) -> (r: Result<(), CompileError>)
    requires
        (*e matches Expression::Binary(b) && b.left == *left && b.right == *right) || (*e matches Expression::Lisp(
            l,
        ) && l.left == *left && l.right == *right),
    ensures
        match gen_stack_op(k, *left, *right, *layout, alloc@, fn_alloc@, stack_address, old(register_alloc)@) {
            Ok(code) => r is Ok && final(statements)@ == old(statements)@ + code && final(register_alloc)@
                == old(register_alloc)@,
            Err(e) => r == Err::<(), CompileError>(e),
        },
    decreases e, 0int,
{
    proof {
        if *e is Binary {
            let b = e->Binary_0;
            assert(decreases_to!(*e => b));
            assert(decreases_to!(*e => *left));
            assert(decreases_to!(*e => *right));
        }
        if *e is Lisp {
            let l = e->Lisp_0;
            assert(decreases_to!(*e => l));
            assert(decreases_to!(*e => *left));
            assert(decreases_to!(*e => *right));
        }
    }
    proof {
        lemma_view_len(register_alloc);
    }
    let ghost r0 = register_alloc@;
    let ghost s0 = statements@;
    let l = match compile_expression_into_register8(left, layout, alloc, register_alloc, fn_alloc, stack_address, statements) {
        Ok(x) => x,
        Err(e) => return Err(e),
    };
    let ghost s1 = statements@;
    let ghost r1 = register_alloc@;
    let rr = match compile_expression_into_register8(right, layout, alloc, register_alloc, fn_alloc, stack_address, statements) {
        Ok(x) => x,
        Err(e) => return Err(e),
    };
    let ghost s2 = statements@;
    statements.push(
        make_op(k, Source::Register(l), Source::Register(rr), Destination::Pointer { base: Pointer::Stack(stack_address), offset: None }),
    );
    proof {
        lemma_view_len(register_alloc);
        assert(r1 == r0.update(l as int, true));
        assert(register_alloc@ == r1.update(rr as int, true));
        assert(register_alloc@[rr as int]);
        assert(r1[l as int]);
        assert(l != rr);
    }
    register_alloc.free(rr);
    assert(register_alloc@ =~= r1);
    register_alloc.free(l);
    proof {
        assert(register_alloc@ =~= r0);
        let cl = s1.subrange(s0.len() as int, s1.len() as int);
        let cr = s2.subrange(s1.len() as int, s2.len() as int);
        assert(s1 =~= s0 + cl);
        assert(s2 =~= s1 + cr);
        assert(statements@ =~= s0 + (cl + cr + seq![statements@.last()]));
    }
    Ok(())
}

/// Compile an expression into the stack at `stack_address` (see
/// [`gen_stack`]); the registers it uses are freed again.
pub fn compile_expression_into_stack(
    expression: &Expression,
    layout: &Layout,
    alloc: &Alloc,
    register_alloc: &mut RegisterAlloc,
    fn_alloc: &FnAlloc,
    stack_address: u16,
    statements: &mut Vec<Statement>,
) -> (r: Result<(), CompileError>)
    ensures
        match gen_stack(*expression, *layout, alloc@, fn_alloc@, stack_address, old(register_alloc)@) {
            Ok(code) => r is Ok && final(statements)@ == old(statements)@ + code && final(register_alloc)@
                == old(register_alloc)@,
            Err(e) => r == Err::<(), CompileError>(e),
        },
    decreases expression, 1int,
{
    match expression {
        Expression::Binary(b) => if stack_op(b.op.kind) {
            return compile_stack_op(expression, b.op.kind, &b.left, &b.right, layout, alloc, register_alloc, fn_alloc, stack_address, statements);
        },
        Expression::Lisp(l) => if stack_op(l.op.kind) {
            return compile_stack_op(expression, l.op.kind, &l.left, &l.right, layout, alloc, register_alloc, fn_alloc, stack_address, statements);
        },
        _ => {},
    }
    compile_expression_into_pointer(
        expression,
        layout,
        alloc,
        fn_alloc,
        Pointer::Stack(stack_address),
        register_alloc,
        statements,
    )
}

/// Operators of byte arithmetic in registers.
pub open spec fn is_register_op(k: TokenKind) -> bool {
    k == TokenKind::Plus || k == TokenKind::Minus || k == TokenKind::Ampersand || k == TokenKind::Pipe
        || k == TokenKind::Caret
}

/// Last step of a binary operator in registers: the result goes to the
/// lower of the two operand registers, and the higher one is freed.
pub open spec fn finish_register8(
    k: TokenKind,
    code: Seq<Statement>,
    left: Register,
    right: Register,
    regs: Seq<bool>,
) -> (Seq<Statement>, Register, Seq<bool>) {
    let free = if left >= right {
        left
    } else {
        right
    };
    let store = if left >= right {
        right
    } else {
        left
    };
    (
        code.push(op_statement(k, Source::Register(left), Source::Register(right), Destination::Register(store))),
        store,
        regs.update(free as int, false),
    )
}

/// What compiling an expression into a byte register gives: the statements,
/// the register, and the allocated registers after; or the error. Literals
/// are loaded into the lowest free register, a call's result goes through
/// the stack at `stack`, and `+ - & | ^` combine two registers into the
/// lower one.
pub open spec fn gen_register8<'a>(
    e: Expression<'a>,
    layout: Layout,
    syms: AllocView,
    fns: Seq<FnSigView>,
    stack: u16,
    regs: Seq<bool>,
) -> Result<(Seq<Statement>, Register, Seq<bool>), CompileError>
    decreases e,
{
    match e {
        Expression::Lit(t) => match numeric_value(t.text@) {
            None => Err(CompileError::NotConstant),
            Some(v) => match layout {
                Layout::U8 => if v > 0xff {
                    Err(CompileError::Limit)
                } else {
                    match first_free(regs) {
                        None => Err(CompileError::Limit),
                        Some(reg) => Ok(
                            (
                                seq![Statement::Ld { source: Source::Literal(v as u8), destination: Destination::Register(reg as Register) }],
                                reg as Register,
                                regs.update(reg, true),
                            ),
                        ),
                    }
                },
                Layout::I8 => Err(CompileError::Unsupported),
                _ => Err(CompileError::Mismatch),
            },
        },
        Expression::Call(_) => match gen_into(e, layout, syms, fns, Pointer::Stack(stack), regs) {
            Err(x) => Err(x),
            Ok(code) => match first_free(regs) {
                None => Err(CompileError::Limit),
                Some(reg) => Ok(
                    (
                        code.push(
                            Statement::Ld {
                                source: Source::Pointer { base: Pointer::Stack(stack), offset: None },
                                destination: Destination::Register(reg as Register),
                            },
                        ),
                        reg as Register,
                        regs.update(reg, true),
                    ),
                ),
            },
        },
        Expression::Binary(b) => if is_register_op(b.op.kind) {
            match gen_register8(b.left, layout, syms, fns, stack, regs) {
                Err(x) => Err(x),
                Ok((cl, l, r1)) => match gen_register8(b.right, layout, syms, fns, stack, r1) {
                    Err(x) => Err(x),
                    Ok((cr, rr, r2)) => Ok(finish_register8(b.op.kind, cl + cr, l, rr, r2)),
                },
            }
        } else {
            Err(CompileError::Unsupported)
        },
        Expression::Lisp(b) => if is_register_op(b.op.kind) {
            match gen_register8(b.left, layout, syms, fns, stack, regs) {
                Err(x) => Err(x),
                Ok((cl, l, r1)) => match gen_register8(b.right, layout, syms, fns, stack, r1) {
                    Err(x) => Err(x),
                    Ok((cr, rr, r2)) => Ok(finish_register8(b.op.kind, cl + cr, l, rr, r2)),
                },
            }
        } else {
            Err(CompileError::Unsupported)
        },
        Expression::Parenthesis(p) => gen_register8(p.inner, layout, syms, fns, stack, regs),
        _ => Err(CompileError::Unsupported),
    }
}

fn register_op(k: TokenKind) -> (r: bool)
    ensures
        r == is_register_op(k),
{
    match k {
        TokenKind::Plus | TokenKind::Minus | TokenKind::Ampersand | TokenKind::Pipe | TokenKind::Caret => true,
        _ => false,
    }
}

fn register8_finish(
    k: TokenKind,
    left: Register,
    right: Register,
    register_alloc: &mut RegisterAlloc,
    statements: &mut Vec<Statement>,
    Ghost(r0): Ghost<Seq<bool>>,
    Ghost(code): Ghost<Seq<Statement>>,
) -> (r: Register)
    requires
        r0.len() == 64,
        left < 64,
        right < 64,
        !r0[left as int],
        !r0.update(left as int, true)[right as int],
        old(register_alloc)@ == r0.update(left as int, true).update(right as int, true),
        old(statements)@ == code,
    ensures
        (final(statements)@, r, final(register_alloc)@) == finish_register8(k, code, left, right, old(register_alloc)@),
        r < 64,
        !r0[r as int],
        final(register_alloc)@ == r0.update(r as int, true),
{
    let (free, store) = if left >= right {
        (left, right)
    } else {
        (right, left)
    };
    register_alloc.free(free);
    statements.push(
        make_op(k, Source::Register(left), Source::Register(right), Destination::Register(store)),
    );
    assert(register_alloc@ =~= r0.update(store as int, true));
    store
}

/// Compile an expression into a byte register, which the caller frees (see
/// [`gen_register8`]).
pub fn compile_expression_into_register8(
    expression: &Expression,
    layout: &Layout,
    symbols: &Alloc,
    registers: &mut RegisterAlloc,
    functions: &FnAlloc,
    stack_address: u16,
    statements: &mut Vec<Statement>,
) -> (r: Result<Register, CompileError>)
    ensures
        match gen_register8(*expression, *layout, symbols@, functions@, stack_address, old(registers)@) {
            Ok((code, reg, regs)) => r == Ok::<Register, CompileError>(reg) && final(statements)@
                == old(statements)@ + code && final(registers)@ == regs,
            Err(e) => r == Err::<Register, CompileError>(e),
        },
        r matches Ok(reg) ==> reg < 64 && !old(registers)@[reg as int] && final(registers)@
            == old(registers)@.update(reg as int, true),
    decreases expression, 2int,
{
    proof {
        lemma_view_len(registers);
        lemma_free_from(registers@, 0);
    }
    match expression {
        Expression::Lit(t) => {
            let v = match compute_literal_as_numeric(t) {
                Some(v) => v,
                None => return Err(CompileError::NotConstant),
            };
            match layout {
                Layout::U8 => {
                    if v > 0xff {
                        return Err(CompileError::Limit);
                    }
                    let reg = match alloc_reg(registers) {
                        Ok(r) => r,
                        Err(e) => return Err(e),
                    };
                    statements.push(Statement::Ld { source: Source::Literal(v as u8), destination: Destination::Register(reg) });
                    assert(statements@ =~= old(statements)@ + seq![Statement::Ld { source: Source::Literal(v as u8), destination: Destination::Register(reg) }]);
                    Ok(reg)
                },
                Layout::I8 => Err(CompileError::Unsupported),
                _ => Err(CompileError::Mismatch),
            }
        },
        Expression::Call(_) => {
            match compile_expression_into_stack(expression, layout, symbols, registers, functions, stack_address, statements) {
                Ok(()) => {},
                Err(e) => return Err(e),
            }
            let reg = match alloc_reg(registers) {
                Ok(r) => r,
                Err(e) => return Err(e),
            };
            statements.push(
                Statement::Ld {
                    source: Source::Pointer { base: Pointer::Stack(stack_address), offset: None },
                    destination: Destination::Register(reg),
                },
            );
            assert(statements@ =~= old(statements)@ + (gen_register8(*expression, *layout, symbols@, functions@, stack_address, old(registers)@)->Ok_0).0);
            Ok(reg)
        },
        Expression::Binary(b) => {
            if !register_op(b.op.kind) {
                return Err(CompileError::Unsupported);
            }
            let ghost r0 = registers@;
            let left = match compile_expression_into_register8(&b.left, layout, symbols, registers, functions, stack_address, statements) {
                Ok(r) => r,
                Err(e) => return Err(e),
            };
            let right = match compile_expression_into_register8(&b.right, layout, symbols, registers, functions, stack_address, statements) {
                Ok(r) => r,
                Err(e) => return Err(e),
            };
            let ghost code = statements@;
            let store = register8_finish(b.op.kind, left, right, registers, statements, Ghost(r0), Ghost(code));
            assert(statements@ =~= old(statements)@ + (gen_register8(*expression, *layout, symbols@, functions@, stack_address, r0)->Ok_0).0);
            Ok(store)
        },
        Expression::Lisp(b) => {
            if !register_op(b.op.kind) {
                return Err(CompileError::Unsupported);
            }
            let ghost r0 = registers@;
            let left = match compile_expression_into_register8(&b.left, layout, symbols, registers, functions, stack_address, statements) {
                Ok(r) => r,
                Err(e) => return Err(e),
            };
            let right = match compile_expression_into_register8(&b.right, layout, symbols, registers, functions, stack_address, statements) {
                Ok(r) => r,
                Err(e) => return Err(e),
            };
            let ghost code = statements@;
            let store = register8_finish(b.op.kind, left, right, registers, statements, Ghost(r0), Ghost(code));
            assert(statements@ =~= old(statements)@ + (gen_register8(*expression, *layout, symbols@, functions@, stack_address, r0)->Ok_0).0);
            Ok(store)
        },
        Expression::Parenthesis(p) => compile_expression_into_register8(&p.inner, layout, symbols, registers, functions, stack_address, statements),
        _ => Err(CompileError::Unsupported),
    }
}


// compiled expressions never jump

/// No statement of `code` is a jump.
pub open spec fn no_jumps(code: Seq<Statement>) -> bool {
    forall|i: int| 0 <= i < code.len() ==> jump_offset(#[trigger] code[i]) is None
}

proof fn lemma_no_jumps_cat(a: Seq<Statement>, b: Seq<Statement>)
    requires
        no_jumps(a),
        no_jumps(b),
    ensures
        no_jumps(a + b),
{
    assert forall|i: int| 0 <= i < (a + b).len() implies jump_offset(#[trigger] (a + b)[i]) is None by {
        if i < a.len() {
            assert((a + b)[i] == a[i]);
        } else {
            assert((a + b)[i] == b[i - a.len()]);
        }
    }
}

proof fn lemma_no_jumps_push(a: Seq<Statement>, s: Statement)
    requires
        no_jumps(a),
        jump_offset(s) is None,
    ensures
        no_jumps(a.push(s)),
{
    assert forall|i: int| 0 <= i < a.push(s).len() implies jump_offset(#[trigger] a.push(s)[i]) is None by {
        if i < a.len() {
            assert(a.push(s)[i] == a[i]);
        }
    }
}

/// Code compiled from an expression has no jump.
pub proof fn lemma_expr_no_jumps<'a>(e: Expression<'a>, syms: AllocView, regs: Seq<bool>)
    ensures
        gen_expr(e, syms, regs) matches Ok((code, src, r)) ==> no_jumps(code),
    decreases e,
{
    if const_eval(e, true, const_env(syms)) is None {
        match e {
            Expression::Parenthesis(p) => lemma_expr_no_jumps(p.inner, syms, regs),
            Expression::Binary(b) => {
                lemma_expr_no_jumps(b.left, syms, regs);
                if let Ok((cl, sl, rl)) = gen_expr(b.left, syms, regs) {
                    lemma_expr_no_jumps(b.right, syms, rl);
                    if let Ok((cr, sr, rr)) = gen_expr(b.right, syms, rl) {
                        lemma_no_jumps_cat(cl, cr);
                        let free = freed(freed(rr, source_regs(sl)), source_regs(sr));
                        if let Some(store) = first_free(free) {
                            lemma_no_jumps_push(cl + cr, op_statement(b.op.kind, sl, sr, Destination::Register(store as Register)));
                        }
                    }
                }
            },
            Expression::Lisp(b) => {
                lemma_expr_no_jumps(b.left, syms, regs);
                if let Ok((cl, sl, rl)) = gen_expr(b.left, syms, regs) {
                    lemma_expr_no_jumps(b.right, syms, rl);
                    if let Ok((cr, sr, rr)) = gen_expr(b.right, syms, rl) {
                        lemma_no_jumps_cat(cl, cr);
                        let free = freed(freed(rr, source_regs(sl)), source_regs(sr));
                        if let Some(store) = first_free(free) {
                            lemma_no_jumps_push(cl + cr, op_statement(b.op.kind, sl, sr, Destination::Register(store as Register)));
                        }
                    }
                }
            },
            Expression::Index(i) => lemma_expr_no_jumps(i.index, syms, regs),
            _ => {},
        }
    }
}

/// Code compiled from an expression whose value is dropped has no jump.
pub proof fn lemma_void_no_jumps<'a>(e: Expression<'a>, syms: AllocView, regs: Seq<bool>)
    ensures
        gen_void(e, syms, regs) matches Ok(code) ==> no_jumps(code),
{
    let (k, l, r) = match e {
        Expression::Binary(b) => (b.op.kind, b.left, b.right),
        Expression::Lisp(b) => (b.op.kind, b.left, b.right),
        _ => {
            return;
        },
    };
    if k == TokenKind::Assign {
        lemma_expr_no_jumps(r, syms, regs);
        if let Ok((cs, src, rs)) = gen_expr(r, syms, regs) {
            lemma_dest_no_jumps(l, syms, rs);
            if let Ok((cd, dst, rd)) = gen_dest(l, syms, rs) {
                lemma_no_jumps_cat(cs, cd);
                lemma_no_jumps_cat(cs + cd, seq![Statement::Ld { source: src, destination: dst }]);
            }
        }
    } else if let Some(op) = assign_arith(k) {
        lemma_dest_no_jumps(l, syms, regs);
        if let Ok((cd, dst, rd)) = gen_dest(l, syms, regs) {
            lemma_expr_no_jumps(r, syms, rd);
            if let Ok((cr, src, rr)) = gen_expr(r, syms, rd) {
                lemma_no_jumps_cat(cd, cr);
                lemma_no_jumps_cat(cd + cr, seq![op_statement(op, as_source(dst), src, dst)]);
            }
        }
    }
}

proof fn lemma_dest_no_jumps<'a>(e: Expression<'a>, syms: AllocView, regs: Seq<bool>)
    ensures
        gen_dest(e, syms, regs) matches Ok((code, d, r)) ==> no_jumps(code),
{
    if let Expression::Index(i) = e {
        lemma_expr_no_jumps(i.index, syms, regs);
    }
}

proof fn lemma_register_no_jumps<'a>(e: Expression<'a>, syms: AllocView, regs: Seq<bool>)
    ensures
        gen_register(e, syms, regs) matches Ok((code, reg, r)) ==> no_jumps(code),
{
    lemma_expr_no_jumps(e, syms, regs);
    if let Ok((code, src, r1)) = gen_expr(e, syms, regs) {
        let free = freed(r1, source_regs(src));
        if let Some(reg) = first_free(free) {
            lemma_no_jumps_push(code, Statement::Ld { source: src, destination: Destination::Register(reg as Register) });
        }
    }
}

/// Code that stores an expression in memory has no jump.
pub proof fn lemma_into_no_jumps<'a>(
    e: Expression<'a>,
    layout: Layout,
    syms: AllocView,
    fns: Seq<FnSigView>,
    dst: Pointer,
    regs: Seq<bool>,
)
    ensures
        gen_into(e, layout, syms, fns, dst, regs) matches Ok(code) ==> no_jumps(code),
    decreases e,
{
    match e {
        Expression::Array(a) => if let Layout::Array { inner, len } = layout {
            lemma_items_no_jumps(a.inner@, *inner, syms, fns, dst, regs);
        },
        Expression::Binary(b) => lemma_op_no_jumps(b.op.kind, b.left, b.right, syms, dst, regs),
        Expression::Lisp(b) => lemma_op_no_jumps(b.op.kind, b.left, b.right, syms, dst, regs),
        Expression::Index(ix) => {
            lemma_register_no_jumps(ix.index, syms, regs);
            if let Ok((ci, reg, r1)) = gen_register(ix.index, syms, regs) {
                if let Expression::Path(p) = ix.left {
                    if let Some(sym) = lookup(syms, symbol_name(p)) {
                        lemma_no_jumps_cat(ci, seq![Statement::Ld {
                            source: Source::Pointer { base: symbol_pointer(sym), offset: Some(Box::new(Source::Register(reg))) },
                            destination: store_at(dst),
                        }]);
                    }
                }
            }
        },
        Expression::Call(c) => lemma_call_no_jumps(*c, layout, syms, fns, dst, regs),
        Expression::Parenthesis(p) => lemma_into_no_jumps(p.inner, layout, syms, fns, dst, regs),
        _ => {},
    }
}

proof fn lemma_op_no_jumps<'a>(
    k: TokenKind,
    left: Expression<'a>,
    right: Expression<'a>,
    syms: AllocView,
    dst: Pointer,
    regs: Seq<bool>,
)
    ensures
        gen_op_into(k, left, right, syms, dst, regs) matches Ok(code) ==> no_jumps(code),
{
    lemma_register_no_jumps(left, syms, regs);
    if let Ok((cl, rl, r1)) = gen_register(left, syms, regs) {
        lemma_register_no_jumps(right, syms, r1);
        if let Ok((cr, rr, r2)) = gen_register(right, syms, r1) {
            lemma_no_jumps_cat(cl, cr);
            lemma_no_jumps_cat(cl + cr, seq![op_statement(k, Source::Register(rl), Source::Register(rr), store_at(dst))]);
        }
    }
}

proof fn lemma_items_no_jumps<'a>(
    items: Seq<Expression<'a>>,
    inner: Layout,
    syms: AllocView,
    fns: Seq<FnSigView>,
    dst: Pointer,
    regs: Seq<bool>,
)
    ensures
        gen_items(items, inner, syms, fns, dst, regs) matches Ok(code) ==> no_jumps(code),
    decreases items,
{
    if items.len() > 0 {
        lemma_items_no_jumps(items.drop_last(), inner, syms, fns, dst, regs);
        let off = layout_size(inner) * (items.len() - 1);
        lemma_into_no_jumps(items.last(), inner, syms, fns, at(dst, off), regs);
        if let Ok(c) = gen_items(items.drop_last(), inner, syms, fns, dst, regs) {
            if let Ok(c2) = gen_into(items.last(), inner, syms, fns, at(dst, off), regs) {
                lemma_no_jumps_cat(c, c2);
            }
        }
    }
}

proof fn lemma_tail_no_jumps<'a>(
    tail: Seq<(Token<'a>, Expression<'a>)>,
    layouts: Seq<Layout>,
    syms: AllocView,
    fns: Seq<FnSigView>,
    dst: Pointer,
    regs: Seq<bool>,
)
    ensures
        gen_tail(tail, layouts, syms, fns, dst, regs) matches Ok(code) ==> no_jumps(code),
    decreases tail,
{
    if tail.len() > 0 {
        lemma_tail_no_jumps(tail.drop_last(), layouts, syms, fns, dst, regs);
        let off = prefix_size(layouts, tail.len() as int);
        lemma_into_no_jumps(tail.last().1, layouts[tail.len() as int], syms, fns, at(dst, off), regs);
        if let Ok(c) = gen_tail(tail.drop_last(), layouts, syms, fns, dst, regs) {
            if let Ok(c2) = gen_into(tail.last().1, layouts[tail.len() as int], syms, fns, at(dst, off), regs) {
                lemma_no_jumps_cat(c, c2);
            }
        }
    }
}

proof fn lemma_call_no_jumps<'a>(
    c: crate::ast::Call<'a>,
    layout: Layout,
    syms: AllocView,
    fns: Seq<FnSigView>,
    dst: Pointer,
    regs: Seq<bool>,
)
    ensures
        gen_call(c, layout, syms, fns, dst, regs) matches Ok(code) ==> no_jumps(code),
    decreases c,
{
    if let Expression::Path(p) = c.left {
        if let Some(f) = find_fn(fns, symbol_name(p)) {
            if let Some(a) = c.args {
                lemma_into_no_jumps(a.head, f.args[0], cleared(syms), fns, dst, regs);
                lemma_tail_no_jumps(a.tail@, f.args, cleared(syms), fns, dst, regs);
                if let Ok(ch) = gen_into(a.head, f.args[0], cleared(syms), fns, dst, regs) {
                    if let Ok(ct) = gen_tail(a.tail@, f.args, cleared(syms), fns, dst, regs) {
                        lemma_no_jumps_cat(ch, ct);
                        lemma_no_jumps_cat(ch + ct, seq![Statement::Call {
                            routine: f.routine,
                            address: prefix_size(f.args, f.args.len() as int) as u16,
                        }]);
                    }
                }
            }
        }
    }
}


// laws of the operators

/// The value of a constant binary operation is the arithmetic the operator
/// names, over 16-bit values: `+`, `-` and `*` give the exact sum, difference
/// and product where it fits (and nothing otherwise), `/` the quotient for a
/// non-zero divisor, `>>` by fewer than 16 bits divides by that power of two,
/// `<<` by fewer than 16 bits multiplies by it where the product fits, and
/// bit `i` of `&`, `|` and `^` is the and, or and exclusive or of bit `i` of
/// the operands.
pub proof fn lemma_const_binary(a: u16, b: u16, i: u16)
    requires
        i < 16,
    ensures
        const_binary(TokenKind::Plus, a, b) == (if a + b <= 0xffff {
            Some((a + b) as u16)
        } else {
            None
        }),
        const_binary(TokenKind::Plus, a, b) matches Some(v) ==> v == a + b,
        const_binary(TokenKind::Minus, a, b) matches Some(v) ==> v + b == a,
        const_binary(TokenKind::Minus, a, b) is Some <==> a >= b,
        const_binary(TokenKind::Star, a, b) matches Some(v) ==> v == a * b,
        const_binary(TokenKind::Star, a, b) is Some <==> a * b <= 0xffff,
        const_binary(TokenKind::Slash, a, b) matches Some(v) ==> v * b <= a < (v + 1) * b,
        const_binary(TokenKind::Slash, a, b) is Some <==> b != 0,
        b < 16 ==> const_binary(TokenKind::GreatGreat, a, b) == Some((a as nat / pow2(b as nat)) as u16),
        b < 16 && a * pow2(b as nat) <= 0xffff ==> const_binary(TokenKind::LessLess, a, b) == Some(
            (a * pow2(b as nat)) as u16,
        ),
        const_binary(TokenKind::GreatGreat, a, b) is Some <==> b < 16,
        const_binary(TokenKind::LessLess, a, b) is Some <==> b < 16,
        const_binary(TokenKind::Ampersand, a, b) matches Some(v) && (((v >> i) & 1) == 1 <==> (((a >> i) & 1)
            == 1 && ((b >> i) & 1) == 1)),
        const_binary(TokenKind::Pipe, a, b) matches Some(v) && (((v >> i) & 1) == 1 <==> (((a >> i) & 1) == 1
            || ((b >> i) & 1) == 1)),
        const_binary(TokenKind::Caret, a, b) matches Some(v) && (((v >> i) & 1) == 1 <==> (((a >> i) & 1)
            != ((b >> i) & 1))),
{
    if b != 0 {
        let v = a / b;
        assert(v * b <= a < (v + 1) * b) by (nonlinear_arith)
            requires
                b > 0,
                v == a / b,
        ;
    }
    if b < 16 {
        vstd::bits::lemma_u16_shr_is_div(a, b);
        if a * pow2(b as nat) <= 0xffff {
            vstd::bits::lemma_u16_shl_is_mul(a, b);
        }
    }
    assert((((a & b) >> i) & 1) == 1 <==> (((a >> i) & 1) == 1 && ((b >> i) & 1) == 1)) by (bit_vector)
        requires
            i < 16,
    ;
    assert((((a | b) >> i) & 1) == 1 <==> (((a >> i) & 1) == 1 || ((b >> i) & 1) == 1)) by (bit_vector)
        requires
            i < 16,
    ;
    assert((((a ^ b) >> i) & 1) == 1 <==> (((a >> i) & 1) != ((b >> i) & 1))) by (bit_vector)
        requires
            i < 16,
    ;
}

/// Left operand, right operand and destination of an IR byte operation;
/// `None` for any other statement.
pub open spec fn byte_operands(s: Statement) -> Option<(Source<u8>, Source<u8>, Destination)> {
    match s {
        Statement::Add { left, right, destination } => Some((left, right, destination)),
        Statement::Sub { left, right, destination } => Some((left, right, destination)),
        Statement::Mul { left, right, destination } => Some((left, right, destination)),
        Statement::Div { left, right, destination } => Some((left, right, destination)),
        Statement::And { left, right, destination } => Some((left, right, destination)),
        Statement::Or { left, right, destination } => Some((left, right, destination)),
        Statement::Xor { left, right, destination } => Some((left, right, destination)),
        Statement::LeftShift { left, right, destination } => Some((left, right, destination)),
        Statement::RightShift { left, right, destination } => Some((left, right, destination)),
        Statement::Eq { left, right, destination } => Some((left, right, destination)),
        Statement::NotEq { left, right, destination } => Some((left, right, destination)),
        Statement::Greater { left, right, destination } => Some((left, right, destination)),
        Statement::GreaterEq { left, right, destination } => Some((left, right, destination)),
        Statement::Less { left, right, destination } => Some((left, right, destination)),
        Statement::LessEq { left, right, destination } => Some((left, right, destination)),
        _ => None,
    }
}

/// Truth value as a byte: 1 for true, 0 for false.
pub open spec fn truth(b: bool) -> int {
    if b {
        1
    } else {
        0
    }
}

/// What an IR byte operation stores, given the byte values `a` of its left
/// and `b` of its right operand: wrapping byte sum, difference and product,
/// quotient (none for a zero divisor), bitwise and, or and exclusive or,
/// shifts by `b` bits, and the truth of the comparisons; `None` for any other
/// statement.
pub open spec fn byte_result(s: Statement, a: u8, b: u8) -> Option<int> {
    match s {
        Statement::Add { .. } => Some((a + b) % 256),
        Statement::Sub { .. } => Some((a - b) % 256),
        Statement::Mul { .. } => Some((a * b) % 256),
        Statement::Div { .. } => if b == 0 {
            None
        } else {
            Some(a as int / b as int)
        },
        Statement::And { .. } => Some((a & b) as int),
        Statement::Or { .. } => Some((a | b) as int),
        Statement::Xor { .. } => Some((a ^ b) as int),
        Statement::LeftShift { .. } => Some((a * pow2(b as nat)) % 256),
        Statement::RightShift { .. } => Some(a as int / pow2(b as nat) as int),
        Statement::Eq { .. } => Some(truth(a == b)),
        Statement::NotEq { .. } => Some(truth(a != b)),
        Statement::Greater { .. } => Some(truth(a > b)),
        Statement::GreaterEq { .. } => Some(truth(a >= b)),
        Statement::Less { .. } => Some(truth(a < b)),
        Statement::LessEq { .. } => Some(truth(a <= b)),
        _ => None,
    }
}

/// What the operator token `k` of the language means on bytes `a` (left)
/// and `b` (right): `+ - *` wrap at 256, `/` has no value for a zero
/// divisor, `& | ^` work bit by bit, `<<` and `>>` shift by `b` bits, and
/// `== ~= > >= < <=` give their truth; `None` for any other token.
pub open spec fn operator_meaning(k: TokenKind, a: u8, b: u8) -> Option<int> {
    match k {
        TokenKind::Plus => Some((a + b) % 256),
        TokenKind::Minus => Some((a - b) % 256),
        TokenKind::Star => Some((a * b) % 256),
        TokenKind::Slash => if b == 0 {
            None
        } else {
            Some(a as int / b as int)
        },
        TokenKind::Ampersand => Some((a & b) as int),
        TokenKind::Pipe => Some((a | b) as int),
        TokenKind::Caret => Some((a ^ b) as int),
        TokenKind::LessLess => Some((a * pow2(b as nat)) % 256),
        TokenKind::GreatGreat => Some(a as int / pow2(b as nat) as int),
        TokenKind::Eq => Some(truth(a == b)),
        TokenKind::TildeEq => Some(truth(a != b)),
        TokenKind::Greater => Some(truth(a > b)),
        TokenKind::GreaterEq => Some(truth(a >= b)),
        TokenKind::Less => Some(truth(a < b)),
        TokenKind::LessEq => Some(truth(a <= b)),
        _ => None,
    }
}

/// Each operator compiles to the IR operation that computes it: the
/// statement that [`op_statement`] gives for an operator token takes the
/// operator's left operand as its left operand and its right operand as its
/// right one, stores into the given destination, and stores what the
/// operator means on any two byte values (so `-` is a subtraction, `>` a
/// greater-than test, and so on).
pub proof fn lemma_operator_statement(k: TokenKind, l: Source<u8>, r: Source<u8>, d: Destination, a: u8, b: u8)
    requires
        is_arith_op(k),
    ensures
        byte_operands(op_statement(k, l, r, d)) == Some((l, r, d)),
        byte_result(op_statement(k, l, r, d), a, b) == operator_meaning(k, a, b),
{
}

/// A compound assignment applies the operator written before its `=`: the
/// operator that [`assign_arith`] gives for `+=`, `-=`, `*=`, `/=`, `&=`,
/// `|=` and `^=` is a byte operator whose documented text followed by `=`
/// is the documented text of the compound assignment, and every one of them
/// has such an operator.
pub proof fn lemma_compound_assignment(k: TokenKind)
    ensures
        assign_arith(k) matches Some(op) ==> is_arith_op(op) && documented_keyword(k) == documented_keyword(op).push(
            61u8,
        ),
        (k == TokenKind::PlusAssign || k == TokenKind::MinusAssign || k == TokenKind::StarAssign || k
            == TokenKind::SlashAssign || k == TokenKind::AmpersandAssign || k == TokenKind::PipeAssign || k
            == TokenKind::CaretAssign) ==> assign_arith(k) is Some,
{
    if let Some(op) = assign_arith(k) {
        assert(documented_keyword(k) =~= documented_keyword(op).push(61u8));
    }
}

/// The constant value of `~e` is `e`'s value with every one of its 16 bits
/// flipped.
pub proof fn lemma_const_not<'a>(e: Expression<'a>, octal: bool, env: spec_fn(Seq<u8>) -> Option<u16>, i: u16)
    requires
        e matches Expression::Unary(u) && u.op.kind == TokenKind::Tilde,
        i < 16,
    ensures
        ({
            let inner = const_eval(e->Unary_0.inner, octal, env);
            &&& const_eval(e, octal, env) is Some <==> inner is Some
            &&& inner is Some ==> (((const_eval(e, octal, env)->0 >> i) & 1) == 1 <==> ((inner->0 >> i) & 1) == 0)
        }),
{
    let inner = const_eval(e->Unary_0.inner, octal, env);
    if let Some(v) = inner {
        assert((((!v) >> i) & 1) == 1 <==> ((v >> i) & 1) == 0) by (bit_vector)
            requires
                i < 16,
        ;
    }
}

/// A constant binary expression, written infix or prefix (`(op l r)`), has
/// the value of its operator applied to its left operand's value first and
/// its right operand's value second (see [`lemma_const_binary`]), and none
/// where an operand has none.
pub proof fn lemma_const_eval_binary<'a>(e: Expression<'a>, octal: bool, env: spec_fn(Seq<u8>) -> Option<u16>)
    requires
        e is Binary || e is Lisp,
    ensures
        ({
            let (k, l, r) = match e {
                Expression::Binary(b) => (b.op.kind, b.left, b.right),
                Expression::Lisp(b) => (b.op.kind, b.left, b.right),
                _ => (TokenKind::Eof, e, e),
            };
            &&& (const_eval(l, octal, env) is None || const_eval(r, octal, env) is None) ==> const_eval(
                e,
                octal,
                env,
            ) is None
            &&& (const_eval(l, octal, env) is Some && const_eval(r, octal, env) is Some) ==> const_eval(
                e,
                octal,
                env,
            ) == const_binary(k, const_eval(l, octal, env)->0, const_eval(r, octal, env)->0)
        }),
{
}

} // verus!
