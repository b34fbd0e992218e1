//! Mnemonic text of IR statements.
use crate::ir::statement::{pointer_address, Destination, Location, Pointer, Source, Statement};
use vstd::prelude::*;

verus! {

/// Decimal digits of `n`.
pub open spec fn dec_digits(n: nat) -> Seq<u8>
    decreases n,
{
    if n < 10 {
        seq![(48 + n) as u8]
    } else {
        dec_digits(n / 10).push((48 + n % 10) as u8)
    }
}

/// Decimal text of a signed number.
pub open spec fn signed_text(v: int) -> Seq<u8> {
    if v < 0 {
        seq![45u8] + dec_digits((-v) as nat)
    } else {
        dec_digits(v as nat)
    }
}

/// Lower case hexadecimal digit.
pub open spec fn hex_digit(d: int) -> u8 {
    if d < 10 {
        (48 + d) as u8
    } else {
        (87 + d) as u8
    }
}

/// Four lower case hexadecimal digits of `v`.
pub open spec fn hex4(v: u16) -> Seq<u8> {
    seq![
        hex_digit((v / 4096) as int),
        hex_digit(((v / 256) % 16) as int),
        hex_digit(((v / 16) % 16) as int),
        hex_digit((v % 16) as int),
    ]
}

/// Text of a pointer: its space, `@` and its address in four hexadecimal digits.
pub open spec fn pointer_text(p: Pointer) -> Seq<u8> {
    let space = match p {
        Pointer::Absolute(_) => seq![97u8, 98u8, 115u8, 64u8],
        Pointer::Static(_) => seq![115u8, 116u8, 97u8, 116u8, 105u8, 99u8, 64u8],
        Pointer::Const(_) => seq![99u8, 111u8, 110u8, 115u8, 116u8, 64u8],
        Pointer::Stack(_) => seq![115u8, 116u8, 97u8, 99u8, 107u8, 64u8],
    };
    space + hex4(pointer_address(p))
}

/// Text of a word source.
pub open spec fn word_source_text(s: Source<u16>) -> Seq<u8>
    decreases s,
{
    match s {
        Source::Pointer { base, offset } => seq![40u8] + pointer_text(base) + match offset {
            Some(o) => seq![43u8] + word_source_text(*o),
            None => seq![],
        } + seq![41u8],
        Source::Register(r) => seq![37u8] + dec_digits(r as nat),
        Source::Literal(l) => seq![35u8] + dec_digits(l as nat),
    }
}

/// Text of a base pointer and its optional offset, in parentheses.
pub open spec fn base_offset_text(base: Pointer, offset: Option<Box<Source<u16>>>) -> Seq<u8> {
    seq![40u8] + pointer_text(base) + match offset {
        Some(o) => seq![43u8] + word_source_text(*o),
        None => seq![],
    } + seq![41u8]
}

/// Text of a byte source.
pub open spec fn byte_source_text(s: Source<u8>) -> Seq<u8> {
    match s {
        Source::Pointer { base, offset } => base_offset_text(base, offset),
        Source::Register(r) => seq![37u8] + dec_digits(r as nat),
        Source::Literal(l) => seq![35u8] + dec_digits(l as nat),
    }
}

/// Text of a destination.
pub open spec fn destination_text(d: Destination) -> Seq<u8> {
    match d {
        Destination::Pointer { base, offset } => base_offset_text(base, offset),
        Destination::Register(r) => seq![37u8] + dec_digits(r as nat),
    }
}

/// Text of a jump location: the relative offset in decimal.
pub open spec fn location_text(l: Location) -> Seq<u8> {
    match l {
        Location::Relative(r) => signed_text(r as int),
    }
}

/// Mnemonic text of a statement: the mnemonic, then the destination, `←`
/// and the sources. Loading an address has no text.
pub open spec fn mnemonic(s: Statement) -> Seq<u8> {
    match s {
        Statement::Nop(i) => seq![78u8, 79u8, 80u8, 32u8] + dec_digits(i as nat),
        Statement::Stop => seq![83u8, 84u8, 79u8, 80u8],
        Statement::Ld { source, destination } => seq![76u8, 68u8, 32u8] + destination_text(destination) + seq![32u8, 226u8, 134u8, 144u8, 32u8] + byte_source_text(source),
        Statement::LdW { source, destination } => seq![76u8, 68u8, 87u8, 32u8] + destination_text(destination) + seq![32u8, 226u8, 134u8, 144u8, 32u8] + word_source_text(source),
        Statement::Inc { source, destination } => seq![73u8, 78u8, 67u8, 32u8] + destination_text(destination) + seq![32u8, 226u8, 134u8, 144u8, 32u8] + byte_source_text(source),
        Statement::Dec { source, destination } => seq![68u8, 69u8, 67u8, 32u8] + destination_text(destination) + seq![32u8, 226u8, 134u8, 144u8, 32u8] + byte_source_text(source),
        Statement::IncW { source, destination } => seq![73u8, 78u8, 67u8, 87u8, 32u8] + destination_text(destination) + seq![32u8, 226u8, 134u8, 144u8, 32u8] + word_source_text(source),
        Statement::DecW { source, destination } => seq![68u8, 69u8, 67u8, 87u8, 32u8] + destination_text(destination) + seq![32u8, 226u8, 134u8, 144u8, 32u8] + word_source_text(source),
        Statement::Add { left, right, destination } => seq![65u8, 68u8, 68u8, 32u8] + destination_text(destination) + seq![32u8, 226u8, 134u8, 144u8, 32u8] + byte_source_text(left) + seq![32u8] + byte_source_text(right),
        Statement::Sub { left, right, destination } => seq![83u8, 85u8, 66u8, 32u8] + destination_text(destination) + seq![32u8, 226u8, 134u8, 144u8, 32u8] + byte_source_text(left) + seq![32u8] + byte_source_text(right),
        Statement::And { left, right, destination } => seq![65u8, 78u8, 68u8, 32u8] + destination_text(destination) + seq![32u8, 226u8, 134u8, 144u8, 32u8] + byte_source_text(left) + seq![32u8] + byte_source_text(right),
        Statement::Xor { left, right, destination } => seq![88u8, 79u8, 82u8, 32u8] + destination_text(destination) + seq![32u8, 226u8, 134u8, 144u8, 32u8] + byte_source_text(left) + seq![32u8] + byte_source_text(right),
        Statement::Or { left, right, destination } => seq![79u8, 82u8, 32u8] + destination_text(destination) + seq![32u8, 226u8, 134u8, 144u8, 32u8] + byte_source_text(left) + seq![32u8] + byte_source_text(right),
        Statement::LeftShift { left, right, destination } => seq![76u8, 69u8, 70u8, 84u8, 83u8, 72u8, 73u8, 70u8, 84u8, 32u8] + destination_text(destination) + seq![32u8, 226u8, 134u8, 144u8, 32u8] + byte_source_text(left) + seq![32u8] + byte_source_text(right),
        Statement::RightShift { left, right, destination } => seq![82u8, 73u8, 71u8, 72u8, 84u8, 83u8, 72u8, 73u8, 70u8, 84u8, 32u8] + destination_text(destination) + seq![32u8, 226u8, 134u8, 144u8, 32u8] + byte_source_text(left) + seq![32u8] + byte_source_text(right),
        Statement::AddW { left, right, destination } => seq![65u8, 68u8, 68u8, 87u8, 32u8] + destination_text(destination) + seq![32u8, 226u8, 134u8, 144u8, 32u8] + word_source_text(left) + seq![32u8] + word_source_text(right),
        Statement::SubW { left, right, destination } => seq![83u8, 85u8, 66u8, 87u8, 32u8] + destination_text(destination) + seq![32u8, 226u8, 134u8, 144u8, 32u8] + word_source_text(left) + seq![32u8] + word_source_text(right),
        Statement::AndW { left, right, destination } => seq![65u8, 78u8, 68u8, 87u8, 32u8] + destination_text(destination) + seq![32u8, 226u8, 134u8, 144u8, 32u8] + word_source_text(left) + seq![32u8] + word_source_text(right),
        Statement::XorW { left, right, destination } => seq![88u8, 79u8, 82u8, 87u8, 32u8] + destination_text(destination) + seq![32u8, 226u8, 134u8, 144u8, 32u8] + word_source_text(left) + seq![32u8] + word_source_text(right),
        Statement::OrW { left, right, destination } => seq![79u8, 82u8, 87u8, 32u8] + destination_text(destination) + seq![32u8, 226u8, 134u8, 144u8, 32u8] + word_source_text(left) + seq![32u8] + word_source_text(right),
        Statement::LeftShiftW { left, right, destination } => seq![76u8, 69u8, 70u8, 84u8, 83u8, 72u8, 73u8, 70u8, 84u8, 87u8, 32u8] + destination_text(destination) + seq![32u8, 226u8, 134u8, 144u8, 32u8] + word_source_text(left) + seq![32u8] + byte_source_text(right),
        Statement::RightShiftW { left, right, destination } => seq![82u8, 73u8, 71u8, 72u8, 84u8, 83u8, 72u8, 73u8, 70u8, 84u8, 87u8, 32u8] + destination_text(destination) + seq![32u8, 226u8, 134u8, 144u8, 32u8] + word_source_text(left) + seq![32u8] + byte_source_text(right),
        Statement::Mul { left, right, destination } => seq![77u8, 85u8, 76u8, 32u8] + destination_text(destination) + seq![32u8, 226u8, 134u8, 144u8, 32u8] + byte_source_text(left) + seq![32u8] + byte_source_text(right),
        Statement::Div { left, right, destination } => seq![68u8, 73u8, 86u8, 32u8] + destination_text(destination) + seq![32u8, 226u8, 134u8, 144u8, 32u8] + byte_source_text(left) + seq![32u8] + byte_source_text(right),
        Statement::MulW { left, right, destination } => seq![77u8, 85u8, 76u8, 87u8, 32u8] + destination_text(destination) + seq![32u8, 226u8, 134u8, 144u8, 32u8] + word_source_text(left) + seq![32u8] + word_source_text(right),
        Statement::DivW { left, right, destination } => seq![68u8, 73u8, 86u8, 87u8, 32u8] + destination_text(destination) + seq![32u8, 226u8, 134u8, 144u8, 32u8] + word_source_text(left) + seq![32u8] + word_source_text(right),
        Statement::Rem { left, right, destination } => seq![82u8, 69u8, 77u8, 32u8] + destination_text(destination) + seq![32u8, 226u8, 134u8, 144u8, 32u8] + byte_source_text(left) + seq![32u8] + byte_source_text(right),
        Statement::Eq { left, right, destination } => seq![69u8, 81u8, 32u8] + destination_text(destination) + seq![32u8, 226u8, 134u8, 144u8, 32u8] + byte_source_text(left) + seq![32u8] + byte_source_text(right),
        Statement::NotEq { left, right, destination } => seq![78u8, 79u8, 84u8, 69u8, 81u8, 32u8] + destination_text(destination) + seq![32u8, 226u8, 134u8, 144u8, 32u8] + byte_source_text(left) + seq![32u8] + byte_source_text(right),
        Statement::Greater { left, right, destination } => seq![71u8, 82u8, 69u8, 65u8, 84u8, 69u8, 82u8, 32u8] + destination_text(destination) + seq![32u8, 226u8, 134u8, 144u8, 32u8] + byte_source_text(left) + seq![32u8] + byte_source_text(right),
        Statement::GreaterEq { left, right, destination } => seq![71u8, 82u8, 69u8, 65u8, 84u8, 69u8, 82u8, 69u8, 81u8, 32u8] + destination_text(destination) + seq![32u8, 226u8, 134u8, 144u8, 32u8] + byte_source_text(left) + seq![32u8] + byte_source_text(right),
        Statement::Less { left, right, destination } => seq![76u8, 69u8, 83u8, 83u8, 32u8] + destination_text(destination) + seq![32u8, 226u8, 134u8, 144u8, 32u8] + byte_source_text(left) + seq![32u8] + byte_source_text(right),
        Statement::LessEq { left, right, destination } => seq![76u8, 69u8, 83u8, 83u8, 69u8, 81u8, 32u8] + destination_text(destination) + seq![32u8, 226u8, 134u8, 144u8, 32u8] + byte_source_text(left) + seq![32u8] + byte_source_text(right),
        Statement::LdAddr { .. } => seq![],
        Statement::Jmp { location } => seq![74u8, 77u8, 80u8, 32u8] + location_text(location),
        Statement::JmpCmp { location, source } => seq![74u8, 77u8, 80u8, 67u8, 77u8, 80u8, 32u8] + location_text(location) + byte_source_text(source),
        Statement::JmpCmpNot { location, source } => seq![74u8, 77u8, 80u8, 67u8, 77u8, 80u8, 78u8, 79u8, 84u8, 32u8] + location_text(location) + seq![32u8] + byte_source_text(source),
        Statement::Call { .. } => seq![84u8, 79u8, 68u8, 79u8],
        Statement::Ret => seq![82u8, 69u8, 84u8],
    }
}

fn push_text(out: &mut Vec<u8>, text: &[u8])
    ensures
        final(out)@ == old(out)@ + text@,
{
    let mut i: usize = 0;
    while i < text.len()
        invariant
            i <= text@.len(),
            out@ == old(out)@ + text@.subrange(0, i as int),
        decreases text.len() - i,
    {
        out.push(text[i]);
        i = i + 1;
        assert(out@ =~= old(out)@ + text@.subrange(0, i as int));
    }
    assert(text@.subrange(0, i as int) =~= text@);
}

fn push_dec(out: &mut Vec<u8>, n: u64)
    ensures
        final(out)@ == old(out)@ + dec_digits(n as nat),
    decreases n,
{
    if n >= 10 {
        push_dec(out, n / 10);
    }
    out.push((48 + n % 10) as u8);
    assert(out@ =~= old(out)@ + dec_digits(n as nat));
}

fn push_signed(out: &mut Vec<u8>, v: i8)
    ensures
        final(out)@ == old(out)@ + signed_text(v as int),
{
    if v < 0 {
        out.push(45);
        let m: u64 = (-(v as i64)) as u64;
        push_dec(out, m);
        assert(out@ =~= old(out)@ + signed_text(v as int));
    } else {
        push_dec(out, v as u64);
    }
}

fn hex(d: u16) -> (r: u8)
    requires
        d < 16,
    ensures
        r == hex_digit(d as int),
{
    if d < 10 {
        (48 + d) as u8
    } else {
        (87 + d) as u8
    }
}

fn push_pointer(out: &mut Vec<u8>, p: &Pointer)
    ensures
        final(out)@ == old(out)@ + pointer_text(*p),
{
    let a = match p {
        Pointer::Absolute(a) => {
            push_text(out, &[97, 98, 115, 64]);
            *a
        },
        Pointer::Static(a) => {
            push_text(out, &[115, 116, 97, 116, 105, 99, 64]);
            *a
        },
        Pointer::Const(a) => {
            push_text(out, &[99, 111, 110, 115, 116, 64]);
            *a
        },
        Pointer::Stack(a) => {
            push_text(out, &[115, 116, 97, 99, 107, 64]);
            *a
        },
    };
    out.push(hex(a / 4096));
    out.push(hex((a / 256) % 16));
    out.push(hex((a / 16) % 16));
    out.push(hex(a % 16));
    assert(out@ =~= old(out)@ + pointer_text(*p));
}

fn push_word_source(out: &mut Vec<u8>, s: &Source<u16>)
    ensures
        final(out)@ == old(out)@ + word_source_text(*s),
    decreases s,
{
    match s {
        Source::Pointer { base, offset } => {
            out.push(40);
            push_pointer(out, base);
            if let Some(o) = offset {
                out.push(43);
                push_word_source(out, o);
            }
            out.push(41);
            assert(out@ =~= old(out)@ + word_source_text(*s));
        },
        Source::Register(r) => {
            out.push(37);
            push_dec(out, *r as u64);
            assert(out@ =~= old(out)@ + word_source_text(*s));
        },
        Source::Literal(l) => {
            out.push(35);
            push_dec(out, *l as u64);
            assert(out@ =~= old(out)@ + word_source_text(*s));
        },
    }
}

fn push_base_offset(out: &mut Vec<u8>, base: &Pointer, offset: &Option<Box<Source<u16>>>)
    ensures
        final(out)@ == old(out)@ + base_offset_text(*base, *offset),
{
    out.push(40);
    push_pointer(out, base);
    if let Some(o) = offset {
        out.push(43);
        push_word_source(out, o);
    }
    out.push(41);
    assert(out@ =~= old(out)@ + base_offset_text(*base, *offset));
}

fn push_byte_source(out: &mut Vec<u8>, s: &Source<u8>)
    ensures
        final(out)@ == old(out)@ + byte_source_text(*s),
{
    match s {
        Source::Pointer { base, offset } => push_base_offset(out, base, offset),
        Source::Register(r) => {
            out.push(37);
            push_dec(out, *r as u64);
            assert(out@ =~= old(out)@ + byte_source_text(*s));
        },
        Source::Literal(l) => {
            out.push(35);
            push_dec(out, *l as u64);
            assert(out@ =~= old(out)@ + byte_source_text(*s));
        },
    }
}

fn push_destination(out: &mut Vec<u8>, d: &Destination)
    ensures
        final(out)@ == old(out)@ + destination_text(*d),
{
    match d {
        Destination::Pointer { base, offset } => push_base_offset(out, base, offset),
        Destination::Register(r) => {
            out.push(37);
            push_dec(out, *r as u64);
            assert(out@ =~= old(out)@ + destination_text(*d));
        },
    }
}

fn push_location(out: &mut Vec<u8>, l: &Location)
    ensures
        final(out)@ == old(out)@ + location_text(*l),
{
    match l {
        Location::Relative(r) => push_signed(out, *r),
    }
}

impl Statement {
    /// Return displayable mnemonic.
    pub fn display(&self) -> (r: MnemonicDisplay<'_>)
        ensures
            *r.statement() == *self,
    {
        MnemonicDisplay { statement: self }
    }
}

/// Displayable statement mnemonic.
#[derive(Debug)]
pub struct MnemonicDisplay<'a> {
    statement: &'a Statement,
}

impl<'a> MnemonicDisplay<'a> {
    /// The statement displayed.
    pub closed spec fn statement(&self) -> &'a Statement {
        self.statement
    }

    /// The mnemonic text, as UTF-8 bytes (see [`mnemonic`]).
    pub fn fmt(&self) -> (r: Vec<u8>)
        requires
            !(self.statement() is LdAddr),
        ensures
            r@ == mnemonic(*self.statement()),
    {
        let mut text: Vec<u8> = Vec::new();
        let out = &mut text;
        match self.statement {
            Statement::Nop(i) => {
                push_text(out, &[78, 79, 80, 32]);
                push_dec(out, *i as u64);
            },
            Statement::Stop => push_text(out, &[83, 84, 79, 80]),
            Statement::Ld { source, destination } => {
                push_text(out, &[76, 68, 32]);
                push_destination(out, destination);
                push_text(out, &[32, 226, 134, 144, 32]);
                push_byte_source(out, source);
            },
            Statement::LdW { source, destination } => {
                push_text(out, &[76, 68, 87, 32]);
                push_destination(out, destination);
                push_text(out, &[32, 226, 134, 144, 32]);
                push_word_source(out, source);
            },
            Statement::Inc { source, destination } => {
                push_text(out, &[73, 78, 67, 32]);
                push_destination(out, destination);
                push_text(out, &[32, 226, 134, 144, 32]);
                push_byte_source(out, source);
            },
            Statement::Dec { source, destination } => {
                push_text(out, &[68, 69, 67, 32]);
                push_destination(out, destination);
                push_text(out, &[32, 226, 134, 144, 32]);
                push_byte_source(out, source);
            },
            Statement::IncW { source, destination } => {
                push_text(out, &[73, 78, 67, 87, 32]);
                push_destination(out, destination);
                push_text(out, &[32, 226, 134, 144, 32]);
                push_word_source(out, source);
            },
            Statement::DecW { source, destination } => {
                push_text(out, &[68, 69, 67, 87, 32]);
                push_destination(out, destination);
                push_text(out, &[32, 226, 134, 144, 32]);
                push_word_source(out, source);
            },
            Statement::Add { left, right, destination } => {
                push_text(out, &[65, 68, 68, 32]);
                push_destination(out, destination);
                push_text(out, &[32, 226, 134, 144, 32]);
                push_byte_source(out, left);
                push_text(out, &[32]);
                push_byte_source(out, right);
            },
            Statement::Sub { left, right, destination } => {
                push_text(out, &[83, 85, 66, 32]);
                push_destination(out, destination);
                push_text(out, &[32, 226, 134, 144, 32]);
                push_byte_source(out, left);
                push_text(out, &[32]);
                push_byte_source(out, right);
            },
            Statement::And { left, right, destination } => {
                push_text(out, &[65, 78, 68, 32]);
                push_destination(out, destination);
                push_text(out, &[32, 226, 134, 144, 32]);
                push_byte_source(out, left);
                push_text(out, &[32]);
                push_byte_source(out, right);
            },
            Statement::Xor { left, right, destination } => {
                push_text(out, &[88, 79, 82, 32]);
                push_destination(out, destination);
                push_text(out, &[32, 226, 134, 144, 32]);
                push_byte_source(out, left);
                push_text(out, &[32]);
                push_byte_source(out, right);
            },
            Statement::Or { left, right, destination } => {
                push_text(out, &[79, 82, 32]);
                push_destination(out, destination);
                push_text(out, &[32, 226, 134, 144, 32]);
                push_byte_source(out, left);
                push_text(out, &[32]);
                push_byte_source(out, right);
            },
            Statement::LeftShift { left, right, destination } => {
                push_text(out, &[76, 69, 70, 84, 83, 72, 73, 70, 84, 32]);
                push_destination(out, destination);
                push_text(out, &[32, 226, 134, 144, 32]);
                push_byte_source(out, left);
                push_text(out, &[32]);
                push_byte_source(out, right);
            },
            Statement::RightShift { left, right, destination } => {
                push_text(out, &[82, 73, 71, 72, 84, 83, 72, 73, 70, 84, 32]);
                push_destination(out, destination);
                push_text(out, &[32, 226, 134, 144, 32]);
                push_byte_source(out, left);
                push_text(out, &[32]);
                push_byte_source(out, right);
            },
            Statement::AddW { left, right, destination } => {
                push_text(out, &[65, 68, 68, 87, 32]);
                push_destination(out, destination);
                push_text(out, &[32, 226, 134, 144, 32]);
                push_word_source(out, left);
                push_text(out, &[32]);
                push_word_source(out, right);
            },
            Statement::SubW { left, right, destination } => {
                push_text(out, &[83, 85, 66, 87, 32]);
                push_destination(out, destination);
                push_text(out, &[32, 226, 134, 144, 32]);
                push_word_source(out, left);
                push_text(out, &[32]);
                push_word_source(out, right);
            },
            Statement::AndW { left, right, destination } => {
                push_text(out, &[65, 78, 68, 87, 32]);
                push_destination(out, destination);
                push_text(out, &[32, 226, 134, 144, 32]);
                push_word_source(out, left);
                push_text(out, &[32]);
                push_word_source(out, right);
            },
            Statement::XorW { left, right, destination } => {
                push_text(out, &[88, 79, 82, 87, 32]);
                push_destination(out, destination);
                push_text(out, &[32, 226, 134, 144, 32]);
                push_word_source(out, left);
                push_text(out, &[32]);
                push_word_source(out, right);
            },
            Statement::OrW { left, right, destination } => {
                push_text(out, &[79, 82, 87, 32]);
                push_destination(out, destination);
                push_text(out, &[32, 226, 134, 144, 32]);
                push_word_source(out, left);
                push_text(out, &[32]);
                push_word_source(out, right);
            },
            Statement::LeftShiftW { left, right, destination } => {
                push_text(out, &[76, 69, 70, 84, 83, 72, 73, 70, 84, 87, 32]);
                push_destination(out, destination);
                push_text(out, &[32, 226, 134, 144, 32]);
                push_word_source(out, left);
                push_text(out, &[32]);
                push_byte_source(out, right);
            },
            Statement::RightShiftW { left, right, destination } => {
                push_text(out, &[82, 73, 71, 72, 84, 83, 72, 73, 70, 84, 87, 32]);
                push_destination(out, destination);
                push_text(out, &[32, 226, 134, 144, 32]);
                push_word_source(out, left);
                push_text(out, &[32]);
                push_byte_source(out, right);
            },
            Statement::Mul { left, right, destination } => {
                push_text(out, &[77, 85, 76, 32]);
                push_destination(out, destination);
                push_text(out, &[32, 226, 134, 144, 32]);
                push_byte_source(out, left);
                push_text(out, &[32]);
                push_byte_source(out, right);
            },
            Statement::Div { left, right, destination } => {
                push_text(out, &[68, 73, 86, 32]);
                push_destination(out, destination);
                push_text(out, &[32, 226, 134, 144, 32]);
                push_byte_source(out, left);
                push_text(out, &[32]);
                push_byte_source(out, right);
            },
            Statement::MulW { left, right, destination } => {
                push_text(out, &[77, 85, 76, 87, 32]);
                push_destination(out, destination);
                push_text(out, &[32, 226, 134, 144, 32]);
                push_word_source(out, left);
                push_text(out, &[32]);
                push_word_source(out, right);
            },
            Statement::DivW { left, right, destination } => {
                push_text(out, &[68, 73, 86, 87, 32]);
                push_destination(out, destination);
                push_text(out, &[32, 226, 134, 144, 32]);
                push_word_source(out, left);
                push_text(out, &[32]);
                push_word_source(out, right);
            },
            Statement::Rem { left, right, destination } => {
                push_text(out, &[82, 69, 77, 32]);
                push_destination(out, destination);
                push_text(out, &[32, 226, 134, 144, 32]);
                push_byte_source(out, left);
                push_text(out, &[32]);
                push_byte_source(out, right);
            },
            Statement::Eq { left, right, destination } => {
                push_text(out, &[69, 81, 32]);
                push_destination(out, destination);
                push_text(out, &[32, 226, 134, 144, 32]);
                push_byte_source(out, left);
                push_text(out, &[32]);
                push_byte_source(out, right);
            },
            Statement::NotEq { left, right, destination } => {
                push_text(out, &[78, 79, 84, 69, 81, 32]);
                push_destination(out, destination);
                push_text(out, &[32, 226, 134, 144, 32]);
                push_byte_source(out, left);
                push_text(out, &[32]);
                push_byte_source(out, right);
            },
            Statement::Greater { left, right, destination } => {
                push_text(out, &[71, 82, 69, 65, 84, 69, 82, 32]);
                push_destination(out, destination);
                push_text(out, &[32, 226, 134, 144, 32]);
                push_byte_source(out, left);
                push_text(out, &[32]);
                push_byte_source(out, right);
            },
            Statement::GreaterEq { left, right, destination } => {
                push_text(out, &[71, 82, 69, 65, 84, 69, 82, 69, 81, 32]);
                push_destination(out, destination);
                push_text(out, &[32, 226, 134, 144, 32]);
                push_byte_source(out, left);
                push_text(out, &[32]);
                push_byte_source(out, right);
            },
            Statement::Less { left, right, destination } => {
                push_text(out, &[76, 69, 83, 83, 32]);
                push_destination(out, destination);
                push_text(out, &[32, 226, 134, 144, 32]);
                push_byte_source(out, left);
                push_text(out, &[32]);
                push_byte_source(out, right);
            },
            Statement::LessEq { left, right, destination } => {
                push_text(out, &[76, 69, 83, 83, 69, 81, 32]);
                push_destination(out, destination);
                push_text(out, &[32, 226, 134, 144, 32]);
                push_byte_source(out, left);
                push_text(out, &[32]);
                push_byte_source(out, right);
            },
            Statement::LdAddr { .. } => {},
            Statement::Jmp { location } => {
                push_text(out, &[74, 77, 80, 32]);
                push_location(out, location);
            },
            Statement::JmpCmp { location, source } => {
                push_text(out, &[74, 77, 80, 67, 77, 80, 32]);
                push_location(out, location);
                push_byte_source(out, source);
            },
            Statement::JmpCmpNot { location, source } => {
                push_text(out, &[74, 77, 80, 67, 77, 80, 78, 79, 84, 32]);
                push_location(out, location);
                push_text(out, &[32]);
                push_byte_source(out, source);
            },
            Statement::Call { .. } => push_text(out, &[84, 79, 68, 79]),
            Statement::Ret => push_text(out, &[82, 69, 84]),
        }
        assert(text@ =~= mnemonic(*self.statement()));
        text
    }
}

} // verus!
