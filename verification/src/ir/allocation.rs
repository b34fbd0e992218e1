//! Allocation of symbols in the virtual memory spaces, and of functions.
use crate::ast::{Expression, Field, Type};
use crate::lex::Token;
use crate::ir::expression::{compute_const_expr, const_eval, no_symbols};
use crate::ir::layout::{layout_size, type_layout, Layout};
use crate::ir::members::{member_symbols, push_member_symbols};
use crate::ir::statement::Pointer;
use crate::ir::CompileError;
use byteorder::{BigEndian, ByteOrder, LittleEndian};
use vstd::prelude::*;

verus! {

/// Order of the bytes of 16-bit values in constant data.
#[derive(Debug, Clone, Copy, PartialEq, Eq, Structural)]
pub enum Endianness {
    /// Least significant byte first.
    Little,
    /// Most significant byte first.
    Big,
}

/// Bytes of a 16-bit value in the given order.
pub open spec fn u16_bytes(v: u16, order: Endianness) -> Seq<u8> {
    match order {
        Endianness::Little => seq![(v % 256) as u8, (v / 256) as u8],
        Endianness::Big => seq![(v / 256) as u8, (v % 256) as u8],
    }
}

/// `byteorder::LittleEndian::write_u16`, which writes `n` in the two bytes of
/// `buf` at `at`, least significant byte first, as `u16::to_le_bytes` orders
/// them.
#[verifier::external_body]
fn write_u16_le(buf: &mut Vec<u8>, at: usize, n: u16)
    requires
        at + 2 <= old(buf)@.len(),
    ensures
        final(buf)@ == old(buf)@.update(at as int, (n % 256) as u8).update(at + 1, (n / 256) as u8),
{
    LittleEndian::write_u16(&mut buf[at..], n)
}

/// `byteorder::BigEndian::write_u16`, which writes `n` in the two bytes of
/// `buf` at `at`, most significant byte first, as `u16::to_be_bytes` orders
/// them.
#[verifier::external_body]
fn write_u16_be(buf: &mut Vec<u8>, at: usize, n: u16)
    requires
        at + 2 <= old(buf)@.len(),
    ensures
        final(buf)@ == old(buf)@.update(at as int, (n / 256) as u8).update(at + 1, (n % 256) as u8),
{
    BigEndian::write_u16(&mut buf[at..], n)
}

/// Append the two bytes of `n` in the given order.
fn push_u16(out: &mut Vec<u8>, n: u16, order: Endianness)
    ensures
        final(out)@ == old(out)@ + u16_bytes(n, order),
{
    let at = out.len();
    out.push(0);
    out.push(0);
    match order {
        Endianness::Little => write_u16_le(out, at, n),
        Endianness::Big => write_u16_be(out, at, n),
    }
    assert(out@ =~= old(out)@ + u16_bytes(n, order));
}

/// Bytes of a constant of the given layout: bytes and pointers hold the
/// value of a constant expression (a pointer only that of a literal), an
/// array holds one constant per item.
pub open spec fn const_bytes<'a>(layout: Layout, e: Expression<'a>, order: Endianness) -> Option<Seq<u8>>
    decreases e,
{
    match layout {
        Layout::U8 => match const_eval(e, true, no_symbols()) {
            Some(v) => if v <= 0xff {
                Some(seq![v as u8])
            } else {
                None
            },
            None => None,
        },
        Layout::I8 => match const_eval(e, true, no_symbols()) {
            Some(v) => if v <= 0x7f {
                Some(seq![v as u8])
            } else {
                None
            },
            None => None,
        },
        Layout::Pointer(_) => match e {
            Expression::Lit(_) => match const_eval(e, true, no_symbols()) {
                Some(v) => Some(u16_bytes(v, order)),
                None => None,
            },
            _ => None,
        },
        Layout::Array { inner, len } => match e {
            Expression::Array(a) => if a.inner@.len() == len {
                items_bytes(*inner, a.inner@, order)
            } else {
                None
            },
            _ => None,
        },
    }
}

/// Bytes of the constants of a list of items.
pub open spec fn items_bytes<'a>(layout: Layout, items: Seq<Expression<'a>>, order: Endianness) -> Option<Seq<u8>>
    decreases items,
{
    if items.len() == 0 {
        Some(seq![])
    } else {
        match (items_bytes(layout, items.drop_last(), order), const_bytes(layout, items.last(), order)) {
            (Some(a), Some(b)) => Some(a + b),
            _ => None,
        }
    }
}

/// Append the bytes of a constant (see [`const_bytes`]) to `out`; on error
/// `out` may hold part of them.
pub fn compute_const_expr_into_vec(
    layout: &Layout,
    expression: &Expression,
    order: Endianness,
    out: &mut Vec<u8>,
) -> (r: Result<(), CompileError>)
    ensures
        r is Ok <==> const_bytes(*layout, *expression, order) is Some,
        r is Ok ==> final(out)@ == old(out)@ + const_bytes(*layout, *expression, order)->0,
        r is Err ==> r == Err::<(), CompileError>(CompileError::NotConstant),
    decreases expression,
{
    match layout {
        Layout::U8 | Layout::I8 => {
            let max: u16 = match layout {
                Layout::U8 => 0xff,
                _ => 0x7f,
            };
            match compute_const_expr(expression) {
                Some(v) => if v <= max {
                    out.push(v as u8);
                    assert(out@ =~= old(out)@ + seq![v as u8]);
                    Ok(())
                } else {
                    Err(CompileError::NotConstant)
                },
                None => Err(CompileError::NotConstant),
            }
        },
        Layout::Pointer(_) => match expression {
            Expression::Lit(_) => match compute_const_expr(expression) {
                Some(v) => {
                    push_u16(out, v, order);
                    Ok(())
                },
                None => Err(CompileError::NotConstant),
            },
            _ => Err(CompileError::NotConstant),
        },
        Layout::Array { inner, len } => match expression {
            Expression::Array(a) => {
                if a.inner.len() != *len as usize {
                    return Err(CompileError::NotConstant);
                }
                let mut i: usize = 0;
                while i < a.inner.len()
                    invariant
                        *layout == (Layout::Array { inner: *inner, len: *len }),
                        *expression == Expression::Array(*a),
                        a.inner@.len() == *len,
                        i <= a.inner@.len(),
                        items_bytes(**inner, a.inner@.subrange(0, i as int), order) is Some,
                        out@ == old(out)@ + items_bytes(**inner, a.inner@.subrange(0, i as int), order)->0,
                    decreases a.inner.len() - i,
                {
                    let ghost before = out@;
                    let ghost sub = a.inner@.subrange(0, i + 1);
                    assert(sub.drop_last() =~= a.inner@.subrange(0, i as int));
                    assert(sub.last() == a.inner@[i as int]);
                    let item = &a.inner[i];
                    assert(*item == a.inner@[i as int]);
                    match compute_const_expr_into_vec(inner, item, order, out) {
                        Ok(()) => {},
                        Err(e) => {
                            proof {
                                assert(const_bytes(**inner, sub.last(), order) is None);
                                assert(items_bytes(**inner, sub, order) is None);
                                lemma_items_none(**inner, a.inner@, i as int + 1, order);
                            }
                            return Err(e);
                        },
                    }
                    i = i + 1;
                    assert(out@ =~= old(out)@ + items_bytes(**inner, a.inner@.subrange(0, i as int), order)->0);
                }
                assert(a.inner@.subrange(0, i as int) =~= a.inner@);
                Ok(())
            },
            _ => Err(CompileError::NotConstant),
        },
    }
}

proof fn lemma_items_none<'a>(layout: Layout, items: Seq<Expression<'a>>, k: int, order: Endianness)
    requires
        0 < k <= items.len(),
        items_bytes(layout, items.subrange(0, k), order) is None,
    ensures
        items_bytes(layout, items, order) is None,
    decreases items.len() - k,
{
    if k < items.len() {
        let sub = items.subrange(0, k + 1);
        assert(sub.drop_last() =~= items.subrange(0, k));
        lemma_items_none(layout, items, k + 1, order);
    } else {
        assert(items.subrange(0, k) =~= items);
    }
}


// symbols

/// Virtual memory space of a symbol.
#[derive(Debug, Clone, Copy, PartialEq, Eq, Structural)]
pub enum Space {
    Static,
    Const,
    Stack,
    Absolute,
}

/// Pointer to `offset` in the memory space.
pub open spec fn space_pointer(space: Space, offset: u16) -> Pointer {
    match space {
        Space::Static => Pointer::Static(offset),
        Space::Const => Pointer::Const(offset),
        Space::Stack => Pointer::Stack(offset),
        Space::Absolute => Pointer::Absolute(offset),
    }
}

/// A named region of virtual memory.
#[derive(Debug)]
pub struct Symbol {
    /// Symbolic name.
    pub name: Vec<u8>,
    /// Offset in virtual memory.
    pub offset: u16,
    /// Size of the symbol itself.
    pub size: u16,
    /// Layout of the data.
    pub layout: Layout,
    /// Virtual memory space.
    pub space: Space,
}

/// What a symbol describes.
pub struct SymbolView {
    pub name: Seq<u8>,
    pub offset: u16,
    pub size: u16,
    pub layout: Layout,
    pub space: Space,
}

impl View for Symbol {
    type V = SymbolView;

    open spec fn view(&self) -> SymbolView {
        SymbolView {
            name: self.name@,
            offset: self.offset,
            size: self.size,
            layout: self.layout,
            space: self.space,
        }
    }
}

fn copy_bytes(v: &Vec<u8>) -> (r: Vec<u8>)
    ensures
        r@ == v@,
{
    let mut r: Vec<u8> = Vec::new();
    let mut i: usize = 0;
    while i < v.len()
        invariant
            i <= v@.len(),
            r@ == v@.subrange(0, i as int),
        decreases v.len() - i,
    {
        r.push(v[i]);
        i = i + 1;
        assert(r@ =~= v@.subrange(0, i as int));
    }
    assert(v@.subrange(0, i as int) =~= v@);
    r
}

fn copy_bytes_of(v: &[u8]) -> (r: Vec<u8>)
    ensures
        r@ == v@,
{
    let mut r: Vec<u8> = Vec::new();
    let mut i: usize = 0;
    while i < v.len()
        invariant
            i <= v@.len(),
            r@ == v@.subrange(0, i as int),
        decreases v.len() - i,
    {
        r.push(v[i]);
        i = i + 1;
        assert(r@ =~= v@.subrange(0, i as int));
    }
    assert(v@.subrange(0, i as int) =~= v@);
    r
}

fn same_bytes(a: &[u8], b: &[u8]) -> (r: bool)
    ensures
        r == (a@ == b@),
{
    if a.len() != b.len() {
        return false;
    }
    let mut i: usize = 0;
    while i < a.len()
        invariant
            a@.len() == b@.len(),
            i <= a@.len(),
            forall|j: int| 0 <= j < i ==> a@[j] == b@[j],
        decreases a.len() - i,
    {
        if a[i] != b[i] {
            return false;
        }
        i = i + 1;
    }
    assert(a@ =~= b@);
    true
}

impl Symbol {
    /// Pointer to the symbol's data.
    pub fn pointer(&self) -> (r: Pointer)
        ensures
            r == space_pointer(self.space, self.offset),
    {
        match self.space {
            Space::Static => Pointer::Static(self.offset),
            Space::Const => Pointer::Const(self.offset),
            Space::Stack => Pointer::Stack(self.offset),
            Space::Absolute => Pointer::Absolute(self.offset),
        }
    }

    /// A copy of the symbol.
    pub fn copy(&self) -> (r: Symbol)
        ensures
            r@ == self@,
    {
        Symbol {
            name: copy_bytes(&self.name),
            offset: self.offset,
            size: self.size,
            layout: self.layout.clone(),
            space: self.space,
        }
    }
}

/// Views of a list of symbols.
pub open spec fn views(v: Seq<Symbol>) -> Seq<SymbolView> {
    v.map_values(|s: Symbol| s@)
}

/// The first symbol of `s` with the given name.
pub open spec fn find_named(s: Seq<SymbolView>, name: Seq<u8>) -> Option<SymbolView>
    decreases s.len(),
{
    if s.len() == 0 {
        None
    } else if s[0].name == name {
        Some(s[0])
    } else {
        find_named(s.drop_first(), name)
    }
}

/// Index in `v` of the first symbol with the given name.
fn find(v: &Vec<Symbol>, name: &[u8]) -> (r: Option<usize>)
    ensures
        r matches Some(i) ==> i < v@.len() && Some(v@[i as int]@) == find_named(views(v@), name@),
        r is None ==> find_named(views(v@), name@) is None,
{
    let mut i: usize = 0;
    assert(views(v@).subrange(0, v@.len() as int) =~= views(v@));
    while i < v.len()
        invariant
            i <= v@.len(),
            find_named(views(v@), name@) == find_named(views(v@).subrange(i as int, v@.len() as int), name@),
        decreases v.len() - i,
    {
        let ghost rest = views(v@).subrange(i as int, v@.len() as int);
        assert(rest[0] == v@[i as int]@);
        if same_bytes(v[i].name.as_slice(), name) {
            return Some(i);
        }
        assert(rest.drop_first() =~= views(v@).subrange(i + 1, v@.len() as int));
        i = i + 1;
    }
    None
}

/// Static, const and stack allocation of symbols.
pub struct Alloc {
    absolute_symbols: Vec<Symbol>,
    const_symbols: Vec<Symbol>,
    static_symbols: Vec<Symbol>,
    stack_symbols: Vec<Symbol>,
    const_: u16,
    static_: u16,
    stack_: u16,
    const_data: Vec<u8>,
    order: Endianness,
}

/// What an allocator holds.
pub struct AllocView {
    /// Symbols in each space.
    pub stack: Seq<SymbolView>,
    pub static_: Seq<SymbolView>,
    pub const_: Seq<SymbolView>,
    pub absolute: Seq<SymbolView>,
    /// Bytes allocated in the static and stack spaces.
    pub static_size: u16,
    pub stack_size: u16,
    /// Data of the const space.
    pub const_data: Seq<u8>,
    /// Order of the bytes of 16-bit constants.
    pub order: Endianness,
}

/// The symbol with the given name, looked up in the stack, static, const
/// and absolute spaces in turn.
pub open spec fn lookup(a: AllocView, name: Seq<u8>) -> Option<SymbolView> {
    find_named(a.stack + a.static_ + a.const_ + a.absolute, name)
}

/// Value of a constant symbol: its first byte.
pub open spec fn const_value(a: AllocView, name: Seq<u8>) -> Option<u16> {
    match lookup(a, name) {
        Some(s) => if s.space == Space::Const && s.offset < a.const_data.len() {
            Some(a.const_data[s.offset as int] as u16)
        } else {
            None
        },
        None => None,
    }
}

/// Constant values of the symbols of an allocator.
pub open spec fn const_env(a: AllocView) -> spec_fn(Seq<u8>) -> Option<u16> {
    |name: Seq<u8>| const_value(a, name)
}

proof fn lemma_find_concat(a: Seq<SymbolView>, b: Seq<SymbolView>, name: Seq<u8>)
    ensures
        find_named(a + b, name) == if find_named(a, name) is Some {
            find_named(a, name)
        } else {
            find_named(b, name)
        },
    decreases a.len(),
{
    if a.len() > 0 {
        assert((a + b).drop_first() =~= a.drop_first() + b);
        lemma_find_concat(a.drop_first(), b, name);
    } else {
        assert(a + b =~= b);
    }
}

fn append_symbols(v: &mut Vec<Symbol>, syms: Vec<Symbol>)
    ensures
        views(final(v)@) == views(old(v)@) + views(syms@),
{
    let mut i: usize = 0;
    let ghost start = v@;
    while i < syms.len()
        invariant
            i <= syms@.len(),
            views(v@) == views(start) + views(syms@.subrange(0, i as int)),
        decreases syms@.len() - i,
    {
        let ghost prev = v@;
        let s = syms[i].copy();
        v.push(s);
        assert(views(syms@.subrange(0, i + 1)) =~= views(syms@.subrange(0, i as int)).push(syms@[i as int]@));
        assert(views(v@) =~= views(prev).push(s@));
        i = i + 1;
    }
    assert(syms@.subrange(0, i as int) =~= syms@);
}

/// The allocator's symbols after `syms` are appended to the symbols of
/// `space`.
pub open spec fn with_symbols(a: AllocView, space: Space, syms: Seq<SymbolView>) -> AllocView {
    match space {
        Space::Stack => AllocView { stack: a.stack + syms, ..a },
        Space::Static => AllocView { static_: a.static_ + syms, ..a },
        Space::Const => AllocView { const_: a.const_ + syms, ..a },
        Space::Absolute => AllocView { absolute: a.absolute + syms, ..a },
    }
}

/// Once symbols are allocated, a name that no symbol had looks up to the
/// first of them with that name, and a name that none of them has looks up to
/// what it did before.
pub proof fn lemma_lookup_after_alloc(a: AllocView, space: Space, syms: Seq<SymbolView>, name: Seq<u8>)
    ensures
        lookup(a, name) is None ==> lookup(with_symbols(a, space, syms), name) == find_named(syms, name),
        find_named(syms, name) is None ==> lookup(with_symbols(a, space, syms), name) == lookup(a, name),
{
    let b = with_symbols(a, space, syms);
    lemma_find_concat(a.stack + a.static_ + a.const_, a.absolute, name);
    lemma_find_concat(a.stack + a.static_, a.const_, name);
    lemma_find_concat(a.stack, a.static_, name);
    lemma_find_concat(b.stack + b.static_ + b.const_, b.absolute, name);
    lemma_find_concat(b.stack + b.static_, b.const_, name);
    lemma_find_concat(b.stack, b.static_, name);
    lemma_find_concat(a.stack, syms, name);
    lemma_find_concat(a.static_, syms, name);
    lemma_find_concat(a.const_, syms, name);
    lemma_find_concat(a.absolute, syms, name);
}

/// The allocator after a successful static allocation of `f` (see
/// [`Alloc::alloc_static`]); `None` where that allocation is refused.
pub open spec fn static_after<'a>(a: AllocView, f: Field<'a>) -> Option<AllocView> {
    match declared(a, f.ident, f.type_, a.static_size, Space::Static) {
        Ok((syms, size)) => if a.static_size + size <= 0xffff {
            Some(AllocView { static_: a.static_ + syms, static_size: (a.static_size + size) as u16, ..a })
        } else {
            None
        },
        Err(_) => None,
    }
}

/// Two fields that are not records, allocated one after the other in the
/// static space, are adjacent: the second starts where the first ends, and
/// the first starts where the static data ended before.
pub proof fn lemma_static_fields_adjacent<'a>(a: AllocView, f: Field<'a>, g: Field<'a>)
    requires
        !(f.type_ is Struct) && !(f.type_ is Union),
        !(g.type_ is Struct) && !(g.type_ is Union),
        static_after(a, f) is Some,
        static_after(static_after(a, f)->0, g) is Some,
    ensures
        ({
            let c = static_after(static_after(a, f)->0, g)->0;
            let sf = lookup(c, f.ident.text@);
            let sg = lookup(c, g.ident.text@);
            &&& sf is Some && sg is Some
            &&& sf->0.offset == a.static_size
            &&& sg->0.offset == sf->0.offset + sf->0.size
            &&& c.static_size == sg->0.offset + sg->0.size
        }),
{
    let b = static_after(a, f)->0;
    let c = static_after(b, g)->0;
    let (s1, n1) = declared(a, f.ident, f.type_, a.static_size, Space::Static)->Ok_0;
    let (s2, n2) = declared(b, g.ident, g.type_, b.static_size, Space::Static)->Ok_0;
    assert(b.stack + b.static_ + b.const_ + b.absolute == with_symbols(a, Space::Static, s1).stack
        + with_symbols(a, Space::Static, s1).static_ + with_symbols(a, Space::Static, s1).const_ + with_symbols(
        a,
        Space::Static,
        s1,
    ).absolute);
    lemma_lookup_after_alloc(a, Space::Static, s1, f.ident.text@);
    lemma_find_single(s1[0]);
    assert(s1 =~= seq![s1[0]]);
    assert(lookup(b, f.ident.text@) == lookup(with_symbols(a, Space::Static, s1), f.ident.text@));
    lemma_lookup_after_alloc(b, Space::Static, s2, g.ident.text@);
    lemma_lookup_after_alloc(b, Space::Static, s2, f.ident.text@);
    lemma_find_single(s2[0]);
    assert(s2 =~= seq![s2[0]]);
    assert(lookup(c, g.ident.text@) == lookup(with_symbols(b, Space::Static, s2), g.ident.text@));
    assert(lookup(c, f.ident.text@) == lookup(with_symbols(b, Space::Static, s2), f.ident.text@));
    assert(lookup(b, f.ident.text@) == Some(s1[0]));
    assert(lookup(b, g.ident.text@) is None);
    assert(s2[0].name == g.ident.text@);
    assert(f.ident.text@ != g.ident.text@);
    assert(s2.drop_first() =~= Seq::<SymbolView>::empty());
    assert(find_named(s2.drop_first(), f.ident.text@) is None);
    assert(find_named(s2, f.ident.text@) is None);
    assert(lookup(c, f.ident.text@) == Some(s1[0]));
    assert(lookup(c, g.ident.text@) == Some(s2[0]));
    assert(s1[0].offset == a.static_size);
    assert(s2[0].offset == b.static_size);
    assert(b.static_size == a.static_size + s1[0].size);
}

/// A symbol is found under its own name.
pub proof fn lemma_find_single(sym: SymbolView)
    ensures
        find_named(seq![sym], sym.name) == Some(sym),
{
    assert(seq![sym][0] == sym);
}

/// The symbol that `ident` of type `t` would name at `offset` in
/// `space`; or why it cannot be allocated.
pub open spec fn field_symbol<'a>(a: AllocView, ident: Token<'a>, t: Type<'a>, offset: u16, space: Space) -> Result<SymbolView, CompileError> {
    if lookup(a, ident.text@) is Some {
        Err(CompileError::Redefined)
    } else {
        match type_layout(t) {
            None => Err(CompileError::Unsupported),
            Some(layout) => if layout_size(layout) > 0xffff {
                Err(CompileError::Limit)
            } else {
                Ok(
                    SymbolView {
                        name: ident.text@,
                        offset,
                        size: layout_size(layout) as u16,
                        layout,
                        space,
                    },
                )
            },
        }
    }
}

/// What allocating `ident` of type `t` at `offset` in `space` declares
/// (see [`member_symbols`]): an error where a symbol has the name already.
pub open spec fn declared<'a>(a: AllocView, ident: Token<'a>, t: Type<'a>, offset: u16, space: Space) -> Result<
    (Seq<SymbolView>, nat),
    CompileError,
> {
    if lookup(a, ident.text@) is Some {
        Err(CompileError::Redefined)
    } else {
        member_symbols(ident.text@, t, offset, space)
    }
}

impl View for Alloc {
    type V = AllocView;

    closed spec fn view(&self) -> AllocView {
        AllocView {
            stack: views(self.stack_symbols@),
            static_: views(self.static_symbols@),
            const_: views(self.const_symbols@),
            absolute: views(self.absolute_symbols@),
            static_size: self.static_,
            stack_size: self.stack_,
            const_data: self.const_data@,
            order: self.order,
        }
    }
}

impl Alloc {
    /// The const space holds exactly the constant data.
    pub closed spec fn wf(&self) -> bool {
        self.const_ as int == self.const_data@.len()
    }

    /// An allocator with no symbol.
    pub fn new(order: Endianness) -> (r: Self)
        ensures
            r.wf(),
            r@.stack.len() == 0 && r@.static_.len() == 0 && r@.const_.len() == 0 && r@.absolute.len() == 0,
            r@.static_size == 0 && r@.stack_size == 0 && r@.const_data.len() == 0,
            r@.order == order,
    {
        Alloc {
            absolute_symbols: Vec::new(),
            const_symbols: Vec::new(),
            static_symbols: Vec::new(),
            stack_symbols: Vec::new(),
            const_: 0,
            static_: 0,
            stack_: 0,
            const_data: Vec::new(),
            order,
        }
    }

    /// Byte order of constant data.
    pub fn order(&self) -> (r: Endianness)
        ensures
            r == self@.order,
    {
        self.order
    }

    /// The constant data.
    pub fn const_data(&self) -> (r: &Vec<u8>)
        ensures
            r@ == self@.const_data,
    {
        &self.const_data
    }

    /// The symbol with the given name (see [`lookup`]): stack symbols are
    /// searched first, then static, const and absolute ones. An undefined name
    /// gives `None`, which the compiler reports as an undefined symbol.
    pub fn symbol(&self, name: &[u8]) -> (r: Option<&Symbol>)
        ensures
            r matches Some(s) ==> Some(s@) == lookup(self@, name@),
            r is None ==> lookup(self@, name@) is None,
    {
        proof {
            let v = self@;
            lemma_find_concat(v.stack + v.static_ + v.const_, v.absolute, name@);
            lemma_find_concat(v.stack + v.static_, v.const_, name@);
            lemma_find_concat(v.stack, v.static_, name@);
        }
        if let Some(i) = find(&self.stack_symbols, name) {
            return Some(&self.stack_symbols[i]);
        }
        if let Some(i) = find(&self.static_symbols, name) {
            return Some(&self.static_symbols[i]);
        }
        if let Some(i) = find(&self.const_symbols, name) {
            return Some(&self.const_symbols[i]);
        }
        if let Some(i) = find(&self.absolute_symbols, name) {
            return Some(&self.absolute_symbols[i]);
        }
        None
    }

    /// Whether no symbol has the given name.
    pub fn is_undefined(&self, name: &[u8]) -> (r: bool)
        ensures
            r == (lookup(self@, name@) is None),
    {
        self.symbol(name).is_none()
    }

    /// Allocate `size` bytes in the stack; returns their address.
    pub fn alloc_stack(&mut self, size: u16) -> (r: u16)
        requires
            old(self)@.stack_size + size <= u16::MAX,
        ensures
            r == old(self)@.stack_size,
            final(self)@ == (AllocView { stack_size: (old(self)@.stack_size + size) as u16, ..old(self)@ }),
            final(self).wf() == old(self).wf(),
    {
        let address = self.stack_;
        self.stack_ = self.stack_ + size;
        address
    }

    /// Forget the stack symbols and the stack allocation.
    pub fn clear_stack(&mut self)
        ensures
            final(self)@ == (AllocView { stack: seq![], stack_size: 0, ..old(self)@ }),
            final(self).wf() == old(self).wf(),
    {
        self.stack_symbols = Vec::new();
        self.stack_ = 0;
        assert(views(self.stack_symbols@) =~= Seq::<SymbolView>::empty());
    }

    fn make_symbol(&self, ident: &Token, t: &Type, offset: u16, space: Space) -> (r: Result<Symbol, CompileError>)
        ensures
            r matches Ok(s) ==> field_symbol(self@, *ident, *t, offset, space) == Ok::<SymbolView, CompileError>(s@),
            r matches Err(e) ==> field_symbol(self@, *ident, *t, offset, space) == Err::<SymbolView, CompileError>(e),
    {
        if !self.is_undefined(ident.text) {
            return Err(CompileError::Redefined);
        }
        let layout = match Layout::from_type(t) {
            Some(l) => l,
            None => return Err(CompileError::Unsupported),
        };
        let size = match layout.size() {
            Some(n) => n,
            None => return Err(CompileError::Limit),
        };
        let name = copy_bytes_of(ident.text);
        Ok(Symbol { name, offset, size, layout, space })
    }

    /// Allocate a field in the stack: the symbols it declares (see
    /// [`member_symbols`]) follow the stack data allocated so far. Returns
    /// its address.
    pub fn alloc_stack_field(&mut self, field: &Field) -> (r: Result<u16, CompileError>)
        ensures
            final(self).wf() == old(self).wf(),
            match declared(old(self)@, field.ident, field.type_, old(self)@.stack_size, Space::Stack) {
                Err(e) => r == Err::<u16, CompileError>(e) && final(self)@ == old(self)@,
                Ok((syms, size)) => if old(self)@.stack_size + size > 0xffff {
                    r == Err::<u16, CompileError>(CompileError::Limit) && final(self)@ == old(self)@
                } else {
                    r == Ok::<u16, CompileError>(old(self)@.stack_size) && final(self)@ == (AllocView {
                        stack: old(self)@.stack + syms,
                        stack_size: (old(self)@.stack_size + size) as u16,
                        ..old(self)@
                    })
                },
            },
    {
        let (syms, size) = match self.declare(field, self.stack_, Space::Stack) {
            Ok(d) => d,
            Err(e) => return Err(e),
        };
        let end = match self.stack_.checked_add(size) {
            Some(e) => e,
            None => return Err(CompileError::Limit),
        };
        let address = self.stack_;
        append_symbols(&mut self.stack_symbols, syms);
        self.stack_ = end;
        Ok(address)
    }

    /// Allocate a named datum of the given type in the stack; returns its
    /// address.
    pub fn alloc_stack_named(&mut self, ident: &Token, t: &Type) -> (r: Result<u16, CompileError>)
        ensures
            final(self).wf() == old(self).wf(),
            match field_symbol(old(self)@, *ident, *t, old(self)@.stack_size, Space::Stack) {
                Err(e) => r == Err::<u16, CompileError>(e) && final(self)@ == old(self)@,
                Ok(sym) => if old(self)@.stack_size + sym.size > 0xffff {
                    r == Err::<u16, CompileError>(CompileError::Limit) && final(self)@ == old(self)@
                } else {
                    r == Ok::<u16, CompileError>(old(self)@.stack_size) && final(self)@ == (AllocView {
                        stack: old(self)@.stack.push(sym),
                        stack_size: (old(self)@.stack_size + sym.size) as u16,
                        ..old(self)@
                    })
                },
            },
    {
        let sym = match self.make_symbol(ident, t, self.stack_, Space::Stack) {
            Ok(s) => s,
            Err(e) => return Err(e),
        };
        let address = self.stack_;
        let end = match self.stack_.checked_add(sym.size) {
            Some(e) => e,
            None => return Err(CompileError::Limit),
        };
        self.stack_symbols.push(sym);
        self.stack_ = end;
        assert(views(self.stack_symbols@) =~= old(self)@.stack.push(sym@));
        Ok(address)
    }

    fn declare(&self, field: &Field, offset: u16, space: Space) -> (r: Result<(Vec<Symbol>, u16), CompileError>)
        ensures
            match declared(self@, field.ident, field.type_, offset, space) {
                Ok((syms, size)) => r matches Ok((v, n)) && views(v@) == syms && n == size,
                Err(e) => r == Err::<(Vec<Symbol>, u16), CompileError>(e),
            },
    {
        if !self.is_undefined(field.ident.text) {
            return Err(CompileError::Redefined);
        }
        let name = copy_bytes_of(field.ident.text);
        let mut v: Vec<Symbol> = Vec::new();
        match push_member_symbols(&name, &field.type_, offset, space, &mut v) {
            Ok(n) => {
                assert(views(v@) =~= views(Seq::<Symbol>::empty()) + views(v@));
                Ok((v, n))
            },
            Err(e) => Err(e),
        }
    }

    /// Allocate a field in the static space: the symbols it declares (see
    /// [`member_symbols`]) follow the static data allocated so far.
    pub fn alloc_static(&mut self, field: &Field) -> (r: Result<(), CompileError>)
        ensures
            final(self).wf() == old(self).wf(),
            r is Ok <==> static_after(old(self)@, *field) is Some,
            r is Ok ==> final(self)@ == static_after(old(self)@, *field)->0,
            match declared(old(self)@, field.ident, field.type_, old(self)@.static_size, Space::Static) {
                Err(e) => r == Err::<(), CompileError>(e) && final(self)@ == old(self)@,
                Ok((syms, size)) => if old(self)@.static_size + size > 0xffff {
                    r == Err::<(), CompileError>(CompileError::Limit) && final(self)@ == old(self)@
                } else {
                    r is Ok && final(self)@ == (AllocView {
                        static_: old(self)@.static_ + syms,
                        static_size: (old(self)@.static_size + size) as u16,
                        ..old(self)@
                    })
                },
            },
    {
        let (syms, size) = match self.declare(field, self.static_, Space::Static) {
            Ok(d) => d,
            Err(e) => return Err(e),
        };
        let end = match self.static_.checked_add(size) {
            Some(e) => e,
            None => return Err(CompileError::Limit),
        };
        append_symbols(&mut self.static_symbols, syms);
        self.static_ = end;
        Ok(())
    }

    /// Declare a field located at the given absolute address (see
    /// [`member_symbols`]). Symbols may overlap.
    pub fn alloc_absolute(&mut self, field: &Field, offset: u16) -> (r: Result<(), CompileError>)
        ensures
            final(self).wf() == old(self).wf(),
            match declared(old(self)@, field.ident, field.type_, offset, Space::Absolute) {
                Err(e) => r == Err::<(), CompileError>(e) && final(self)@ == old(self)@,
                Ok((syms, size)) => r is Ok && final(self)@ == (AllocView {
                    absolute: old(self)@.absolute + syms,
                    ..old(self)@
                }),
            },
    {
        let (syms, _) = match self.declare(field, offset, Space::Absolute) {
            Ok(d) => d,
            Err(e) => return Err(e),
        };
        append_symbols(&mut self.absolute_symbols, syms);
        Ok(())
    }

    /// Allocate a field in the const space, holding the value of a constant
    /// expression (see [`const_bytes`]). A name that is already defined is not
    /// defined again: the call returns `Err(CompileError::Redefined)` and
    /// changes nothing.
    pub fn alloc_const(&mut self, field: &Field, expr: &Expression) -> (r: Result<(), CompileError>)
        requires
            old(self).wf(),
        ensures
            final(self).wf(),
            match field_symbol(old(self)@, field.ident, field.type_, old(self)@.const_data.len() as u16, Space::Const) {
                Err(e) => r == Err::<(), CompileError>(e) && final(self)@ == old(self)@,
                Ok(sym) => match const_bytes(sym.layout, *expr, old(self)@.order) {
                    None => r == Err::<(), CompileError>(CompileError::NotConstant) && final(self)@ == old(self)@,
                    Some(bytes) => if old(self)@.const_data.len() + sym.size > 0xffff || bytes.len() != sym.size {
                        r == Err::<(), CompileError>(CompileError::Limit) && final(self)@ == old(self)@
                    } else {
                        r is Ok && final(self)@ == (AllocView {
                            const_: old(self)@.const_.push(sym),
                            const_data: old(self)@.const_data + bytes,
                            ..old(self)@
                        })
                    },
                },
            },
    {
        let sym = match self.make_symbol(&field.ident, &field.type_, self.const_, Space::Const) {
            Ok(s) => s,
            Err(e) => return Err(e),
        };
        let mut bytes: Vec<u8> = Vec::new();
        match compute_const_expr_into_vec(&sym.layout, expr, self.order, &mut bytes) {
            Ok(()) => {},
            Err(e) => return Err(e),
        }
        assert(bytes@ =~= const_bytes(sym@.layout, *expr, self@.order)->0);
        let end = match self.const_.checked_add(sym.size) {
            Some(e) => e,
            None => return Err(CompileError::Limit),
        };
        if bytes.len() != sym.size as usize {
            return Err(CompileError::Limit);
        }
        let mut i: usize = 0;
        let ghost data = self.const_data@;
        while i < bytes.len()
            invariant
                i <= bytes@.len(),
                self.const_data@ == data + bytes@.subrange(0, i as int),
                self.const_symbols@ == old(self).const_symbols@,
                self.static_symbols@ == old(self).static_symbols@,
                self.stack_symbols@ == old(self).stack_symbols@,
                self.absolute_symbols@ == old(self).absolute_symbols@,
                self.const_ == old(self).const_,
                self.static_ == old(self).static_,
                self.stack_ == old(self).stack_,
                self.order == old(self).order,
            decreases bytes.len() - i,
        {
            self.const_data.push(bytes[i]);
            i = i + 1;
            assert(self.const_data@ =~= data + bytes@.subrange(0, i as int));
        }
        assert(bytes@.subrange(0, i as int) =~= bytes@);
        self.const_symbols.push(sym);
        self.const_ = end;
        assert(views(self.const_symbols@) =~= old(self)@.const_.push(sym@));
        Ok(())
    }

    /// A copy of the allocator.
    pub fn copy(&self) -> (r: Alloc)
        ensures
            r@ == self@,
            r.wf() == self.wf(),
    {
        Alloc {
            absolute_symbols: copy_symbols(&self.absolute_symbols),
            const_symbols: copy_symbols(&self.const_symbols),
            static_symbols: copy_symbols(&self.static_symbols),
            stack_symbols: copy_symbols(&self.stack_symbols),
            const_: self.const_,
            static_: self.static_,
            stack_: self.stack_,
            const_data: copy_bytes(&self.const_data),
            order: self.order,
        }
    }

    /// The constant data.
    pub fn into_const_data(self) -> (r: Vec<u8>)
        ensures
            r@ == self@.const_data,
    {
        self.const_data
    }
}


fn copy_symbols(v: &Vec<Symbol>) -> (r: Vec<Symbol>)
    ensures
        views(r@) == views(v@),
{
    let mut out: Vec<Symbol> = Vec::new();
    let mut i: usize = 0;
    while i < v.len()
        invariant
            i <= v@.len(),
            out@.len() == i,
            views(out@) == views(v@).subrange(0, i as int),
        decreases v.len() - i,
    {
        let c = v[i].copy();
        let ghost old_r = out@;
        out.push(c);
        assert forall|j: int| 0 <= j < i + 1 implies views(out@)[j] == views(v@).subrange(0, i + 1)[j] by {
            if j < i {
                assert(out@[j] == old_r[j]);
                assert(views(old_r)[j] == views(v@).subrange(0, i as int)[j]);
            } else {
                assert(out@[j] == c);
            }
        }
        i = i + 1;
        assert(views(out@) =~= views(v@).subrange(0, i as int));
    }
    assert(views(v@).subrange(0, i as int) =~= views(v@));
    out
}

// functions

/// Signature of a compiled function.
#[derive(Debug)]
pub struct FnSig {
    /// Name of the function.
    pub name: Vec<u8>,
    /// Index of its routine.
    pub routine: usize,
    /// Layouts of its arguments.
    pub args: Vec<Layout>,
    /// Layout of its result.
    pub ret: Option<Layout>,
}

/// Function allocator: the signatures of the functions defined so far.
pub struct FnAlloc {
    fns: Vec<FnSig>,
}

/// What a function signature holds.
pub struct FnSigView {
    pub name: Seq<u8>,
    pub routine: usize,
    pub args: Seq<Layout>,
    pub ret: Option<Layout>,
}

impl View for FnSig {
    type V = FnSigView;

    open spec fn view(&self) -> FnSigView {
        FnSigView { name: self.name@, routine: self.routine, args: self.args@, ret: self.ret }
    }
}

/// The first signature of `s` with the given name.
pub open spec fn find_fn(s: Seq<FnSigView>, name: Seq<u8>) -> Option<FnSigView>
    decreases s.len(),
{
    if s.len() == 0 {
        None
    } else if s[0].name == name {
        Some(s[0])
    } else {
        find_fn(s.drop_first(), name)
    }
}

impl View for FnAlloc {
    type V = Seq<FnSigView>;

    closed spec fn view(&self) -> Seq<FnSigView> {
        self.fns@.map_values(|f: FnSig| f@)
    }
}

impl FnAlloc {
    /// No function.
    pub fn new() -> (r: Self)
        ensures
            r@.len() == 0,
    {
        let r = FnAlloc { fns: Vec::new() };
        assert(r@ =~= Seq::<FnSigView>::empty());
        r
    }

    /// Define a function. A function of the same name that is already defined
    /// is not replaced: the call returns `Err(CompileError::Redefined)` and
    /// changes nothing.
    pub fn allocate(&mut self, sig: FnSig) -> (r: Result<(), CompileError>)
        ensures
            find_fn(old(self)@, sig@.name) is Some ==> r == Err::<(), CompileError>(CompileError::Redefined)
                && final(self)@ == old(self)@,
            find_fn(old(self)@, sig@.name) is None ==> r is Ok && final(self)@ == old(self)@.push(sig@),
    {
        if self.get(sig.name.as_slice()).is_some() {
            return Err(CompileError::Redefined);
        }
        let ghost v = sig@;
        self.fns.push(sig);
        assert(self@ =~= old(self)@.push(v));
        Ok(())
    }

    /// The function with the given name; `None` where no function of that
    /// name is defined.
    pub fn get(&self, name: &[u8]) -> (r: Option<&FnSig>)
        ensures
            r matches Some(f) ==> Some(f@) == find_fn(self@, name@),
            r is None ==> find_fn(self@, name@) is None,
    {
        let mut i: usize = 0;
        assert(self@.subrange(0, self@.len() as int) =~= self@);
        while i < self.fns.len()
            invariant
                i <= self.fns@.len(),
                self@.len() == self.fns@.len(),
                find_fn(self@, name@) == find_fn(self@.subrange(i as int, self@.len() as int), name@),
            decreases self.fns.len() - i,
        {
            let ghost rest = self@.subrange(i as int, self@.len() as int);
            assert(rest[0] == self.fns@[i as int]@);
            if same_bytes(self.fns[i].name.as_slice(), name) {
                return Some(&self.fns[i]);
            }
            assert(rest.drop_first() =~= self@.subrange(i + 1, self@.len() as int));
            i = i + 1;
        }
        None
    }
}

} // verus!
