//! Memory layout of data types.
use crate::ast::{FieldGroup, Record, Separated, Type};
use crate::ir::expression::{compute_const_expression, const_eval, no_symbols, path_to_symbol_name, symbol_name};
use crate::lex::raw::bytes_eq;
use crate::lex::Token;
use vstd::prelude::*;

verus! {

/// Type layout.
#[derive(Debug, PartialEq, Eq)]
pub enum Layout {
    /// Unsigned byte.
    U8,
    /// Signed byte.
    I8,
    /// `len` consecutive items of layout `inner`.
    Array { inner: Box<Layout>, len: u16 },
    /// Two byte address of data of the inner layout.
    Pointer(Box<Layout>),
}

/// Number of bytes of a layout.
pub open spec fn layout_size(l: Layout) -> nat
    decreases l,
{
    match l {
        Layout::U8 => 1,
        Layout::I8 => 1,
        Layout::Pointer(_) => 2,
        Layout::Array { inner, len } => (len * layout_size(*inner)) as nat,
    }
}

/// Layout of a type: bytes, arrays whose length is a constant expression,
/// and pointers; `None` for other types.
pub open spec fn type_layout<'a>(t: Type<'a>) -> Option<Layout>
    decreases t,
{
    match t {
        Type::U8(_) => Some(Layout::U8),
        Type::I8(_) => Some(Layout::I8),
        Type::Array(a) => match (type_layout(a.type_), const_eval(a.len, false, no_symbols())) {
            (Some(inner), Some(len)) => Some(Layout::Array { inner: Box::new(inner), len }),
            _ => None,
        },
        Type::Pointer(p) => match type_layout(p.type_) {
            Some(inner) => Some(Layout::Pointer(Box::new(inner))),
            None => None,
        },
        _ => None,
    }
}

/// Whether two layouts are the same.
pub fn same_layout(a: &Layout, b: &Layout) -> (r: bool)
    ensures
        r == (*a == *b),
    decreases a,
{
    match (a, b) {
        (Layout::U8, Layout::U8) | (Layout::I8, Layout::I8) => true,
        (Layout::Array { inner: x, len: n }, Layout::Array { inner: y, len: m }) => *n == *m
            && same_layout(x, y),
        (Layout::Pointer(x), Layout::Pointer(y)) => same_layout(x, y),
        _ => false,
    }
}

impl Clone for Layout {
    fn clone(&self) -> (r: Self)
        ensures
            r == *self,
        decreases self,
    {
        match self {
            Layout::U8 => Layout::U8,
            Layout::I8 => Layout::I8,
            Layout::Array { inner, len } => Layout::Array { inner: Box::new((**inner).clone()), len: *len },
            Layout::Pointer(inner) => Layout::Pointer(Box::new((**inner).clone())),
        }
    }
}

impl Layout {
    /// Layout of a type from the syntax tree (see [`type_layout`]).
    pub fn from_type(ty: &Type) -> (r: Option<Self>)
        ensures
            r == type_layout(*ty),
        decreases ty,
    {
        match ty {
            Type::U8(_) => Some(Layout::U8),
            Type::I8(_) => Some(Layout::I8),
            Type::Array(array) => match (Self::from_type(&array.type_), compute_const_expression(&array.len)) {
                (Some(inner), Some(len)) => Some(Layout::Array { inner: Box::new(inner), len }),
                _ => None,
            },
            Type::Pointer(ptr) => match Self::from_type(&ptr.type_) {
                Some(inner) => Some(Layout::Pointer(Box::new(inner))),
                None => None,
            },
            _ => None,
        }
    }

    /// Number of bytes of the layout; `None` where it does not fit in 16 bits.
    pub fn size(&self) -> (r: Option<u16>)
        ensures
            r is Some ==> r->0 == layout_size(*self),
            r is None <==> layout_size(*self) > 0xffff,
        decreases self,
    {
        match self {
            Layout::U8 => Some(1),
            Layout::I8 => Some(1),
            Layout::Pointer(_) => Some(2),
            Layout::Array { inner, len } => match inner.size() {
                Some(n) => {
                    proof {
                        assert(*len * layout_size(**inner) >= 0) by (nonlinear_arith);
                        if *len > 0 {
                            assert(*len * layout_size(**inner) >= layout_size(**inner)) by (nonlinear_arith)
                                requires *len > 0;
                        }
                    }
                    let r = (*len).checked_mul(n);
                    proof {
                        if r is Some {
                            assert(r->0 == *len * n);
                            assert(layout_size(*self) == *len * layout_size(**inner));
                        }
                    }
                    r
                },
                None => {
                    proof {
                        assert(*len * layout_size(**inner) >= 0) by (nonlinear_arith);
                        assert(layout_size(**inner) > 0xffff);
                        if *len > 0 {
                            assert(*len * layout_size(**inner) >= layout_size(**inner)) by (nonlinear_arith)
                                requires *len > 0;
                        }
                    }
                    if *len == 0 {
                        Some(0)
                    } else {
                        None
                    }
                },
            },
        }
    }

    /// Number of bytes of the layout.
    pub fn compute_size(&self) -> (r: u16)
        requires
            layout_size(*self) <= 0xffff,
        ensures
            r == layout_size(*self),
    {
        match self.size() {
            Some(n) => n,
            None => 0,
        }
    }
}

/// Largest size in bytes that a type may have.
pub open spec fn size_limit() -> nat {
    0xffff
}

/// Adds (`sum`) or takes the larger of (`!sum`) two sizes; `None` where either
/// is `None` or a sum exceeds [`size_limit`].
pub open spec fn combine_sizes(a: Option<nat>, b: Option<nat>, sum: bool) -> Option<nat> {
    match (a, b) {
        (Some(x), Some(y)) => if sum {
            if x + y <= size_limit() {
                Some(x + y)
            } else {
                None
            }
        } else if x < y {
            Some(y)
        } else {
            Some(x)
        },
        _ => None,
    }
}

/// Size in bytes of a type: one for bytes, two for pointers, the length
/// times the item size for arrays whose length is a constant expression,
/// the sum of the field sizes for a struct and the largest field size for a
/// union. `None` for other types, and where a size on the way exceeds
/// [`size_limit`].
pub open spec fn type_size<'a>(t: Type<'a>) -> Option<nat>
    decreases t,
{
    match t {
        Type::U8(_) => Some(1),
        Type::I8(_) => Some(1),
        Type::Pointer(_) => Some(2),
        Type::Array(a) => match (type_size(a.type_), const_eval(a.len, false, no_symbols())) {
            (Some(s), Some(n)) => if n * s <= size_limit() {
                Some((n * s) as nat)
            } else {
                None
            },
            _ => None,
        },
        Type::Struct(r) => record_size(*r, true),
        Type::Union(r) => record_size(*r, false),
        _ => None,
    }
}

/// Size of the fields of a record (see [`type_size`]).
pub open spec fn record_size<'a>(r: Record<'a>, sum: bool) -> Option<nat>
    decreases r,
{
    match r.fields {
        None => Some(0),
        Some(f) => groups_size(f, sum),
    }
}

/// Size of comma separated field groups (see [`type_size`]).
pub open spec fn groups_size<'a>(s: Separated<FieldGroup<'a>, Token<'a>>, sum: bool) -> Option<nat>
    decreases s,
{
    combine_sizes(group_size(s.head, sum), tail_groups_size(s.tail@, sum), sum)
}

/// Size of the field groups of `(separator, field group)` pairs.
pub open spec fn tail_groups_size<'a>(v: Seq<(Token<'a>, FieldGroup<'a>)>, sum: bool) -> Option<nat>
    decreases v,
{
    if v.len() == 0 {
        Some(0)
    } else {
        combine_sizes(tail_groups_size(v.drop_last(), sum), group_size(v.last().1, sum), sum)
    }
}

/// Size of the fields of a group: each of its identifiers is a field of the
/// group's type.
pub open spec fn group_size<'a>(g: FieldGroup<'a>, sum: bool) -> Option<nat>
    decreases g,
{
    match type_size(g.type_) {
        Some(s) => if sum {
            let n = (g.idents.tail@.len() + 1) * s;
            if n <= size_limit() {
                Some(n as nat)
            } else {
                None
            }
        } else {
            Some(s)
        },
        None => None,
    }
}

fn combine(a: Option<u16>, b: Option<u16>, sum: bool) -> (r: Option<u16>)
    ensures
        opt_nat(r) == combine_sizes(opt_nat(a), opt_nat(b), sum),
{
    match (a, b) {
        (Some(x), Some(y)) => if sum {
            x.checked_add(y)
        } else if x < y {
            Some(y)
        } else {
            Some(x)
        },
        _ => None,
    }
}

/// A 16 bit size as a natural number.
pub open spec fn opt_nat(v: Option<u16>) -> Option<nat> {
    match v {
        Some(x) => Some(x as nat),
        None => None,
    }
}

pub(crate) fn checked_size(t: &Type) -> (r: Option<u16>)
    ensures
        opt_nat(r) == type_size(*t),
    decreases t,
{
    match t {
        Type::U8(_) | Type::I8(_) => Some(1),
        Type::Pointer(_) => Some(2),
        Type::Array(a) => match (checked_size(&a.type_), compute_const_expression(&a.len)) {
            (Some(s), Some(n)) => n.checked_mul(s),
            _ => None,
        },
        Type::Struct(r) => checked_record_size(r, true),
        Type::Union(r) => checked_record_size(r, false),
        _ => None,
    }
}

fn checked_record_size(r: &Record, sum: bool) -> (s: Option<u16>)
    ensures
        opt_nat(s) == record_size(*r, sum),
    decreases r,
{
    match &r.fields {
        None => Some(0),
        Some(f) => {
            let mut total = checked_group_size(&f.head, sum);
            let mut i: usize = 0;
            while i < f.tail.len()
                invariant
                    r.fields == Some(*f),
                    i <= f.tail@.len(),
                    opt_nat(total) == combine_sizes(
                        group_size(f.head, sum),
                        tail_groups_size(f.tail@.subrange(0, i as int), sum),
                        sum,
                    ),
                decreases f.tail@.len() - i,
            {
                proof {
                    assert(decreases_to!(*r => r.fields));
                    assert(decreases_to!(r.fields => r.fields->Some_0));
                    assert(decreases_to!(*f => f.tail));
                    assert(decreases_to!(f.tail => f.tail@));
                    assert(decreases_to!(f.tail@ => f.tail@[i as int]));
                    assert(decreases_to!(f.tail@[i as int] => f.tail@[i as int].1));
                }
                let g = checked_group_size(&f.tail[i].1, sum);
                proof {
                    let pre = f.tail@.subrange(0, i as int);
                    let next = f.tail@.subrange(0, i + 1);
                    assert(next.drop_last() =~= pre);
                    assert(next.last() == f.tail@[i as int]);
                    lemma_combine_assoc(
                        group_size(f.head, sum),
                        tail_groups_size(pre, sum),
                        group_size(f.tail@[i as int].1, sum),
                        sum,
                    );
                }
                total = combine(total, g, sum);
                i = i + 1;
            }
            assert(f.tail@.subrange(0, f.tail@.len() as int) =~= f.tail@);
            total
        },
    }
}

proof fn lemma_combine_assoc(a: Option<nat>, b: Option<nat>, c: Option<nat>, sum: bool)
    ensures
        combine_sizes(combine_sizes(a, b, sum), c, sum) == combine_sizes(a, combine_sizes(b, c, sum), sum),
{
}

fn checked_group_size(g: &FieldGroup, sum: bool) -> (r: Option<u16>)
    ensures
        opt_nat(r) == group_size(*g, sum),
    decreases g,
{
    match checked_size(&g.type_) {
        Some(s) => if sum {
            let mut total: u16 = s;
            let mut i: usize = 0;
            while i < g.idents.tail.len()
                invariant
                    sum,
                    type_size(g.type_) == Some(s as nat),
                    i <= g.idents.tail@.len(),
                    total == (i + 1) * s,
                    (i + 1) * s <= size_limit(),
                decreases g.idents.tail@.len() - i,
            {
                proof {
                    assert((i + 2) * s == (i + 1) * s + s) by (nonlinear_arith);
                }
                match total.checked_add(s) {
                    Some(t) => {
                        total = t;
                    },
                    None => {
                        proof {
                            assert(total + s > 0xffff);
                            assert((i + 2) * s > 0xffff);
                            assert((g.idents.tail@.len() + 1) * s >= (i + 2) * s) by (nonlinear_arith)
                                requires
                                    i + 1 <= g.idents.tail@.len(),
                            ;
                        }
                        return None;
                    },
                }
                i = i + 1;
            }
            Some(total)
        } else {
            Some(s)
        },
        None => None,
    }
}

/// Size in bytes of a type (see [`type_size`]); `None` where it has none.
pub fn compute_type_size(type_: &Type) -> (r: Option<u16>)
    ensures
        opt_nat(r) == type_size(*type_),
{
    checked_size(type_)
}

/// Size in bytes of a type (see [`type_size`]).
pub fn size_of(type_: &Type) -> (r: u16)
    requires
        type_size(*type_) is Some,
    ensures
        r == type_size(*type_)->0,
{
    match checked_size(type_) {
        Some(n) => n,
        None => 0,
    }
}

/// Whether two types are the same: both `u8`, both `i8`, both `u16`, both
/// `i16`, pointers to equivalent types, arrays of equivalent types whose
/// lengths have the same value, paths naming the same symbol, or structs
/// (unions) whose field groups name the same fields with equivalent types, in
/// the same order.
pub open spec fn types_equivalent<'a>(a: Type<'a>, b: Type<'a>) -> bool
    decreases a,
{
    match (a, b) {
        (Type::U8(_), Type::U8(_)) => true,
        (Type::I8(_), Type::I8(_)) => true,
        (Type::U16(_), Type::U16(_)) => true,
        (Type::I16(_), Type::I16(_)) => true,
        (Type::Pointer(x), Type::Pointer(y)) => types_equivalent(x.type_, y.type_),
        (Type::Array(x), Type::Array(y)) => types_equivalent(x.type_, y.type_) && const_eval(
            x.len,
            false,
            no_symbols(),
        ) == const_eval(y.len, false, no_symbols()),
        (Type::Path(x), Type::Path(y)) => symbol_name(x) == symbol_name(y),
        (Type::Struct(x), Type::Struct(y)) => records_equivalent(*x, *y),
        (Type::Union(x), Type::Union(y)) => records_equivalent(*x, *y),
        _ => false,
    }
}

/// The fields of two records are the same (see [`types_equivalent`]).
pub open spec fn records_equivalent<'a>(x: Record<'a>, y: Record<'a>) -> bool
    decreases x,
{
    match (x.fields, y.fields) {
        (None, None) => true,
        (Some(f), Some(g)) => groups_equivalent(f.head, g.head) && f.tail@.len() == g.tail@.len()
            && tails_equivalent(f.tail@, g.tail@),
        _ => false,
    }
}

/// Pairwise equivalent field groups.
pub open spec fn tails_equivalent<'a>(v: Seq<(Token<'a>, FieldGroup<'a>)>, w: Seq<(Token<'a>, FieldGroup<'a>)>) -> bool
    decreases v,
{
    if v.len() == 0 || w.len() != v.len() {
        true
    } else {
        tails_equivalent(v.drop_last(), w.drop_last()) && groups_equivalent(v.last().1, w.last().1)
    }
}

/// Two field groups name the same fields, of equivalent types.
pub open spec fn groups_equivalent<'a>(g: FieldGroup<'a>, h: FieldGroup<'a>) -> bool
    decreases g,
{
    same_idents(g.idents, h.idents) && types_equivalent(g.type_, h.type_)
}

/// Two lists of identifiers have the same texts.
pub open spec fn same_idents<'a>(a: Separated<Token<'a>, Token<'a>>, b: Separated<Token<'a>, Token<'a>>) -> bool {
    &&& a.head.text@ == b.head.text@
    &&& a.tail@.len() == b.tail@.len()
    &&& forall|i: int| 0 <= i < a.tail@.len() ==> (#[trigger] a.tail@[i]).1.text@ == b.tail@[i].1.text@
}

/// The comparison of two types reaches only array lengths that are constant
/// expressions.
pub open spec fn comparable_types<'a>(a: Type<'a>, b: Type<'a>) -> bool
    decreases a,
{
    match (a, b) {
        (Type::Pointer(x), Type::Pointer(y)) => comparable_types(x.type_, y.type_),
        (Type::Array(x), Type::Array(y)) => comparable_types(x.type_, y.type_) && (types_equivalent(
            x.type_,
            y.type_,
        ) ==> const_eval(x.len, false, no_symbols()) is Some && const_eval(y.len, false, no_symbols()) is Some),
        (Type::Struct(x), Type::Struct(y)) => records_comparable(*x, *y),
        (Type::Union(x), Type::Union(y)) => records_comparable(*x, *y),
        _ => true,
    }
}

/// The comparison of two records reaches only constant array lengths.
pub open spec fn records_comparable<'a>(x: Record<'a>, y: Record<'a>) -> bool
    decreases x,
{
    match (x.fields, y.fields) {
        (Some(f), Some(g)) => groups_comparable(f.head, g.head) && (groups_equivalent(f.head, g.head)
            && f.tail@.len() == g.tail@.len() ==> tails_comparable(f.tail@, g.tail@)),
        _ => true,
    }
}

/// The comparison of field groups, in order until one differs, reaches only
/// constant array lengths.
pub open spec fn tails_comparable<'a>(v: Seq<(Token<'a>, FieldGroup<'a>)>, w: Seq<(Token<'a>, FieldGroup<'a>)>) -> bool
    decreases v,
{
    if v.len() == 0 || w.len() != v.len() {
        true
    } else {
        tails_comparable(v.drop_last(), w.drop_last()) && (tails_equivalent(v.drop_last(), w.drop_last())
            ==> groups_comparable(v.last().1, w.last().1))
    }
}

/// The comparison of two field groups reaches only constant array lengths.
pub open spec fn groups_comparable<'a>(g: FieldGroup<'a>, h: FieldGroup<'a>) -> bool
    decreases g,
{
    same_idents(g.idents, h.idents) ==> comparable_types(g.type_, h.type_)
}

fn same_ident_texts(a: &Separated<Token, Token>, b: &Separated<Token, Token>) -> (r: bool)
    ensures
        r == same_idents(*a, *b),
{
    if !bytes_eq(a.head.text, b.head.text) || a.tail.len() != b.tail.len() {
        return false;
    }
    let mut i: usize = 0;
    while i < a.tail.len()
        invariant
            a.tail@.len() == b.tail@.len(),
            i <= a.tail@.len(),
            forall|j: int| 0 <= j < i ==> (#[trigger] a.tail@[j]).1.text@ == b.tail@[j].1.text@,
        decreases a.tail@.len() - i,
    {
        if !bytes_eq(a.tail[i].1.text, b.tail[i].1.text) {
            return false;
        }
        i = i + 1;
    }
    true
}

/// Checks if two types are equal (see [`types_equivalent`]).
pub fn equivalent_types(a: &Type, b: &Type) -> (r: bool)
    requires
        comparable_types(*a, *b),
    ensures
        r == types_equivalent(*a, *b),
    decreases a, 0int,
{
    match (a, b) {
        (Type::U8(_), Type::U8(_)) | (Type::I8(_), Type::I8(_)) | (Type::U16(_), Type::U16(_)) | (
            Type::I16(_),
            Type::I16(_),
        ) => true,
        (Type::Pointer(x), Type::Pointer(y)) => equivalent_types(&x.type_, &y.type_),
        (Type::Array(x), Type::Array(y)) => equivalent_types(&x.type_, &y.type_) && compute_const_expression(
            &x.len,
        ) == compute_const_expression(&y.len),
        (Type::Path(x), Type::Path(y)) => {
            let n = path_to_symbol_name(x);
            let m = path_to_symbol_name(y);
            bytes_eq(n.as_slice(), m.as_slice())
        },
        (Type::Struct(x), Type::Struct(y)) | (Type::Union(x), Type::Union(y)) => equivalent_records(x, y),
        _ => false,
    }
}

fn equivalent_groups(g: &FieldGroup, h: &FieldGroup) -> (r: bool)
    requires
        groups_comparable(*g, *h),
    ensures
        r == groups_equivalent(*g, *h),
    decreases g, 1int,
{
    same_ident_texts(&g.idents, &h.idents) && equivalent_types(&g.type_, &h.type_)
}

fn equivalent_records(x: &Record, y: &Record) -> (r: bool)
    requires
        records_comparable(*x, *y),
    ensures
        r == records_equivalent(*x, *y),
    decreases x, 2int,
{
    match (&x.fields, &y.fields) {
        (None, None) => true,
        (Some(f), Some(g)) => {
            if !equivalent_groups(&f.head, &g.head) || f.tail.len() != g.tail.len() {
                return false;
            }
            let mut i: usize = 0;
            assert(f.tail@.subrange(0, 0) =~= Seq::<(Token, FieldGroup)>::empty());
            assert(g.tail@.subrange(0, 0) =~= Seq::<(Token, FieldGroup)>::empty());
            while i < f.tail.len()
                invariant
                    x.fields == Some(*f),
                    y.fields == Some(*g),
                    f.tail@.len() == g.tail@.len(),
                    i <= f.tail@.len(),
                    tails_comparable(f.tail@, g.tail@),
                    tails_equivalent(f.tail@.subrange(0, i as int), g.tail@.subrange(0, i as int)),
                decreases f.tail@.len() - i,
            {
                let ghost v = f.tail@.subrange(0, i + 1);
                let ghost w = g.tail@.subrange(0, i + 1);
                assert(v.drop_last() =~= f.tail@.subrange(0, i as int));
                assert(w.drop_last() =~= g.tail@.subrange(0, i as int));
                proof {
                    lemma_tails_comparable_prefix(f.tail@, g.tail@, i + 1);
                    assert(decreases_to!(*x => x.fields));
                    assert(decreases_to!(x.fields => x.fields->Some_0));
                    assert(decreases_to!(*f => f.tail));
                    assert(decreases_to!(f.tail => f.tail@));
                    assert(decreases_to!(f.tail@ => f.tail@[i as int]));
                    assert(decreases_to!(f.tail@[i as int] => f.tail@[i as int].1));
                }
                if !equivalent_groups(&f.tail[i].1, &g.tail[i].1) {
                    proof {
                        lemma_tails_differ(f.tail@, g.tail@, i + 1);
                    }
                    return false;
                }
                i = i + 1;
            }
            assert(f.tail@.subrange(0, i as int) =~= f.tail@);
            assert(g.tail@.subrange(0, i as int) =~= g.tail@);
            true
        },
        _ => false,
    }
}

proof fn lemma_tails_comparable_prefix<'a>(v: Seq<(Token<'a>, FieldGroup<'a>)>, w: Seq<(Token<'a>, FieldGroup<'a>)>, k: int)
    requires
        v.len() == w.len(),
        0 <= k <= v.len(),
        tails_comparable(v, w),
    ensures
        tails_comparable(v.subrange(0, k), w.subrange(0, k)),
    decreases v.len() - k,
{
    if k < v.len() {
        lemma_tails_comparable_prefix(v, w, k + 1);
        assert(v.subrange(0, k + 1).drop_last() =~= v.subrange(0, k));
        assert(w.subrange(0, k + 1).drop_last() =~= w.subrange(0, k));
    } else {
        assert(v.subrange(0, k) =~= v);
        assert(w.subrange(0, k) =~= w);
    }
}

proof fn lemma_tails_differ<'a>(v: Seq<(Token<'a>, FieldGroup<'a>)>, w: Seq<(Token<'a>, FieldGroup<'a>)>, k: int)
    requires
        v.len() == w.len(),
        0 <= k <= v.len(),
        !tails_equivalent(v.subrange(0, k), w.subrange(0, k)),
    ensures
        !tails_equivalent(v, w),
    decreases v.len() - k,
{
    if k < v.len() {
        assert(v.subrange(0, k + 1).drop_last() =~= v.subrange(0, k));
        assert(w.subrange(0, k + 1).drop_last() =~= w.subrange(0, k));
        lemma_tails_differ(v, w, k + 1);
    } else {
        assert(v.subrange(0, k) =~= v);
        assert(w.subrange(0, k) =~= w);
    }
}

/// [`equivalent_types`] checks that two types are equal: every type is
/// equivalent to itself, and equivalence is symmetric (see
/// [`lemma_types_comparable`] for its `requires`, which is symmetric too).
pub proof fn lemma_types_equivalent<'a>(a: Type<'a>, b: Type<'a>)
    ensures
        types_equivalent(a, a),
        types_equivalent(a, b) == types_equivalent(b, a),
    decreases a,
{
    match (a, b) {
        (Type::Pointer(x), Type::Pointer(y)) => lemma_types_equivalent(x.type_, y.type_),
        (Type::Pointer(x), _) => lemma_types_equivalent(x.type_, x.type_),
        (Type::Array(x), Type::Array(y)) => lemma_types_equivalent(x.type_, y.type_),
        (Type::Array(x), _) => lemma_types_equivalent(x.type_, x.type_),
        (Type::Struct(x), Type::Struct(y)) => lemma_records_equivalent(*x, *y),
        (Type::Struct(x), _) => lemma_records_equivalent(*x, *x),
        (Type::Union(x), Type::Union(y)) => lemma_records_equivalent(*x, *y),
        (Type::Union(x), _) => lemma_records_equivalent(*x, *x),
        _ => {},
    }
}

proof fn lemma_records_equivalent<'a>(x: Record<'a>, y: Record<'a>)
    ensures
        records_equivalent(x, x),
        records_equivalent(x, y) == records_equivalent(y, x),
    decreases x,
{
    match (x.fields, y.fields) {
        (Some(f), Some(g)) => {
            lemma_groups_equivalent(f.head, g.head);
            lemma_tails_equivalent(f.tail@, g.tail@);
        },
        (Some(f), None) => {
            lemma_groups_equivalent(f.head, f.head);
            lemma_tails_equivalent(f.tail@, f.tail@);
        },
        _ => {},
    }
}

proof fn lemma_tails_equivalent<'a>(v: Seq<(Token<'a>, FieldGroup<'a>)>, w: Seq<(Token<'a>, FieldGroup<'a>)>)
    ensures
        tails_equivalent(v, v),
        tails_equivalent(v, w) == tails_equivalent(w, v),
    decreases v,
{
    if v.len() > 0 {
        lemma_tails_equivalent(v.drop_last(), v.drop_last());
        lemma_groups_equivalent(v.last().1, v.last().1);
        if w.len() == v.len() {
            lemma_tails_equivalent(v.drop_last(), w.drop_last());
            lemma_groups_equivalent(v.last().1, w.last().1);
        }
    }
}

proof fn lemma_groups_equivalent<'a>(g: FieldGroup<'a>, h: FieldGroup<'a>)
    ensures
        groups_equivalent(g, g),
        groups_equivalent(g, h) == groups_equivalent(h, g),
    decreases g,
{
    lemma_types_equivalent(g.type_, h.type_);
    lemma_types_equivalent(g.type_, g.type_);
}

/// The size of a type with a layout is the size of its layout.
pub proof fn lemma_size_of_layout<'a>(t: Type<'a>)
    requires
        type_layout(t) is Some,
        type_size(t) is Some,
    ensures
        type_size(t) == Some(layout_size(type_layout(t)->0)),
    decreases t,
{
    match t {
        Type::Array(a) => {
            lemma_size_of_layout(a.type_);
        },
        _ => {},
    }
}

/// Whether [`equivalent_types`] may compare two types does not depend on
/// their order, so where it may compare `a` with `b` it may compare `b` with
/// `a` and gives the same answer.
pub proof fn lemma_types_comparable<'a>(a: Type<'a>, b: Type<'a>)
    ensures
        comparable_types(a, b) == comparable_types(b, a),
    decreases a,
{
    lemma_types_equivalent(a, b);
    match (a, b) {
        (Type::Pointer(x), Type::Pointer(y)) => lemma_types_comparable(x.type_, y.type_),
        (Type::Array(x), Type::Array(y)) => {
            lemma_types_comparable(x.type_, y.type_);
            lemma_types_equivalent(x.type_, y.type_);
        },
        (Type::Struct(x), Type::Struct(y)) => lemma_records_comparable(*x, *y),
        (Type::Union(x), Type::Union(y)) => lemma_records_comparable(*x, *y),
        _ => {},
    }
}

proof fn lemma_records_comparable<'a>(x: Record<'a>, y: Record<'a>)
    ensures
        records_comparable(x, y) == records_comparable(y, x),
    decreases x,
{
    match (x.fields, y.fields) {
        (Some(f), Some(g)) => {
            lemma_groups_comparable(f.head, g.head);
            lemma_groups_equivalent(f.head, g.head);
            lemma_tails_comparable(f.tail@, g.tail@);
        },
        _ => {},
    }
}

proof fn lemma_tails_comparable<'a>(v: Seq<(Token<'a>, FieldGroup<'a>)>, w: Seq<(Token<'a>, FieldGroup<'a>)>)
    ensures
        tails_comparable(v, w) == tails_comparable(w, v),
    decreases v,
{
    if v.len() > 0 && w.len() == v.len() {
        lemma_tails_comparable(v.drop_last(), w.drop_last());
        lemma_tails_equivalent(v.drop_last(), w.drop_last());
        lemma_groups_comparable(v.last().1, w.last().1);
    }
}

proof fn lemma_groups_comparable<'a>(g: FieldGroup<'a>, h: FieldGroup<'a>)
    ensures
        groups_comparable(g, h) == groups_comparable(h, g),
    decreases g,
{
    lemma_types_comparable(g.type_, h.type_);
    lemma_same_idents(g.idents, h.idents);
}

proof fn lemma_same_idents<'a>(a: Separated<Token<'a>, Token<'a>>, b: Separated<Token<'a>, Token<'a>>)
    ensures
        same_idents(a, b) == same_idents(b, a),
{
    if same_idents(a, b) {
        assert forall|i: int| 0 <= i < b.tail@.len() implies (#[trigger] b.tail@[i]).1.text@ == a.tail@[i].1.text@ by {
            assert(a.tail@[i].1.text@ == b.tail@[i].1.text@);
        }
    }
    if same_idents(b, a) {
        assert forall|i: int| 0 <= i < a.tail@.len() implies (#[trigger] a.tail@[i]).1.text@ == b.tail@[i].1.text@ by {
            assert(b.tail@[i].1.text@ == a.tail@[i].1.text@);
        }
    }
}

} // verus!
