//! Symbols of the members of a declared field: structs and unions are laid
//! out member by member, each member named by the path of field names that
//! leads to it.
use crate::ast::{FieldGroup, Record, Separated, Type};
use crate::ir::allocation::{views, Space, Symbol, SymbolView};
use crate::ir::layout::{checked_size, combine_sizes, group_size, groups_size, record_size, size_limit, tail_groups_size, type_layout, type_size, Layout};
use crate::ir::CompileError;
use crate::lex::Token;
use vstd::prelude::*;

verus! {

/// Name of the member `ident` of the field named `prefix`: `prefix::ident`.
pub open spec fn member_name(prefix: Seq<u8>, ident: Seq<u8>) -> Seq<u8> {
    prefix + seq![58u8, 58u8] + ident
}

/// Where the next member of a record starts: after the bytes used so far in a
/// struct, at the record's own offset in a union.
pub open spec fn next_offset(offset: u16, used: nat, sum: bool) -> int {
    if sum {
        offset + used
    } else {
        offset as int
    }
}

/// Bytes used by a record after one more member of `size` bytes: their sum in
/// a struct, the larger in a union.
pub open spec fn grow(used: nat, size: nat, sum: bool) -> nat {
    if sum {
        used + size
    } else if used < size {
        size
    } else {
        used
    }
}

/// The symbols that a field named `name` of type `t` declares at `offset` in
/// `space`, with the number of bytes it takes (see [`type_size`]). A type
/// with a layout declares one symbol; a struct declares the symbols of its members one after the
/// other, a union declares them all at `offset`. Fails with `Unsupported`
/// where a type has no layout, and with `Limit` where a size or an offset does
/// not fit in 16 bits.
pub open spec fn member_symbols<'a>(name: Seq<u8>, t: Type<'a>, offset: u16, space: Space) -> Result<
    (Seq<SymbolView>, nat),
    CompileError,
>
    decreases t, 0nat,
{
    match t {
        Type::Struct(r) => record_symbols(name, *r, offset, space, true),
        Type::Union(r) => record_symbols(name, *r, offset, space, false),
        _ => match type_layout(t) {
            None => Err(CompileError::Unsupported),
            Some(l) => match type_size(t) {
                None => Err(CompileError::Limit),
                Some(n) => Ok((seq![SymbolView { name, offset, size: n as u16, layout: l, space }], n)),
            },
        },
    }
}

/// Symbols of the members of a record (see [`member_symbols`]); `sum` for a
/// struct.
pub open spec fn record_symbols<'a>(name: Seq<u8>, r: Record<'a>, offset: u16, space: Space, sum: bool) -> Result<
    (Seq<SymbolView>, nat),
    CompileError,
>
    decreases r, 0nat,
{
    match r.fields {
        None => Ok((seq![], 0)),
        Some(f) => groups_symbols(name, f, offset, space, sum),
    }
}

/// Symbols of comma separated member groups.
pub open spec fn groups_symbols<'a>(
    name: Seq<u8>,
    s: Separated<FieldGroup<'a>, Token<'a>>,
    offset: u16,
    space: Space,
    sum: bool,
) -> Result<(Seq<SymbolView>, nat), CompileError>
    decreases s, 0nat,
{
    match group_symbols(name, s.head, offset, space, sum, 0) {
        Err(e) => Err(e),
        Ok((hs, used)) => match tail_symbols(name, s.tail@, offset, space, sum, used) {
            Err(e) => Err(e),
            Ok((ts, total)) => Ok((hs + ts, total)),
        },
    }
}

/// Symbols of the groups of `(separator, group)` pairs that follow the
/// first group of a record, which used `used` bytes.
pub open spec fn tail_symbols<'a>(
    name: Seq<u8>,
    v: Seq<(Token<'a>, FieldGroup<'a>)>,
    offset: u16,
    space: Space,
    sum: bool,
    used: nat,
) -> Result<(Seq<SymbolView>, nat), CompileError>
    decreases v, 0nat,
{
    if v.len() == 0 {
        Ok((seq![], used))
    } else {
        match tail_symbols(name, v.drop_last(), offset, space, sum, used) {
            Err(e) => Err(e),
            Ok((syms, u)) => match group_symbols(name, v.last().1, offset, space, sum, u) {
                Err(e) => Err(e),
                Ok((gs, total)) => Ok((syms + gs, total)),
            },
        }
    }
}

/// Symbols of the members of a group, after `used` bytes of the record.
pub open spec fn group_symbols<'a>(name: Seq<u8>, g: FieldGroup<'a>, offset: u16, space: Space, sum: bool, used: nat) -> Result<
    (Seq<SymbolView>, nat),
    CompileError,
>
    decreases g, 0nat,
{
    match ident_symbols(name, g.idents.head, g.type_, offset, space, sum, used) {
        Err(e) => Err(e),
        Ok((hs, u)) => match idents_symbols(name, g.idents.tail@, g.type_, offset, space, sum, u) {
            Err(e) => Err(e),
            Ok((ts, total)) => Ok((hs + ts, total)),
        },
    }
}

/// Symbols of the members named by the identifiers of `(separator,
/// identifier)` pairs, all of type `t`.
pub open spec fn idents_symbols<'a>(
    name: Seq<u8>,
    v: Seq<(Token<'a>, Token<'a>)>,
    t: Type<'a>,
    offset: u16,
    space: Space,
    sum: bool,
    used: nat,
) -> Result<(Seq<SymbolView>, nat), CompileError>
    decreases t, v.len() + 2,
{
    if v.len() == 0 {
        Ok((seq![], used))
    } else {
        match idents_symbols(name, v.drop_last(), t, offset, space, sum, used) {
            Err(e) => Err(e),
            Ok((syms, u)) => match ident_symbols(name, v.last().1, t, offset, space, sum, u) {
                Err(e) => Err(e),
                Ok((is, total)) => Ok((syms + is, total)),
            },
        }
    }
}

/// Symbols of one member of type `t`, after `used` bytes of the record.
pub open spec fn ident_symbols<'a>(
    name: Seq<u8>,
    ident: Token<'a>,
    t: Type<'a>,
    offset: u16,
    space: Space,
    sum: bool,
    used: nat,
) -> Result<(Seq<SymbolView>, nat), CompileError>
    decreases t, 1nat,
{
    let at = next_offset(offset, used, sum);
    if at > 0xffff {
        Err(CompileError::Limit)
    } else {
        match member_symbols(member_name(name, ident.text@), t, at as u16, space) {
            Err(e) => Err(e),
            Ok((syms, size)) => if offset + grow(used, size, sum) > 0xffff {
                Err(CompileError::Limit)
            } else {
                Ok((syms, grow(used, size, sum)))
            },
        }
    }
}

proof fn lemma_tail_prefix_err<'a>(
    name: Seq<u8>,
    v: Seq<(Token<'a>, FieldGroup<'a>)>,
    offset: u16,
    space: Space,
    sum: bool,
    used: nat,
    k: int,
)
    requires
        0 <= k <= v.len(),
        tail_symbols(name, v.subrange(0, k), offset, space, sum, used) is Err,
    ensures
        tail_symbols(name, v, offset, space, sum, used) == tail_symbols(name, v.subrange(0, k), offset, space, sum, used),
    decreases v.len() - k,
{
    if k < v.len() {
        assert(v.subrange(0, k + 1).drop_last() =~= v.subrange(0, k));
        lemma_tail_prefix_err(name, v, offset, space, sum, used, k + 1);
    } else {
        assert(v.subrange(0, k) =~= v);
    }
}

proof fn lemma_idents_prefix_err<'a>(
    name: Seq<u8>,
    v: Seq<(Token<'a>, Token<'a>)>,
    t: Type<'a>,
    offset: u16,
    space: Space,
    sum: bool,
    used: nat,
    k: int,
)
    requires
        0 <= k <= v.len(),
        idents_symbols(name, v.subrange(0, k), t, offset, space, sum, used) is Err,
    ensures
        idents_symbols(name, v, t, offset, space, sum, used) == idents_symbols(name, v.subrange(0, k), t, offset, space, sum, used),
    decreases v.len() - k,
{
    if k < v.len() {
        assert(v.subrange(0, k + 1).drop_last() =~= v.subrange(0, k));
        lemma_idents_prefix_err(name, v, t, offset, space, sum, used, k + 1);
    } else {
        assert(v.subrange(0, k) =~= v);
    }
}

fn copy_name(v: &Vec<u8>) -> (r: Vec<u8>)
    ensures
        r@ == v@,
{
    let mut r: Vec<u8> = Vec::new();
    let mut i: usize = 0;
    while i < v.len()
        invariant
            i <= v@.len(),
            r@ == v@.subrange(0, i as int),
        decreases v.len() - i,
    {
        r.push(v[i]);
        i = i + 1;
        assert(r@ =~= v@.subrange(0, i as int));
    }
    assert(v@.subrange(0, i as int) =~= v@);
    r
}

fn make_member_name(prefix: &Vec<u8>, ident: &[u8]) -> (r: Vec<u8>)
    ensures
        r@ == member_name(prefix@, ident@),
{
    let mut r = copy_name(prefix);
    r.push(58u8);
    r.push(58u8);
    let ghost start = r@;
    let mut i: usize = 0;
    while i < ident.len()
        invariant
            i <= ident@.len(),
            r@ == start + ident@.subrange(0, i as int),
        decreases ident.len() - i,
    {
        r.push(ident[i]);
        i = i + 1;
        assert(r@ =~= start + ident@.subrange(0, i as int));
    }
    assert(ident@.subrange(0, i as int) =~= ident@);
    assert(r@ =~= member_name(prefix@, ident@));
    r
}

/// Pushes the symbols that a field named `name` of type `t` declares at
/// `offset` in `space` (see [`member_symbols`]); returns its size. What is
/// left in `out` after an error is unspecified.
pub fn push_member_symbols(name: &Vec<u8>, t: &Type, offset: u16, space: Space, out: &mut Vec<Symbol>) -> (r: Result<
    u16,
    CompileError,
>)
    ensures
        match member_symbols(name@, *t, offset, space) {
            Ok((syms, size)) => r matches Ok(n) && n == size && views(final(out)@) == views(old(out)@) + syms,
            Err(e) => r == Err::<u16, CompileError>(e),
        },
    decreases t, 0nat,
{
    match t {
        Type::Struct(rec) => push_record_symbols(name, rec, offset, space, true, out),
        Type::Union(rec) => push_record_symbols(name, rec, offset, space, false, out),
        _ => match Layout::from_type(t) {
            None => Err(CompileError::Unsupported),
            Some(l) => match checked_size(t) {
                None => Err(CompileError::Limit),
                Some(n) => {
                    let sym = Symbol { name: copy_name(name), offset, size: n, layout: l, space };
                    out.push(sym);
                    assert(views(out@) =~= views(old(out)@) + seq![sym@]);
                    Ok(n)
                },
            },
        },
    }
}

#[verifier::spinoff_prover]
#[verifier::rlimit(40)]
fn push_record_symbols(name: &Vec<u8>, rec: &Record, offset: u16, space: Space, sum: bool, out: &mut Vec<Symbol>) -> (r: Result<
    u16,
    CompileError,
>)
    ensures
        match record_symbols(name@, *rec, offset, space, sum) {
            Ok((syms, size)) => r matches Ok(n) && n == size && views(final(out)@) == views(old(out)@) + syms,
            Err(e) => r == Err::<u16, CompileError>(e),
        },
    decreases rec, 0nat,
{
    match &rec.fields {
        None => {
            assert(views(out@) =~= views(old(out)@) + Seq::<SymbolView>::empty());
            Ok(0)
        },
        Some(f) => {
            let mut used = match push_group_symbols(name, &f.head, offset, space, sum, 0, out) {
                Ok(n) => n,
                Err(e) => return Err(e),
            };
            let ghost hs = group_symbols(name@, f.head, offset, space, sum, 0)->Ok_0.0;
            let ghost u0 = used as nat;
            let ghost mut acc = Seq::<SymbolView>::empty();
            assert(f.tail@.subrange(0, 0) =~= Seq::<(Token, FieldGroup)>::empty());
            assert(views(out@) =~= views(old(out)@) + hs + acc);
            let mut i: usize = 0;
            while i < f.tail.len()
                invariant
                    rec.fields == Some(*f),
                    i <= f.tail@.len(),
                    group_symbols(name@, f.head, offset, space, sum, 0) == Ok::<(Seq<SymbolView>, nat), CompileError>((hs, u0)),
                    tail_symbols(name@, f.tail@.subrange(0, i as int), offset, space, sum, u0) == Ok::<(Seq<SymbolView>, nat), CompileError>((acc, used as nat)),
                    views(out@) == views(old(out)@) + hs + acc,
                decreases f.tail@.len() - i,
            {
                proof {
                    assert(decreases_to!(*rec => rec.fields));
                    assert(decreases_to!(rec.fields => rec.fields->Some_0));
                    assert(decreases_to!(*f => f.tail));
                    assert(decreases_to!(f.tail => f.tail@));
                    assert(decreases_to!(f.tail@ => f.tail@[i as int]));
                    assert(decreases_to!(f.tail@[i as int] => f.tail@[i as int].1));
                }
                let ghost next = f.tail@.subrange(0, i + 1);
                assert(next.drop_last() =~= f.tail@.subrange(0, i as int));
                assert(next.last() == f.tail@[i as int]);
                let ghost before = views(out@);
                let ghost prev_used = used as nat;
                match push_group_symbols(name, &f.tail[i].1, offset, space, sum, used, out) {
                    Ok(n) => {
                        used = n;
                    },
                    Err(e) => {
                        proof {
                            lemma_tail_prefix_err(name@, f.tail@, offset, space, sum, u0, i + 1);
                        }
                        return Err(e);
                    },
                }
                proof {
                    let gs = group_symbols(name@, f.tail@[i as int].1, offset, space, sum, prev_used)->Ok_0.0;
                    assert(views(out@) == before + gs);
                    assert(views(out@) =~= views(old(out)@) + hs + (acc + gs));
                    acc = acc + gs;
                }
                i = i + 1;
            }
            assert(f.tail@.subrange(0, i as int) =~= f.tail@);
            assert(views(out@) =~= views(old(out)@) + (hs + acc));
            Ok(used)
        },
    }
}

fn push_group_symbols(
    name: &Vec<u8>,
    g: &FieldGroup,
    offset: u16,
    space: Space,
    sum: bool,
    used: u16,
    out: &mut Vec<Symbol>,
) -> (r: Result<u16, CompileError>)
    ensures
        match group_symbols(name@, *g, offset, space, sum, used as nat) {
            Ok((syms, size)) => r matches Ok(n) && n == size && views(final(out)@) == views(old(out)@) + syms,
            Err(e) => r == Err::<u16, CompileError>(e),
        },
    decreases g, 0nat,
{
    let mut total = match push_ident_symbols(name, &g.idents.head, &g.type_, offset, space, sum, used, out) {
        Ok(n) => n,
        Err(e) => return Err(e),
    };
    let ghost hs = ident_symbols(name@, g.idents.head, g.type_, offset, space, sum, used as nat)->Ok_0.0;
    let ghost u0 = total as nat;
    let ghost mut acc = Seq::<SymbolView>::empty();
    assert(g.idents.tail@.subrange(0, 0) =~= Seq::<(Token, Token)>::empty());
    assert(views(out@) =~= views(old(out)@) + hs + acc);
    let mut i: usize = 0;
    while i < g.idents.tail.len()
        invariant
            i <= g.idents.tail@.len(),
            ident_symbols(name@, g.idents.head, g.type_, offset, space, sum, used as nat) == Ok::<(Seq<SymbolView>, nat), CompileError>((hs, u0)),
            idents_symbols(name@, g.idents.tail@.subrange(0, i as int), g.type_, offset, space, sum, u0) == Ok::<(Seq<SymbolView>, nat), CompileError>((acc, total as nat)),
            views(out@) == views(old(out)@) + hs + acc,
        decreases g.idents.tail@.len() - i,
    {
        let ghost next = g.idents.tail@.subrange(0, i + 1);
        assert(next.drop_last() =~= g.idents.tail@.subrange(0, i as int));
        assert(next.last() == g.idents.tail@[i as int]);
        let ghost before = views(out@);
        let ghost prev_used = total as nat;
        match push_ident_symbols(name, &g.idents.tail[i].1, &g.type_, offset, space, sum, total, out) {
            Ok(n) => {
                total = n;
            },
            Err(e) => {
                proof {
                    lemma_idents_prefix_err(name@, g.idents.tail@, g.type_, offset, space, sum, u0, i + 1);
                }
                return Err(e);
            },
        }
        proof {
            let is = ident_symbols(name@, g.idents.tail@[i as int].1, g.type_, offset, space, sum, prev_used)->Ok_0.0;
            assert(views(out@) == before + is);
            assert(views(out@) =~= views(old(out)@) + hs + (acc + is));
            acc = acc + is;
        }
        i = i + 1;
    }
    assert(g.idents.tail@.subrange(0, i as int) =~= g.idents.tail@);
    assert(views(out@) =~= views(old(out)@) + (hs + acc));
    Ok(total)
}

fn push_ident_symbols(
    name: &Vec<u8>,
    ident: &Token,
    t: &Type,
    offset: u16,
    space: Space,
    sum: bool,
    used: u16,
    out: &mut Vec<Symbol>,
) -> (r: Result<u16, CompileError>)
    ensures
        match ident_symbols(name@, *ident, *t, offset, space, sum, used as nat) {
            Ok((syms, size)) => r matches Ok(n) && n == size && views(final(out)@) == views(old(out)@) + syms,
            Err(e) => r == Err::<u16, CompileError>(e),
        },
    decreases t, 1nat,
{
    let at: u32 = if sum {
        offset as u32 + used as u32
    } else {
        offset as u32
    };
    if at > 0xffff {
        return Err(CompileError::Limit);
    }
    let member = make_member_name(name, ident.text);
    let size = match push_member_symbols(&member, t, at as u16, space, out) {
        Ok(n) => n,
        Err(e) => return Err(e),
    };
    let grown: u32 = if sum {
        used as u32 + size as u32
    } else if used < size {
        size as u32
    } else {
        used as u32
    };
    if offset as u32 + grown > 0xffff {
        return Err(CompileError::Limit);
    }
    Ok(grown as u16)
}

/// The members of a field take as many bytes as its type has (see
/// [`type_size`]): what a declaration allocates is the size of its type.
pub proof fn lemma_member_size<'a>(name: Seq<u8>, t: Type<'a>, offset: u16, space: Space)
    ensures
        member_symbols(name, t, offset, space) matches Ok((syms, n)) ==> type_size(t) == Some(n) && n
            <= size_limit(),
    decreases t, 0nat,
{
    match t {
        Type::Struct(r) => lemma_record_size(name, *r, offset, space, true),
        Type::Union(r) => lemma_record_size(name, *r, offset, space, false),
        _ => {},
    }
}

proof fn lemma_combine_assoc(a: Option<nat>, b: Option<nat>, c: Option<nat>, sum: bool)
    ensures
        combine_sizes(combine_sizes(a, b, sum), c, sum) == combine_sizes(a, combine_sizes(b, c, sum), sum),
{
}

proof fn lemma_record_size<'a>(name: Seq<u8>, r: Record<'a>, offset: u16, space: Space, sum: bool)
    ensures
        record_symbols(name, r, offset, space, sum) matches Ok((syms, n)) ==> record_size(r, sum) == Some(n) && n
            <= size_limit(),
    decreases r, 0nat,
{
    match r.fields {
        None => {},
        Some(f) => lemma_groups_size(name, f, offset, space, sum),
    }
}

proof fn lemma_groups_size<'a>(name: Seq<u8>, s: Separated<FieldGroup<'a>, Token<'a>>, offset: u16, space: Space, sum: bool)
    ensures
        groups_symbols(name, s, offset, space, sum) matches Ok((syms, n)) ==> groups_size(s, sum) == Some(n) && n
            <= size_limit(),
    decreases s, 0nat,
{
    lemma_group_size(name, s.head, offset, space, sum, 0);
    if let Ok((hs, u)) = group_symbols(name, s.head, offset, space, sum, 0) {
        lemma_tail_size(name, s.tail@, offset, space, sum, u);
        lemma_combine_assoc(Some(0), group_size(s.head, sum), tail_groups_size(s.tail@, sum), sum);
    }
}

proof fn lemma_tail_size<'a>(
    name: Seq<u8>,
    v: Seq<(Token<'a>, FieldGroup<'a>)>,
    offset: u16,
    space: Space,
    sum: bool,
    used: nat,
)
    requires
        used <= size_limit(),
    ensures
        tail_symbols(name, v, offset, space, sum, used) matches Ok((syms, n)) ==> combine_sizes(
            Some(used),
            tail_groups_size(v, sum),
            sum,
        ) == Some(n) && n <= size_limit(),
    decreases v, 0nat,
{
    if v.len() > 0 {
        lemma_tail_size(name, v.drop_last(), offset, space, sum, used);
        if let Ok((syms, u)) = tail_symbols(name, v.drop_last(), offset, space, sum, used) {
            lemma_group_size(name, v.last().1, offset, space, sum, u);
            lemma_combine_assoc(Some(used), tail_groups_size(v.drop_last(), sum), group_size(v.last().1, sum), sum);
        }
    }
}

proof fn lemma_group_size<'a>(name: Seq<u8>, g: FieldGroup<'a>, offset: u16, space: Space, sum: bool, used: nat)
    requires
        used <= size_limit(),
    ensures
        group_symbols(name, g, offset, space, sum, used) matches Ok((syms, n)) ==> combine_sizes(
            Some(used),
            group_size(g, sum),
            sum,
        ) == Some(n) && n <= size_limit(),
    decreases g, 0nat,
{
    lemma_ident_size(name, g.idents.head, g.type_, offset, space, sum, used);
    if let Ok((hs, u)) = ident_symbols(name, g.idents.head, g.type_, offset, space, sum, used) {
        lemma_idents_size(name, g.idents.tail@, g.type_, offset, space, sum, u);
        if let Ok((ts, n)) = idents_symbols(name, g.idents.tail@, g.type_, offset, space, sum, u) {
            let sz = type_size(g.type_)->0;
            let k = g.idents.tail@.len();
            if sum {
                assert((k + 1) * sz == k * sz + sz) by (nonlinear_arith);
            }
        }
    }
}

proof fn lemma_idents_size<'a>(
    name: Seq<u8>,
    v: Seq<(Token<'a>, Token<'a>)>,
    t: Type<'a>,
    offset: u16,
    space: Space,
    sum: bool,
    used: nat,
)
    requires
        used <= size_limit(),
        type_size(t) is Some,
    ensures
        idents_symbols(name, v, t, offset, space, sum, used) matches Ok((syms, n)) ==> n <= size_limit() && n == if sum {
            used + v.len() * type_size(t)->0
        } else if v.len() == 0 {
            used
        } else {
            grow(used, type_size(t)->0, false)
        },
    decreases t, v.len() + 2,
{
    if v.len() > 0 {
        lemma_idents_size(name, v.drop_last(), t, offset, space, sum, used);
        if let Ok((syms, u)) = idents_symbols(name, v.drop_last(), t, offset, space, sum, used) {
            lemma_ident_size(name, v.last().1, t, offset, space, sum, u);
            let sz = type_size(t)->0;
            if sum {
                assert(used + (v.len() - 1) * sz + sz == used + v.len() * sz) by (nonlinear_arith);
            }
        }
    }
}

proof fn lemma_ident_size<'a>(name: Seq<u8>, ident: Token<'a>, t: Type<'a>, offset: u16, space: Space, sum: bool, used: nat)
    requires
        used <= size_limit(),
    ensures
        ident_symbols(name, ident, t, offset, space, sum, used) matches Ok((syms, n)) ==> type_size(t) is Some && n
            == grow(used, type_size(t)->0, sum) && n <= size_limit(),
    decreases t, 1nat,
{
    let at = next_offset(offset, used, sum);
    if at <= 0xffff {
        lemma_member_size(member_name(name, ident.text@), t, at as u16, space);
    }
}

} // verus!
